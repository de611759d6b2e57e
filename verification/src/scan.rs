//! The incremental scan: a persisted index of already-seen paths and the
//! logic that filters a traversal down to newly seen regular files.
//!
//! The traversal itself (directory walking, hidden-entry pruning, loading
//! and storing the index file) is the unverified shell's job; it hands this
//! module the entries it found, in order.

use vstd::prelude::*;

use crate::link::{join_path, spec_join};
use crate::strutil::{sanitize_path, sanitized, str_eq, views_of};

verus! {

/// A file met during traversal: its path and whether it is a regular file.
pub struct ScannedFile {
    /// Path of the entry.
    pub path: String,
    /// Whether the entry is a regular file (directories and other entry
    /// kinds are never linked).
    pub is_file: bool,
}

/// The set of path strings already processed in earlier runs, persisted
/// between invocations. Insertion order is kept; no path occurs twice.
pub struct FileIndex {
    paths: Vec<String>,
}

impl View for FileIndex {
    type V = Seq<Seq<char>>;

    closed spec fn view(&self) -> Seq<Seq<char>> {
        views_of(self.paths@)
    }
}

impl FileIndex {
    /// No path occurs twice.
    pub open spec fn wf(&self) -> bool {
        forall|i: int, j: int| 0 <= i < j < self@.len() ==> self@[i] != self@[j]
    }

    /// An empty index (the cold-start state).
    pub fn new() -> (r: FileIndex)
        ensures
            r@ == Seq::<Seq<char>>::empty(),
            r.wf(),
    {
        let r = FileIndex { paths: Vec::new() };
        proof {
            assert(r@ =~= Seq::<Seq<char>>::empty());
        }
        r
    }

    /// How many paths the index holds.
    pub fn len(&self) -> (r: usize)
        ensures
            r == self@.len(),
    {
        self.paths.len()
    }

    /// Whether `p` is already recorded.
    pub fn contains(&self, p: &str) -> (r: bool)
        ensures
            r == self@.contains(p@),
    {
        let mut i: usize = 0;
        while i < self.paths.len()
            invariant
                i <= self@.len(),
                self@.len() == self.paths@.len(),
                forall|k: int| 0 <= k < i ==> self@[k] != p@,
            decreases self@.len() - i,
        {
            if str_eq(self.paths[i].as_str(), p) {
                proof {
                    assert(self@[i as int] == p@);
                }
                return true;
            }
            i = i + 1;
        }
        proof {
            if self@.contains(p@) {
                let k = choose|k: int| 0 <= k < self@.len() && self@[k] == p@;
                assert(self@[k] != p@);
            }
        }
        false
    }

    /// Record `p`; report whether it was newly added.
    pub fn insert(&mut self, p: String) -> (r: bool)
        requires
            old(self).wf(),
        ensures
            r == !old(self)@.contains(p@),
            r ==> final(self)@ == old(self)@.push(p@),
            !r ==> final(self)@ == old(self)@,
            final(self).wf(),
    {
        if self.contains(p.as_str()) {
            false
        } else {
            proof {
                assert(views_of(self.paths@.push(p)) =~= views_of(self.paths@).push(p@));
            }
            self.paths.push(p);
            proof {
                assert forall|i: int, j: int| 0 <= i < j < self@.len() implies self@[i]
                    != self@[j] by {
                    if j == self@.len() - 1 {
                        assert(!old(self)@.contains(self@[j]));
                    }
                }
            }
            true
        }
    }

    /// The recorded paths, in insertion order, for persisting.
    pub fn paths(&self) -> (r: &Vec<String>)
        ensures
            views_of(r@) == self@,
    {
        &self.paths
    }
}

/// What one scan pass over `entries` does to an index holding `seen`:
/// the list of newly seen regular files, and the index contents after.
pub open spec fn scan_spec(entries: Seq<ScannedFile>, seen: Seq<Seq<char>>) -> (
    Seq<ScannedFile>,
    Seq<Seq<char>>,
)
    decreases entries.len(),
{
    if entries.len() == 0 {
        (Seq::<ScannedFile>::empty(), seen)
    } else {
        let e = entries[0];
        if e.is_file && !seen.contains(e.path@) {
            let rest = scan_spec(entries.drop_first(), seen.push(e.path@));
            (seq![e] + rest.0, rest.1)
        } else {
            scan_spec(entries.drop_first(), seen)
        }
    }
}

/// Filter a traversal down to the regular files not yet recorded in the
/// index, recording them as it goes. The returned list holds exactly the
/// newly seen regular files, in traversal order; the index afterwards also
/// holds each of their paths.
pub fn scan_new_file(entries: &Vec<ScannedFile>, index: &mut FileIndex) -> (r: Vec<ScannedFile>)
    requires
        old(index).wf(),
    ensures
        final(index).wf(),
        r@ == scan_spec(entries@, old(index)@).0,
        final(index)@ == scan_spec(entries@, old(index)@).1,
{
    let mut r: Vec<ScannedFile> = Vec::new();
    let mut i: usize = 0;
    proof {
        assert(entries@.skip(0) =~= entries@);
        assert(r@ + scan_spec(entries@, old(index)@).0 =~= scan_spec(entries@, old(index)@).0);
    }
    while i < entries.len()
        invariant
            i <= entries@.len(),
            index.wf(),
            scan_spec(entries@, old(index)@).0 == r@ + scan_spec(entries@.skip(i as int), index@).0,
            scan_spec(entries@, old(index)@).1 == scan_spec(entries@.skip(i as int), index@).1,
        decreases entries@.len() - i,
    {
        let ghost rem = entries@.skip(i as int);
        proof {
            assert(rem[0] == entries@[i as int]);
            assert(rem.drop_first() =~= entries@.skip(i as int + 1));
        }
        let e = &entries[i];
        if e.is_file {
            let inserted = index.insert(e.path.clone());
            if inserted {
                let kept = ScannedFile { path: e.path.clone(), is_file: true };
                proof {
                    assert(kept == entries@[i as int]);
                    assert(r@.push(kept) + scan_spec(entries@.skip(i as int + 1), index@).0
                        =~= r@ + (seq![kept] + scan_spec(entries@.skip(i as int + 1), index@).0));
                }
                r.push(kept);
            }
        }
        i = i + 1;
    }
    proof {
        assert(entries@.skip(entries@.len() as int) =~= Seq::<ScannedFile>::empty());
        assert(r@ + Seq::<ScannedFile>::empty() =~= r@);
    }
    r
}

/// After a pass, the index still holds everything it held, plus the path
/// of every regular file among the entries.
proof fn lemma_scan_index_covers(entries: Seq<ScannedFile>, seen: Seq<Seq<char>>)
    ensures
        forall|x: Seq<char>| seen.contains(x) ==> #[trigger] scan_spec(entries, seen).1.contains(x),
        forall|k: int|
            0 <= k < entries.len() && entries[k].is_file ==> scan_spec(entries, seen).1.contains(
                #[trigger] entries[k].path@,
            ),
    decreases entries.len(),
{
    if entries.len() > 0 {
        let e = entries[0];
        let tail = entries.drop_first();
        if e.is_file && !seen.contains(e.path@) {
            let seen2 = seen.push(e.path@);
            lemma_scan_index_covers(tail, seen2);
            assert(scan_spec(entries, seen).1 == scan_spec(tail, seen2).1);
            assert forall|x: Seq<char>| seen.contains(x) implies #[trigger] scan_spec(
                entries,
                seen,
            ).1.contains(x) by {
                let k = choose|k: int| 0 <= k < seen.len() && seen[k] == x;
                assert(seen2[k] == x);
                assert(seen2.contains(x));
                assert(scan_spec(tail, seen2).1.contains(x));
            }
            assert forall|k: int|
                0 <= k < entries.len() && entries[k].is_file implies scan_spec(
                entries,
                seen,
            ).1.contains(#[trigger] entries[k].path@) by {
                if k == 0 {
                    assert(seen2[seen.len() as int] == e.path@);
                    assert(seen2.contains(e.path@));
                    assert(scan_spec(tail, seen2).1.contains(e.path@));
                } else {
                    assert(tail[k - 1] == entries[k]);
                    assert(scan_spec(tail, seen2).1.contains(tail[k - 1].path@));
                }
            }
        } else {
            lemma_scan_index_covers(tail, seen);
            assert(scan_spec(entries, seen).1 == scan_spec(tail, seen).1);
            assert forall|x: Seq<char>| seen.contains(x) implies #[trigger] scan_spec(
                entries,
                seen,
            ).1.contains(x) by {
                assert(scan_spec(tail, seen).1.contains(x));
            }
            assert forall|k: int|
                0 <= k < entries.len() && entries[k].is_file implies scan_spec(
                entries,
                seen,
            ).1.contains(#[trigger] entries[k].path@) by {
                if k == 0 {
                    assert(seen.contains(e.path@));
                    assert(scan_spec(tail, seen).1.contains(e.path@));
                } else {
                    assert(tail[k - 1] == entries[k]);
                    assert(scan_spec(tail, seen).1.contains(tail[k - 1].path@));
                }
            }
        }
    }
}

/// A pass over entries whose regular files are all recorded finds nothing.
proof fn lemma_scan_nothing_new(entries: Seq<ScannedFile>, seen: Seq<Seq<char>>)
    requires
        forall|k: int|
            0 <= k < entries.len() && entries[k].is_file ==> seen.contains(
                #[trigger] entries[k].path@,
            ),
    ensures
        scan_spec(entries, seen).0 == Seq::<ScannedFile>::empty(),
    decreases entries.len(),
{
    if entries.len() > 0 {
        assert(entries[0].is_file ==> seen.contains(entries[0].path@));
        assert forall|k: int|
            0 <= k < entries.drop_first().len() && entries.drop_first()[k].is_file implies
            seen.contains(#[trigger] entries.drop_first()[k].path@) by {
            assert(entries.drop_first()[k] == entries[k + 1]);
        }
        lemma_scan_nothing_new(entries.drop_first(), seen);
    }
}

/// Idempotence of the scan: running it twice over an unchanged tree yields
/// an empty new-files list the second time.
pub proof fn lemma_scan_idempotent(entries: Seq<ScannedFile>, seen: Seq<Seq<char>>)
    ensures
        scan_spec(entries, scan_spec(entries, seen).1).0 == Seq::<ScannedFile>::empty(),
{
    lemma_scan_index_covers(entries, seen);
    lemma_scan_nothing_new(entries, scan_spec(entries, seen).1);
}

/// Whether a directory entry name marks a hidden file.
pub open spec fn spec_is_hidden(name: Seq<char>) -> bool {
    name.len() > 0 && name[0] == '.'
}

/// Runtime test for hidden entry names; the traversal skips these and
/// everything beneath them.
pub fn is_hidden(name: &str) -> (r: bool)
    ensures
        r == spec_is_hidden(name@),
{
    if name.unicode_len() == 0 {
        false
    } else {
        name.get_char(0) == '.'
    }
}

/// Where the persisted index for the working directory `cwd` lives under
/// the platform data directory: an application subdirectory, then a file
/// named after the working directory with separators made safe.
pub fn data_file_name(data_dir: &str, cwd: &str) -> (r: String)
    ensures
        r@ == spec_join(spec_join(data_dir@, "strikeout"@), sanitized(cwd@)),
{
    let app_dir = join_path(data_dir, "strikeout");
    let name = sanitize_path(cwd);
    join_path(app_dir.as_str(), name.as_str())
}

} // verus!
