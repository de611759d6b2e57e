//! Mapping a source file path to its destination path.
//!
//! The destination mirrors the directory structure of the source below the
//! source root, rooted at the destination root instead, and carries the
//! canonical episode filename when one can be computed — otherwise the
//! original filename, so every file stays mappable.

use vstd::prelude::*;

use crate::error::Error;
use crate::strutil::{
    find_last, is_delim, last_component, lemma_find_last, parent_path, rfind_char, split_acc,
    split_on, str_eq, Delim,
};
use crate::transfer::{spec_trans, trans};

verus! {

/// The path of `file` relative to the root `src`: defined when `file` is
/// `src`, then a separator, then a nonempty remainder.
pub open spec fn spec_strip_prefix(file: Seq<char>, src: Seq<char>) -> Option<Seq<char>> {
    if file.len() >= src.len() + 2 && file.take(src.len() as int) == src && file[src.len() as int]
        == '/' {
        Some(file.skip(src.len() as int + 1))
    } else {
        None
    }
}

/// Join two path fragments with a separator, skipping empty fragments.
pub open spec fn spec_join(a: Seq<char>, b: Seq<char>) -> Seq<char> {
    if b.len() == 0 {
        a
    } else if a.len() == 0 {
        b
    } else {
        a + seq!['/'] + b
    }
}

/// The final filename component the destination gets: the canonical
/// episode name when one can be computed from `file`, else the original
/// filename of the relative path `rel`.
pub open spec fn spec_final_name(file: Seq<char>, rel: Seq<char>) -> Seq<char> {
    match spec_trans(file) {
        Some(n) => n,
        None => last_component(rel),
    }
}

/// Where `file` (under root `src`) lands under root `dest`.
pub open spec fn spec_map_to_dest(file: Seq<char>, src: Seq<char>, dest: Seq<char>) -> Option<
    Seq<char>,
> {
    match spec_strip_prefix(file, src) {
        None => None,
        Some(rel) => Some(
            spec_join(spec_join(dest, parent_path(rel)), spec_final_name(file, rel)),
        ),
    }
}

/// The components of a path: its nonempty separator-free pieces, in order.
pub open spec fn path_components(s: Seq<char>) -> Seq<Seq<char>> {
    split_on(Delim::PathSep, s)
}

/// Join two path fragments with a separator, skipping empty fragments.
pub fn join_path(a: &str, b: &str) -> (r: String)
    ensures
        r@ == spec_join(a@, b@),
{
    if b.unicode_len() == 0 {
        a.to_owned()
    } else if a.unicode_len() == 0 {
        b.to_owned()
    } else {
        let mut s = a.to_owned();
        s.append("/");
        s.append(b);
        proof {
            reveal_strlit("/");
            assert("/"@ =~= seq!['/']);
            assert(s@ =~= a@ + seq!['/'] + b@);
        }
        s
    }
}

/// Compute the destination path for `file`, which must lie under the
/// source root `src`; the result lives under the destination root `dest`,
/// mirrors the relative directory structure, and ends in the canonical
/// episode filename when one can be computed, else in the original
/// filename.
pub fn map_to_dest(file: &str, src: &str, dest: &str) -> (r: Result<String, Error>)
    ensures
        match r {
            Ok(out) => spec_map_to_dest(file@, src@, dest@) == Some(out@),
            Err(e) => e == Error::InvalidPath && spec_map_to_dest(file@, src@, dest@)
                == None::<Seq<char>>,
        },
{
    let flen = file.unicode_len();
    let slen = src.unicode_len();
    if flen <= slen || flen - slen < 2 {
        return Err(Error::InvalidPath);
    }
    let pre = file.substring_char(0, slen);
    proof {
        assert(pre@ =~= file@.take(slen as int));
    }
    if !str_eq(pre, src) {
        return Err(Error::InvalidPath);
    }
    if !(file.get_char(slen) == '/') {
        return Err(Error::InvalidPath);
    }
    let rel = file.substring_char(slen + 1, flen);
    let rlen = flen - slen - 1;
    proof {
        assert(rel@ =~= file@.skip(slen as int + 1));
        assert(rel@.len() == rlen);
    }
    let q = rfind_char(rel, '/');
    let mut parent: &str = "";
    let mut fname: &str = rel;
    match q {
        Some(qi) => {
            parent = rel.substring_char(0, qi);
            fname = rel.substring_char(qi + 1, rlen);
        },
        None => {
            proof {
                assert(rel@.skip(0) =~= rel@);
            }
        },
    }
    proof {
        reveal_strlit("");
        assert(""@.len() == 0);
        assert(parent@ =~= parent_path(rel@));
        assert(fname@ == last_component(rel@));
    }
    let newname: String = match trans(file) {
        Ok(n) => n,
        Err(_) => fname.to_owned(),
    };
    let d1 = join_path(dest, parent);
    let out = join_path(d1.as_str(), newname.as_str());
    Ok(out)
}

/// Splitting distributes over concatenation at a delimiter.
proof fn lemma_split_acc_concat(d: Delim, a: Seq<char>, c: char, b: Seq<char>, cur: Seq<char>)
    requires
        is_delim(d, c),
    ensures
        split_acc(d, a + seq![c] + b, cur) == split_acc(d, a, cur) + split_on(d, b),
    decreases a.len(),
{
    if a.len() == 0 {
        let s = seq![c] + b;
        assert(a + seq![c] + b =~= s);
        assert(s[0] == c);
        assert(s.drop_first() =~= b);
        if cur.len() == 0 {
            assert(split_acc(d, a, cur) + split_on(d, b) =~= split_on(d, b));
        }
    } else {
        let s = a + seq![c] + b;
        assert(s[0] == a[0]);
        assert(s.drop_first() =~= a.drop_first() + seq![c] + b);
        if is_delim(d, a[0]) {
            lemma_split_acc_concat(d, a.drop_first(), c, b, Seq::empty());
            if cur.len() > 0 {
                assert(seq![cur] + (split_acc(d, a.drop_first(), Seq::empty()) + split_on(d, b))
                    =~= (seq![cur] + split_acc(d, a.drop_first(), Seq::empty())) + split_on(
                    d,
                    b,
                ));
            }
        } else {
            lemma_split_acc_concat(d, a.drop_first(), c, b, cur.push(a[0]));
        }
    }
}

/// The components of `a`, a separator, then `b` are the components of `a`
/// followed by those of `b`.
pub proof fn lemma_components_sep(a: Seq<char>, b: Seq<char>)
    ensures
        path_components(a + seq!['/'] + b) == path_components(a) + path_components(b),
{
    lemma_split_acc_concat(Delim::PathSep, a, '/', b, Seq::empty());
}

/// Joining concatenates component sequences.
pub proof fn lemma_join_components(a: Seq<char>, b: Seq<char>)
    ensures
        path_components(spec_join(a, b)) == path_components(a) + path_components(b),
{
    if b.len() == 0 {
        assert(path_components(b) =~= Seq::<Seq<char>>::empty());
        assert(path_components(a) + path_components(b) =~= path_components(a));
    } else if a.len() == 0 {
        assert(path_components(a) =~= Seq::<Seq<char>>::empty());
        assert(path_components(a) + path_components(b) =~= path_components(b));
    } else {
        lemma_components_sep(a, b);
    }
}

/// A path's components are its parent's components followed by its final
/// component.
pub proof fn lemma_parent_split(s: Seq<char>)
    ensures
        path_components(s) == path_components(parent_path(s)) + path_components(
            last_component(s),
        ),
{
    lemma_find_last(s, '/');
    let fl = find_last(s, '/');
    if fl >= 0 {
        assert(s =~= s.take(fl) + seq!['/'] + s.skip(fl + 1));
        lemma_components_sep(s.take(fl), s.skip(fl + 1));
    } else {
        assert(s.skip(0) =~= s);
        assert(path_components(parent_path(s)) =~= Seq::<Seq<char>>::empty());
        assert(path_components(parent_path(s)) + path_components(last_component(s))
            =~= path_components(s));
    }
}

/// Structure preservation of path mapping: the source path is the source
/// root's components followed by the relative components, and the
/// destination path is the destination root's components, the relative
/// parent components, and the final name — the relative directory depth
/// and structure carry over unchanged.
pub proof fn lemma_map_preserves_structure(
    file: Seq<char>,
    src: Seq<char>,
    dest: Seq<char>,
    rel: Seq<char>,
    out: Seq<char>,
)
    requires
        spec_strip_prefix(file, src) == Some(rel),
        spec_map_to_dest(file, src, dest) == Some(out),
    ensures
        path_components(file) == path_components(src) + path_components(parent_path(rel))
            + path_components(last_component(rel)),
        path_components(out) == path_components(dest) + path_components(parent_path(rel))
            + path_components(spec_final_name(file, rel)),
{
    assert(file =~= src + seq!['/'] + rel);
    lemma_components_sep(src, rel);
    lemma_parent_split(rel);
    assert(path_components(src) + (path_components(parent_path(rel)) + path_components(
        last_component(rel),
    )) =~= path_components(src) + path_components(parent_path(rel)) + path_components(
        last_component(rel),
    ));
    lemma_join_components(dest, parent_path(rel));
    lemma_join_components(spec_join(dest, parent_path(rel)), spec_final_name(file, rel));
    assert((path_components(dest) + path_components(parent_path(rel))) + path_components(
        spec_final_name(file, rel),
    ) =~= path_components(dest) + path_components(parent_path(rel)) + path_components(
        spec_final_name(file, rel),
    ));
}

} // verus!
