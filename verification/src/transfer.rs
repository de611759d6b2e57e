//! The episode-identification engine and the canonical name formatter.
//!
//! A filename stem is split into tokens on bracket and whitespace
//! delimiters; the first token consisting of a digit run, optionally
//! followed by a version marker (`v`/`V` and digits), yields the episode
//! number. An ordered rule chain first tries a dedicated extractor when its
//! group signature matches, and falls back to this generic scan on any
//! failure, so classification never aborts a run.

use vstd::prelude::*;

use crate::error::Error;
use crate::strutil::{
    all_digits, dec_str, dec_value, digit_of, digit_val, find_last, is_digit, last_component,
    pad2, parent_path, rfind_char, split_on, split_str, u16_to_dec, u16_to_pad2, views_of, Delim,
};

verus! {

/// Largest episode number a descriptor can carry.
pub open spec fn max_episode() -> int {
    65535
}

/// Length of the leading digit run of `t`.
pub open spec fn digit_prefix_len(t: Seq<char>) -> int
    decreases t.len(),
{
    if t.len() == 0 || !is_digit(t[0]) {
        0
    } else {
        1 + digit_prefix_len(t.drop_first())
    }
}

/// The leading digit run is exactly the maximal digit prefix.
pub proof fn lemma_digit_prefix(t: Seq<char>)
    ensures
        0 <= digit_prefix_len(t) <= t.len(),
        forall|k: int| 0 <= k < digit_prefix_len(t) ==> is_digit(#[trigger] t[k]),
        digit_prefix_len(t) < t.len() ==> !is_digit(t[digit_prefix_len(t)]),
    decreases t.len(),
{
    if t.len() == 0 || !is_digit(t[0]) {
    } else {
        lemma_digit_prefix(t.drop_first());
        assert forall|k: int| 0 <= k < digit_prefix_len(t) implies is_digit(#[trigger] t[k]) by {
            if k >= 1 {
                assert(t[k] == t.drop_first()[k - 1]);
            }
        }
        if digit_prefix_len(t) < t.len() {
            assert(t[digit_prefix_len(t)] == t.drop_first()[digit_prefix_len(t) - 1]);
        }
    }
}

/// A version marker: `v` or `V` followed by at least one digit.
pub open spec fn is_version_suffix(t: Seq<char>) -> bool {
    t.len() >= 2 && (t[0] == 'v' || t[0] == 'V') && all_digits(t.skip(1))
}

/// A token denoting an episode: a digit run whose value fits a descriptor,
/// either alone or followed by a version marker.
pub open spec fn is_episode_token(t: Seq<char>) -> bool {
    let k = digit_prefix_len(t);
    1 <= k && (k == t.len() || is_version_suffix(t.skip(k))) && dec_value(t.take(k)) <= max_episode()
}

/// The episode number an episode token denotes: the value of its digit run.
pub open spec fn episode_value(t: Seq<char>) -> int {
    dec_value(t.take(digit_prefix_len(t)))
}

/// The first episode token of `ts`, if any.
pub open spec fn first_episode_token(ts: Seq<Seq<char>>) -> Option<Seq<char>>
    decreases ts.len(),
{
    if ts.len() == 0 {
        None
    } else if is_episode_token(ts[0]) {
        Some(ts[0])
    } else {
        first_episode_token(ts.drop_first())
    }
}

/// The tokens of a filename stem.
pub open spec fn tokens_of(s: Seq<char>) -> Seq<Seq<char>> {
    split_on(Delim::Token, s)
}

/// What episode the generic (default) extractor finds in stem `s`.
pub open spec fn spec_find_episode(s: Seq<char>) -> Option<int> {
    match first_episode_token(tokens_of(s)) {
        Some(t) => Some(episode_value(t)),
        None => None,
    }
}

/// Test one token against the episode-token shape. Returns the episode
/// number and whether the token carries a version marker.
fn token_episode(t: &str) -> (r: Option<(u16, bool)>)
    ensures
        match r {
            Some(p) => is_episode_token(t@) && p.0 as int == episode_value(t@) && p.1 == (
            digit_prefix_len(t@) < t@.len()),
            None => !is_episode_token(t@),
        },
{
    let len = t.unicode_len();
    let mut i: usize = 0;
    let mut val: u32 = 0;
    let mut over: bool = false;
    let mut stop: bool = false;
    proof {
        assert(t@.take(0) =~= Seq::<char>::empty());
    }
    while i < len && !stop
        invariant
            i <= len,
            len == t@.len(),
            forall|k: int| 0 <= k < i ==> is_digit(#[trigger] t@[k]),
            stop ==> i < len && !is_digit(t@[i as int]),
            !over ==> val <= 65535 && val as int == dec_value(t@.take(i as int)),
            over ==> dec_value(t@.take(i as int)) > 65535,
        decreases len - i + (if stop { 0int } else { 1int }),
    {
        let c = t.get_char(i);
        match digit_of(c) {
            None => {
                stop = true;
            },
            Some(dv) => {
                let ghost pre = t@.take(i as int + 1);
                proof {
                    assert(pre.drop_last() =~= t@.take(i as int));
                    assert(pre.last() == t@[i as int]);
                    assert(dec_value(pre) == dec_value(t@.take(i as int)) * 10 + digit_val(
                        t@[i as int],
                    ));
                }
                if !over {
                    let nv = val * 10 + dv as u32;
                    if nv > 65535 {
                        over = true;
                    } else {
                        val = nv;
                    }
                }
                i = i + 1;
            },
        }
    }
    proof {
        lemma_digit_prefix(t@);
        if stop {
            assert(digit_prefix_len(t@) == i as int) by {
                if digit_prefix_len(t@) < i as int {
                    assert(is_digit(t@[digit_prefix_len(t@)]));
                }
            }
        } else {
            assert(i == len);
            assert(digit_prefix_len(t@) == i as int);
        }
        assert(t@.take(i as int) =~= t@.take(digit_prefix_len(t@)));
    }
    if i == 0 {
        return None;
    }
    if over {
        return None;
    }
    if i == len {
        return Some((val as u16, false));
    }
    // A version marker must follow the digit run.
    let c = t.get_char(i);
    if !(c == 'v' || c == 'V') {
        proof {
            assert(t@.skip(i as int)[0] == t@[i as int]);
        }
        return None;
    }
    if i + 1 == len {
        proof {
            assert(t@.skip(i as int).len() == 1);
        }
        return None;
    }
    let mut j: usize = i + 1;
    while j < len
        invariant
            i + 1 <= j <= len,
            i < len,
            len == t@.len(),
            digit_prefix_len(t@) == i as int,
            forall|k: int| i < k < j ==> is_digit(#[trigger] t@[k]),
        decreases len - j,
    {
        let cj = t.get_char(j);
        match digit_of(cj) {
            None => {
                proof {
                    let suf = t@.skip(digit_prefix_len(t@));
                    assert(suf.skip(1)[j - i - 1] == suf[j - i as int]);
                    assert(suf[j - i as int] == t@[j as int]);
                }
                return None;
            },
            Some(_) => {
                j = j + 1;
            },
        }
    }
    proof {
        let suf = t@.skip(digit_prefix_len(t@));
        assert(suf[0] == t@[i as int]);
        assert(suf.len() == len - i);
        assert forall|m: int| 0 <= m < suf.skip(1).len() implies is_digit(
            #[trigger] suf.skip(1)[m],
        ) by {
            assert(suf.skip(1)[m] == t@[i + 1 + m]);
        }
        assert(is_version_suffix(suf));
    }
    Some((val as u16, true))
}

/// The generic (default) episode extractor: split the stem into tokens and
/// accept the first one shaped like an episode number, ignoring a trailing
/// version marker.
pub fn find_episode_num(input: &str) -> (r: Result<u16, Error>)
    ensures
        match r {
            Ok(v) => spec_find_episode(input@) == Some(v as int),
            Err(e) => e == Error::EpisodeNotFound && spec_find_episode(input@) == None::<int>,
        },
{
    let toks = split_str(Delim::Token, input);
    let mut idx: usize = 0;
    proof {
        assert(views_of(toks@).skip(0) =~= views_of(toks@));
    }
    while idx < toks.len()
        invariant
            idx <= toks@.len(),
            views_of(toks@) == tokens_of(input@),
            first_episode_token(tokens_of(input@)) == first_episode_token(
                views_of(toks@).skip(idx as int),
            ),
        decreases toks@.len() - idx,
    {
        let ghost rest = views_of(toks@).skip(idx as int);
        proof {
            assert(rest[0] == toks@[idx as int]@);
            assert(rest.drop_first() =~= views_of(toks@).skip(idx as int + 1));
        }
        match token_episode(toks[idx].as_str()) {
            Some(p) => {
                return Ok(p.0);
            },
            None => {},
        }
        idx = idx + 1;
    }
    proof {
        assert(views_of(toks@).skip(toks@.len() as int) =~= Seq::<Seq<char>>::empty());
    }
    Err(Error::EpisodeNotFound)
}

/// An episode token that carries an explicit version marker.
pub open spec fn has_version_marker(t: Seq<char>) -> bool {
    is_episode_token(t) && digit_prefix_len(t) < t.len()
}

/// The group signature of the versioned release convention: some token of
/// the stem is an episode token with a version marker.
pub open spec fn spec_version_signature(s: Seq<char>) -> bool {
    exists|i: int|
        0 <= i < tokens_of(s).len() && has_version_marker(#[trigger] tokens_of(s)[i])
}

/// What the dedicated extractor of the versioned convention finds: the
/// episode of the first episode token, and only when that token carries a
/// version marker; otherwise it fails and the caller falls back to the
/// generic scan.
pub open spec fn spec_versioned_episode(s: Seq<char>) -> Option<int> {
    match first_episode_token(tokens_of(s)) {
        Some(t) => if has_version_marker(t) {
            Some(episode_value(t))
        } else {
            None
        },
        None => None,
    }
}

/// Runtime test for the versioned-convention group signature.
pub fn version_signature(input: &str) -> (r: bool)
    ensures
        r == spec_version_signature(input@),
{
    let toks = split_str(Delim::Token, input);
    let mut idx: usize = 0;
    while idx < toks.len()
        invariant
            idx <= toks@.len(),
            views_of(toks@) == tokens_of(input@),
            forall|k: int|
                0 <= k < idx ==> !has_version_marker(#[trigger] views_of(toks@)[k]),
        decreases toks@.len() - idx,
    {
        match token_episode(toks[idx].as_str()) {
            Some(p) => {
                if p.1 {
                    proof {
                        assert(has_version_marker(tokens_of(input@)[idx as int]));
                    }
                    return true;
                }
            },
            None => {},
        }
        idx = idx + 1;
    }
    false
}

/// The dedicated extractor of the versioned release convention.
pub fn find_versioned_episode(input: &str) -> (r: Result<u16, Error>)
    ensures
        match r {
            Ok(v) => spec_versioned_episode(input@) == Some(v as int),
            Err(e) => e == Error::EpisodeNotFound && spec_versioned_episode(input@)
                == None::<int>,
        },
{
    let toks = split_str(Delim::Token, input);
    let mut idx: usize = 0;
    proof {
        assert(views_of(toks@).skip(0) =~= views_of(toks@));
    }
    while idx < toks.len()
        invariant
            idx <= toks@.len(),
            views_of(toks@) == tokens_of(input@),
            first_episode_token(tokens_of(input@)) == first_episode_token(
                views_of(toks@).skip(idx as int),
            ),
        decreases toks@.len() - idx,
    {
        let ghost rest = views_of(toks@).skip(idx as int);
        proof {
            assert(rest[0] == toks@[idx as int]@);
            assert(rest.drop_first() =~= views_of(toks@).skip(idx as int + 1));
        }
        match token_episode(toks[idx].as_str()) {
            Some(p) => {
                if p.1 {
                    return Ok(p.0);
                } else {
                    return Err(Error::EpisodeNotFound);
                }
            },
            None => {},
        }
        idx = idx + 1;
    }
    proof {
        assert(views_of(toks@).skip(toks@.len() as int) =~= Seq::<Seq<char>>::empty());
    }
    Err(Error::EpisodeNotFound)
}

/// Consistency of the rule chain: when the dedicated extractor succeeds,
/// the generic extractor succeeds with the same episode number.
pub proof fn lemma_rules_consistent(s: Seq<char>)
    ensures
        forall|v: int|
            spec_versioned_episode(s) == Some(v) ==> spec_find_episode(s) == Some(v),
{
}

/// The first episode token of `ts` is the one at the least matching index.
proof fn lemma_first_episode_at(ts: Seq<Seq<char>>, i: int)
    requires
        0 <= i < ts.len(),
        is_episode_token(ts[i]),
        forall|j: int| 0 <= j < i ==> !is_episode_token(#[trigger] ts[j]),
    ensures
        first_episode_token(ts) == Some(ts[i]),
    decreases i,
{
    if i > 0 {
        lemma_first_episode_at(ts.drop_first(), i - 1);
        assert(ts.drop_first()[i - 1] == ts[i]);
        assert forall|j: int| 0 <= j < i - 1 implies !is_episode_token(
            #[trigger] ts.drop_first()[j],
        ) by {
            assert(ts.drop_first()[j] == ts[j + 1]);
        }
    }
}

/// The generic extraction law: when token `i` of the stem is the first one
/// shaped like an episode number, extraction returns the value of that
/// token's leading digit run, ignoring any trailing version marker.
pub proof fn lemma_generic_extraction(s: Seq<char>, i: int)
    requires
        0 <= i < tokens_of(s).len(),
        is_episode_token(tokens_of(s)[i]),
        forall|j: int| 0 <= j < i ==> !is_episode_token(#[trigger] tokens_of(s)[j]),
    ensures
        spec_find_episode(s) == Some(dec_value(tokens_of(s)[i].take(digit_prefix_len(
            tokens_of(s)[i],
        )))),
{
    lemma_first_episode_at(tokens_of(s), i);
}

/// Totality of the generic fallback: a stem containing a bare digit token
/// (one whose value fits a descriptor) always yields an episode.
pub proof fn lemma_generic_finds_digit_token(s: Seq<char>, i: int)
    requires
        0 <= i < tokens_of(s).len(),
        tokens_of(s)[i].len() > 0,
        all_digits(tokens_of(s)[i]),
        dec_value(tokens_of(s)[i]) <= max_episode(),
    ensures
        spec_find_episode(s) != None::<int>,
{
    let t = tokens_of(s)[i];
    lemma_digit_prefix(t);
    assert(digit_prefix_len(t) == t.len());
    assert(t.take(t.len() as int) =~= t);
    assert(is_episode_token(t));
    lemma_first_episode_some(tokens_of(s), i);
}

/// A token sequence with an episode token somewhere has a first one.
proof fn lemma_first_episode_some(ts: Seq<Seq<char>>, i: int)
    requires
        0 <= i < ts.len(),
        is_episode_token(ts[i]),
    ensures
        first_episode_token(ts) != None::<Seq<char>>,
    decreases i,
{
    if !is_episode_token(ts[0]) {
        assert(ts.drop_first()[i - 1] == ts[i]);
        lemma_first_episode_some(ts.drop_first(), i - 1);
    }
}

/// The ordered rule chain: try the dedicated extractor when its group
/// signature matches; on its failure, or with no signature match, degrade
/// to the generic token scan. The chain finds exactly what the generic
/// extractor finds, because a dedicated success agrees with it.
pub fn extract_episode(input: &str) -> (r: Result<u16, Error>)
    ensures
        match r {
            Ok(v) => spec_find_episode(input@) == Some(v as int),
            Err(e) => e == Error::EpisodeNotFound && spec_find_episode(input@) == None::<int>,
        },
{
    if version_signature(input) {
        match find_versioned_episode(input) {
            Ok(v) => {
                proof {
                    lemma_rules_consistent(input@);
                }
                return Ok(v);
            },
            Err(_) => {},
        }
    }
    find_episode_num(input)
}

/// An episode descriptor: the identity a filename maps to.
pub struct Name {
    /// Episode ordinal extracted from the filename.
    pub episode: u16,
    /// Season ordinal; no rule infers one, so callers pass 1.
    pub season: u16,
}

/// The canonical base filename for an episode: with a contextual title,
/// `"{title} {episode}"` with the episode unpadded; without one,
/// `"S{season}E{episode}"` with both numbers zero-padded to two digits.
pub open spec fn spec_format_name(episode: int, season: int, title: Option<Seq<char>>) -> Seq<
    char,
> {
    match title {
        Some(t) => t + seq![' '] + dec_str(episode),
        None => seq!['S'] + pad2(season) + seq!['E'] + pad2(episode),
    }
}

/// The view of an optional borrowed string.
pub open spec fn opt_view(t: Option<&str>) -> Option<Seq<char>> {
    match t {
        Some(s) => Some(s@),
        None => None,
    }
}

impl Name {
    /// A descriptor with the given episode and season.
    pub fn new(episode: u16, season: u16) -> (r: Name)
        ensures
            r.episode == episode,
            r.season == season,
    {
        Name { episode, season }
    }

    /// Render the canonical base filename for this descriptor.
    pub fn format(&self, title: Option<&str>) -> (r: String)
        ensures
            r@ == spec_format_name(self.episode as int, self.season as int, opt_view(title)),
    {
        match title {
            Some(t) => {
                let mut s = t.to_owned();
                s.append(" ");
                let d = u16_to_dec(self.episode);
                s.append(d.as_str());
                proof {
                    reveal_strlit(" ");
                    assert(" "@ =~= seq![' ']);
                    assert(s@ =~= t@ + seq![' '] + dec_str(self.episode as int));
                }
                s
            },
            None => {
                let mut s = String::from_str("S");
                let se = u16_to_pad2(self.season);
                s.append(se.as_str());
                s.append("E");
                let ep = u16_to_pad2(self.episode);
                s.append(ep.as_str());
                proof {
                    reveal_strlit("S");
                    reveal_strlit("E");
                    assert("S"@ =~= seq!['S']);
                    assert("E"@ =~= seq!['E']);
                    assert(s@ =~= seq!['S'] + pad2(self.season as int) + seq!['E'] + pad2(
                        self.episode as int,
                    ));
                }
                s
            },
        }
    }
}

/// Formatting is deterministic: the canonical name depends only on the
/// descriptor's fields and the contextual title.
pub proof fn lemma_format_deterministic(
    a: Name,
    b: Name,
    t1: Option<Seq<char>>,
    t2: Option<Seq<char>>,
)
    requires
        a.episode == b.episode,
        a.season == b.season,
        t1 == t2,
    ensures
        spec_format_name(a.episode as int, a.season as int, t1) == spec_format_name(
            b.episode as int,
            b.season as int,
            t2,
        ),
{
}

/// The stem of a filename: everything before the last `.`, or the whole
/// name when it has no `.` past its first character.
pub open spec fn stem_of(f: Seq<char>) -> Seq<char> {
    let d = find_last(f, '.');
    if d > 0 {
        f.take(d)
    } else {
        f
    }
}

/// The extension of a filename: everything after the last `.`, when that
/// `.` sits past the first character.
pub open spec fn ext_of(f: Seq<char>) -> Option<Seq<char>> {
    let d = find_last(f, '.');
    if d > 0 {
        Some(f.skip(d + 1))
    } else {
        None
    }
}

/// The contextual title of a file path: the name of its immediate parent
/// directory, when the path has one.
pub open spec fn title_of(path: Seq<char>) -> Option<Seq<char>> {
    let p = last_component(parent_path(path));
    if find_last(path, '/') >= 0 && p.len() > 0 {
        Some(p)
    } else {
        None
    }
}

/// The canonical destination filename for a source path: the formatted
/// episode identity with the original extension appended, or nothing when
/// no episode can be extracted from the stem.
pub open spec fn spec_trans(path: Seq<char>) -> Option<Seq<char>> {
    let fname = last_component(path);
    match spec_find_episode(stem_of(fname)) {
        None => None,
        Some(e) => {
            let base = spec_format_name(e, 1, title_of(path));
            Some(
                match ext_of(fname) {
                    Some(x) => base + seq!['.'] + x,
                    None => base,
                },
            )
        },
    }
}

/// Compute the canonical destination filename for the file at `input`.
///
/// The episode is extracted from the stem of the path's final component by
/// the rule chain; the name of the immediate parent directory, when there
/// is one, serves as the contextual title; the original extension is kept.
pub fn trans(input: &str) -> (r: Result<String, Error>)
    ensures
        match r {
            Ok(s) => spec_trans(input@) == Some(s@),
            Err(e) => e == Error::EpisodeNotFound && spec_trans(input@) == None::<Seq<char>>,
        },
{
    let len = input.unicode_len();
    let slash = rfind_char(input, '/');
    let mut title: Option<String> = None;
    let fname: &str = match slash {
        Some(p) => {
            let parent = input.substring_char(0, p);
            proof {
                assert(parent@ =~= parent_path(input@));
            }
            let t2 = rfind_char(parent, '/');
            let tstart: usize = match t2 {
                Some(q) => q + 1,
                None => 0,
            };
            let tpart = parent.substring_char(tstart, p);
            proof {
                assert(tpart@ =~= last_component(parent@));
            }
            if tpart.unicode_len() > 0 {
                title = Some(tpart.to_owned());
            }
            input.substring_char(p + 1, len)
        },
        None => {
            proof {
                assert(input@.skip(0) =~= input@);
            }
            input
        },
    };
    proof {
        assert(fname@ == last_component(input@));
        assert(match title {
            Some(t) => title_of(input@) == Some(t@),
            None => title_of(input@) == None::<Seq<char>>,
        });
    }
    let flen = fname.unicode_len();
    let dot = rfind_char(fname, '.');
    let mut stem: &str = fname;
    let mut ext: Option<&str> = None;
    match dot {
        Some(d) => {
            if d > 0 {
                stem = fname.substring_char(0, d);
                ext = Some(fname.substring_char(d + 1, flen));
            }
        },
        None => {},
    }
    proof {
        assert(stem@ == stem_of(fname@));
        assert(match ext {
            Some(x) => ext_of(fname@) == Some(x@),
            None => ext_of(fname@) == None::<Seq<char>>,
        });
    }
    match extract_episode(stem) {
        Err(e) => Err(e),
        Ok(ep) => {
            let name = Name::new(ep, 1);
            let title_ref: Option<&str> = match &title {
                Some(t) => Some(t.as_str()),
                None => None,
            };
            let mut s = name.format(title_ref);
            match ext {
                Some(x) => {
                    s.append(".");
                    s.append(x);
                    proof {
                        reveal_strlit(".");
                        assert("."@ =~= seq!['.']);
                        assert(s@ =~= spec_format_name(ep as int, 1, title_of(input@)) + seq![
                            '.',
                        ] + x@);
                    }
                },
                None => {},
            }
            Ok(s)
        },
    }
}

} // verus!
