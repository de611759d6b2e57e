//! String and sequence utilities shared by the naming and path logic:
//! decimal digit runs, rendering numbers as decimal strings, and splitting
//! character sequences on delimiter sets.

use vstd::prelude::*;

verus! {

/// Whether `c` is an ASCII decimal digit.
pub open spec fn is_digit(c: char) -> bool {
    48 <= c as int && c as int <= 57
}

/// Numeric value of an ASCII decimal digit.
pub open spec fn digit_val(c: char) -> int {
    c as int - 48
}

/// The ASCII digit character with value `d` (meaningful for `0 <= d <= 9`).
pub open spec fn char_of_digit(d: int) -> char {
    if d == 0 { '0' }
    else if d == 1 { '1' }
    else if d == 2 { '2' }
    else if d == 3 { '3' }
    else if d == 4 { '4' }
    else if d == 5 { '5' }
    else if d == 6 { '6' }
    else if d == 7 { '7' }
    else if d == 8 { '8' }
    else { '9' }
}

/// Whether every character of `s` is a decimal digit.
pub open spec fn all_digits(s: Seq<char>) -> bool {
    forall|i: int| 0 <= i < s.len() ==> is_digit(#[trigger] s[i])
}

/// The numeric value of a digit run, read as a decimal number.
pub open spec fn dec_value(s: Seq<char>) -> int
    decreases s.len(),
{
    if s.len() == 0 {
        0
    } else {
        dec_value(s.drop_last()) * 10 + digit_val(s.last())
    }
}

/// The canonical (no leading zero) decimal rendering of `n >= 0`.
pub open spec fn dec_str(n: int) -> Seq<char>
    decreases n,
{
    if n < 10 {
        seq![char_of_digit(n)]
    } else {
        dec_str(n / 10).push(char_of_digit(n % 10))
    }
}

/// `dec_str(n)` padded on the left with one zero when `n` has a single digit,
/// so the result is at least two characters wide.
pub open spec fn pad2(n: int) -> Seq<char> {
    if n < 10 {
        seq!['0'] + dec_str(n)
    } else {
        dec_str(n)
    }
}

/// Classify `c` as a decimal digit and return its value.
pub fn digit_of(c: char) -> (r: Option<u8>)
    ensures
        match r {
            Some(d) => is_digit(c) && d as int == digit_val(c),
            None => !is_digit(c),
        },
{
    let u = c as u32;
    if 48 <= u && u <= 57 {
        Some((u - 48) as u8)
    } else {
        None
    }
}

/// Single-character string for the decimal digit `d`.
pub fn digit_str(d: u16) -> (r: &'static str)
    requires
        d < 10,
    ensures
        r@ == seq![char_of_digit(d as int)],
{
    proof {
        reveal_strlit("0");
        reveal_strlit("1");
        reveal_strlit("2");
        reveal_strlit("3");
        reveal_strlit("4");
        reveal_strlit("5");
        reveal_strlit("6");
        reveal_strlit("7");
        reveal_strlit("8");
        reveal_strlit("9");
    }
    match d {
        0 => "0",
        1 => "1",
        2 => "2",
        3 => "3",
        4 => "4",
        5 => "5",
        6 => "6",
        7 => "7",
        8 => "8",
        _ => "9",
    }
}

/// Render `n` as an unpadded decimal string.
pub fn u16_to_dec(n: u16) -> (r: String)
    ensures
        r@ == dec_str(n as int),
    decreases n,
{
    if n < 10 {
        String::from_str(digit_str(n))
    } else {
        let mut s = u16_to_dec(n / 10);
        s.append(digit_str(n % 10));
        proof {
            assert(s@ =~= dec_str(n as int / 10).push(char_of_digit(n as int % 10)));
        }
        s
    }
}

/// The delimiter sets the library splits on.
#[derive(Debug, Clone, Copy, PartialEq, Eq, Structural)]
pub enum Delim {
    /// Bracket and whitespace delimiters between filename tokens
    /// (ASCII and full-width bracket variants).
    Token,
    /// The path component separator.
    PathSep,
}

/// Whether `c` belongs to the delimiter set `d`.
pub open spec fn is_delim(d: Delim, c: char) -> bool {
    match d {
        Delim::Token => c == '[' || c == ']' || c == ' ' || c == '\u{3010}' || c == '\u{3011}',
        Delim::PathSep => c == '/',
    }
}

/// Runtime test for [`is_delim`].
pub fn delim_matches(d: Delim, c: char) -> (r: bool)
    ensures
        r == is_delim(d, c),
{
    match d {
        Delim::Token => c == '[' || c == ']' || c == ' ' || c == '\u{3010}' || c == '\u{3011}',
        Delim::PathSep => c == '/',
    }
}

/// Split `s` on the delimiter set `d`, discarding empty pieces; `cur` is the
/// (delimiter-free) piece accumulated so far.
pub open spec fn split_acc(d: Delim, s: Seq<char>, cur: Seq<char>) -> Seq<Seq<char>>
    decreases s.len(),
{
    if s.len() == 0 {
        if cur.len() == 0 {
            Seq::empty()
        } else {
            seq![cur]
        }
    } else if is_delim(d, s[0]) {
        if cur.len() == 0 {
            split_acc(d, s.drop_first(), Seq::empty())
        } else {
            seq![cur] + split_acc(d, s.drop_first(), Seq::empty())
        }
    } else {
        split_acc(d, s.drop_first(), cur.push(s[0]))
    }
}

/// The nonempty pieces of `s` between delimiters of `d`, in order.
pub open spec fn split_on(d: Delim, s: Seq<char>) -> Seq<Seq<char>> {
    split_acc(d, s, Seq::empty())
}

/// The views of a sequence of strings.
pub open spec fn views_of(v: Seq<String>) -> Seq<Seq<char>> {
    v.map_values(|t: String| t@)
}

/// Split `s` on the delimiter set `d`, returning the nonempty pieces in order.
pub fn split_str(d: Delim, s: &str) -> (r: Vec<String>)
    ensures
        views_of(r@) == split_on(d, s@),
{
    let len = s.unicode_len();
    let mut r: Vec<String> = Vec::new();
    let mut start: usize = 0;
    let mut i: usize = 0;
    proof {
        assert(views_of(r@) =~= Seq::<Seq<char>>::empty());
        assert(s@.skip(0) =~= s@);
        assert(s@.subrange(0, 0) =~= Seq::<char>::empty());
    }
    while i < len
        invariant
            start <= i && i <= len,
            len == s@.len(),
            split_on(d, s@) == views_of(r@) + split_acc(
                d,
                s@.skip(i as int),
                s@.subrange(start as int, i as int),
            ),
        decreases len - i,
    {
        let ghost rem = s@.skip(i as int);
        let ghost cur = s@.subrange(start as int, i as int);
        proof {
            assert(rem[0] == s@[i as int]);
            assert(rem.drop_first() =~= s@.skip(i as int + 1));
        }
        let c = s.get_char(i);
        if delim_matches(d, c) {
            if start < i {
                let piece = s.substring_char(start, i).to_owned();
                proof {
                    assert(views_of(r@.push(piece)) =~= views_of(r@).push(cur));
                    assert(views_of(r@) + split_acc(d, rem, cur) =~= views_of(r@.push(piece))
                        + split_acc(d, rem.drop_first(), Seq::empty()));
                }
                r.push(piece);
            }
            start = i + 1;
            proof {
                assert(s@.subrange(start as int, i as int + 1) =~= Seq::<char>::empty());
            }
        } else {
            proof {
                assert(cur.push(s@[i as int]) =~= s@.subrange(start as int, i as int + 1));
            }
        }
        i = i + 1;
    }
    let ghost cur = s@.subrange(start as int, len as int);
    proof {
        assert(s@.skip(len as int) =~= Seq::<char>::empty());
    }
    if start < len {
        let piece = s.substring_char(start, len).to_owned();
        proof {
            assert(views_of(r@.push(piece)) =~= views_of(r@).push(cur));
            assert(views_of(r@) + split_acc(d, Seq::empty(), cur) =~= views_of(r@.push(piece)));
        }
        r.push(piece);
    } else {
        proof {
            assert(views_of(r@) + split_acc(d, Seq::empty(), cur) =~= views_of(r@));
        }
    }
    r
}

/// Index of the last occurrence of `c` in `s`, or `-1` when absent.
pub open spec fn find_last(s: Seq<char>, c: char) -> int
    decreases s.len(),
{
    if s.len() == 0 {
        -1
    } else if s.last() == c {
        s.len() - 1
    } else {
        find_last(s.drop_last(), c)
    }
}

/// Where the last occurrence of `c` sits in `s`.
pub proof fn lemma_find_last(s: Seq<char>, c: char)
    ensures
        -1 <= find_last(s, c) < s.len(),
        find_last(s, c) >= 0 ==> s[find_last(s, c)] == c,
        forall|k: int| find_last(s, c) < k < s.len() ==> s[k] != c,
    decreases s.len(),
{
    if s.len() > 0 && s.last() != c {
        lemma_find_last(s.drop_last(), c);
        assert forall|k: int| find_last(s, c) < k < s.len() implies s[k] != c by {
            if k < s.len() - 1 {
                assert(s[k] == s.drop_last()[k]);
            }
        }
    }
}

/// The part of a path after its last separator (the whole path when it has
/// none).
pub open spec fn last_component(s: Seq<char>) -> Seq<char> {
    s.skip(find_last(s, '/') + 1)
}

/// The part of a path before its last separator (empty when it has none).
pub open spec fn parent_path(s: Seq<char>) -> Seq<char> {
    if find_last(s, '/') >= 0 {
        s.take(find_last(s, '/'))
    } else {
        Seq::empty()
    }
}

/// Search `s` from the end for the last occurrence of `c`.
pub fn rfind_char(s: &str, c: char) -> (r: Option<usize>)
    ensures
        match r {
            Some(i) => i < s@.len() && find_last(s@, c) == i as int,
            None => find_last(s@, c) == -1,
        },
{
    let len = s.unicode_len();
    let mut i: usize = len;
    proof {
        assert(s@.take(len as int) =~= s@);
    }
    while i > 0
        invariant
            i <= len,
            len == s@.len(),
            find_last(s@, c) == find_last(s@.take(i as int), c),
        decreases i,
    {
        let ghost pre = s@.take(i as int);
        proof {
            assert(pre.last() == s@[i as int - 1]);
            assert(pre.drop_last() =~= s@.take(i as int - 1));
        }
        if s.get_char(i - 1) == c {
            return Some(i - 1);
        }
        i = i - 1;
    }
    None
}

/// A path string with every separator replaced by an underscore, safe to
/// use as a single filename.
pub open spec fn sanitized(s: Seq<char>) -> Seq<char> {
    s.map_values(|c: char| if c == '/' { '_' } else { c })
}

/// Replace every path separator of `s` with an underscore.
pub fn sanitize_path(s: &str) -> (r: String)
    ensures
        r@ == sanitized(s@),
{
    let len = s.unicode_len();
    let mut r = String::new();
    let mut start: usize = 0;
    let mut i: usize = 0;
    proof {
        assert(r@ =~= sanitized(s@.take(0)));
    }
    while i < len
        invariant
            start <= i && i <= len,
            len == s@.len(),
            forall|k: int| start <= k < i ==> s@[k] != '/',
            r@ == sanitized(s@.take(start as int)),
        decreases len - i,
    {
        let c = s.get_char(i);
        if c == '/' {
            let piece = s.substring_char(start, i);
            r.append(piece);
            r.append("_");
            proof {
                reveal_strlit("_");
                assert("_"@ =~= seq!['_']);
                assert(piece@.map_values(|c: char| if c == '/' { '_' } else { c }) =~= piece@);
                assert(s@.take(i as int + 1) =~= s@.take(start as int) + piece@ + seq!['/']);
                assert(sanitized(s@.take(i as int + 1)) =~= sanitized(s@.take(start as int))
                    + piece@ + seq!['_']);
            }
            start = i + 1;
        }
        i = i + 1;
    }
    let piece = s.substring_char(start, len);
    r.append(piece);
    proof {
        assert(piece@.map_values(|c: char| if c == '/' { '_' } else { c }) =~= piece@);
        assert(s@.take(len as int) =~= s@.take(start as int) + piece@);
        assert(sanitized(s@.take(len as int)) =~= sanitized(s@.take(start as int)) + piece@);
        assert(s@.take(len as int) =~= s@);
    }
    r
}

/// Character-by-character string equality.
pub fn str_eq(a: &str, b: &str) -> (r: bool)
    ensures
        r == (a@ == b@),
{
    let alen = a.unicode_len();
    let blen = b.unicode_len();
    if alen != blen {
        return false;
    }
    let mut i: usize = 0;
    while i < alen
        invariant
            i <= alen,
            alen == a@.len() && alen == b@.len(),
            forall|k: int| 0 <= k < i ==> a@[k] == b@[k],
        decreases alen - i,
    {
        if a.get_char(i) != b.get_char(i) {
            return false;
        }
        i = i + 1;
    }
    proof {
        assert(a@ =~= b@);
    }
    true
}

/// Render `n` as a decimal string at least two characters wide.
pub fn u16_to_pad2(n: u16) -> (r: String)
    ensures
        r@ == pad2(n as int),
{
    if n < 10 {
        let mut s = String::from_str("0");
        s.append(digit_str(n));
        proof {
            reveal_strlit("0");
            assert(s@ =~= seq!['0'] + dec_str(n as int));
        }
        s
    } else {
        u16_to_dec(n)
    }
}

} // verus!
