//! Reading an account's identity out of its cookie header.

use vstd::prelude::*;
use crate::db::DatabaseError;
use crate::text::{
    before_first, before_first_index, chars_of, matches_at, matches_at_exec, parse_u64,
    parse_u64_spec,
};

verus! {

/// The pieces of `s` between the separators `c`, as `str::split` gives them.
pub open spec fn split_pieces(s: Seq<char>, c: char) -> Seq<Seq<char>>
    decreases s.len(),
{
    if s.len() == 0 {
        seq![Seq::empty()]
    } else {
        let p = split_pieces(s.drop_last(), c);
        if s.last() == c {
            p.push(Seq::empty())
        } else {
            p.update(p.len() - 1, p.last().push(s.last()))
        }
    }
}

/// The characters that `char::is_whitespace` accepts (the Unicode `White_Space` property).
pub open spec fn is_white(c: char) -> bool {
    ('\u{9}' <= c && c <= '\u{d}') || c == ' ' || c == '\u{85}' || c == '\u{a0}' || c
        == '\u{1680}' || ('\u{2000}' <= c && c <= '\u{200a}') || c == '\u{2028}' || c
        == '\u{2029}' || c == '\u{202f}' || c == '\u{205f}' || c == '\u{3000}'
}

pub open spec fn trim_start(s: Seq<char>) -> Seq<char>
    decreases s.len(),
{
    if s.len() > 0 && is_white(s[0]) {
        trim_start(s.drop_first())
    } else {
        s
    }
}

pub open spec fn trim_end(s: Seq<char>) -> Seq<char>
    decreases s.len(),
{
    if s.len() > 0 && is_white(s.last()) {
        trim_end(s.drop_last())
    } else {
        s
    }
}

/// `s` without leading and trailing white space, as `str::trim` gives it.
pub open spec fn trim(s: Seq<char>) -> Seq<char> {
    trim_end(trim_start(s))
}

/// The value of the first `bili_jct=` cookie among `pieces`.
pub open spec fn csrf_in(pieces: Seq<Seq<char>>) -> Option<Seq<char>>
    decreases pieces.len(),
{
    if pieces.len() == 0 {
        None
    } else {
        let t = trim(pieces[0]);
        if t.len() >= 9 && t.subrange(0, 9) == "bili_jct="@ {
            Some(t.subrange(9, t.len() as int))
        } else {
            csrf_in(pieces.drop_first())
        }
    }
}

/// The least index at least `i` at which `pat` occurs in `s`.
pub open spec fn first_match_from(s: Seq<char>, pat: Seq<char>, i: int) -> Option<int>
    decreases s.len() + 1 - i,
{
    if i > s.len() || i < 0 {
        None
    } else if matches_at(s, pat, i) {
        Some(i)
    } else {
        first_match_from(s, pat, i + 1)
    }
}

/// The text between the first `DedeUserID=` and the next one (or the end), as
/// the second piece of `str::split` on that marker gives it.
pub open spec fn uid_piece(s: Seq<char>) -> Option<Seq<char>> {
    let pat = "DedeUserID="@;
    match first_match_from(s, pat, 0) {
        Some(p) => {
            let start = p + pat.len();
            match first_match_from(s, pat, start) {
                Some(q) => Some(s.subrange(start, q)),
                None => Some(s.subrange(start, s.len() as int)),
            }
        },
        None => None,
    }
}

/// What `str::parse::<u64>` gives: decimal digits, with an optional leading `+`.
pub open spec fn std_parse_u64(s: Seq<char>) -> Option<u64> {
    if s.len() > 0 && s[0] == '+' {
        parse_u64_spec(s.drop_first())
    } else {
        parse_u64_spec(s)
    }
}

/// The user id and the csrf token that a cookie header carries.
pub open spec fn account_of(cookies: Seq<char>) -> Option<(u64, Seq<char>)> {
    match csrf_in(split_pieces(cookies, ';')) {
        Some(csrf) => match uid_piece(cookies) {
            Some(piece) => match std_parse_u64(before_first(piece, ';')) {
                Some(uid) => Some((uid, csrf)),
                None => None,
            },
            None => None,
        },
        None => None,
    }
}

/// The first occurrence of `pat` in `s` at or after `i`.
fn find_from(s: &[char], pat: &[char], i: usize) -> (r: Option<usize>)
    ensures
        match r {
            Some(p) => first_match_from(s@, pat@, i as int) == Some(p as int),
            None => first_match_from(s@, pat@, i as int).is_none(),
        },
{
    if i > s.len() {
        return None;
    }
    let mut k: usize = i;
    while k < s.len()
        invariant
            i <= k <= s@.len(),
            first_match_from(s@, pat@, i as int) == first_match_from(s@, pat@, k as int),
        decreases s.len() - k,
    {
        if matches_at_exec(s, pat, k) {
            return Some(k);
        }
        k = k + 1;
    }
    if matches_at_exec(s, pat, k) {
        return Some(k);
    }
    assert(first_match_from(s@, pat@, k + 1).is_none());
    None
}

/// Where the text of `cs[a..b]` without white space at either end lies.
fn trim_bounds(cs: &Vec<char>, a: usize, b: usize) -> (r: (usize, usize))
    requires
        a <= b <= cs@.len(),
    ensures
        a <= r.0 <= r.1 <= b,
        trim(cs@.subrange(a as int, b as int)) == cs@.subrange(r.0 as int, r.1 as int),
{
    let mut i = a;
    while i < b && is_white_exec(cs[i])
        invariant
            a <= i <= b,
            b <= cs@.len(),
            trim_start(cs@.subrange(a as int, b as int)) == trim_start(cs@.subrange(i as int, b as int)),
        decreases b - i,
    {
        assert(cs@.subrange(i as int, b as int).drop_first() =~= cs@.subrange(i + 1, b as int));
        i = i + 1;
    }
    let mut j = b;
    while j > i && is_white_exec(cs[j - 1])
        invariant
            i <= j <= b,
            b <= cs@.len(),
            trim_end(cs@.subrange(i as int, b as int)) == trim_end(cs@.subrange(i as int, j as int)),
        decreases j,
    {
        assert(cs@.subrange(i as int, j as int).drop_last() =~= cs@.subrange(i as int, j - 1));
        j = j - 1;
    }
    (i, j)
}

fn is_white_exec(c: char) -> (r: bool)
    ensures
        r == is_white(c),
{
    ('\u{9}' <= c && c <= '\u{d}') || c == ' ' || c == '\u{85}' || c == '\u{a0}' || c == '\u{1680}'
        || ('\u{2000}' <= c && c <= '\u{200a}') || c == '\u{2028}' || c == '\u{2029}' || c
        == '\u{202f}' || c == '\u{205f}' || c == '\u{3000}'
}

/// The csrf token: the value of the first `bili_jct=` cookie.
fn find_csrf(text: &str, cs: &Vec<char>) -> (r: Option<String>)
    requires
        cs@ == text@,
    ensures
        match r {
            Some(t) => csrf_in(split_pieces(cs@, ';')) == Some(t@),
            None => csrf_in(split_pieces(cs@, ';')).is_none(),
        },
{
    let key = chars_of("bili_jct=");
    proof {
        reveal_strlit("bili_jct=");
    }
    let n = cs.len();
    let mut start: usize = 0;
    assert(cs@.subrange(0, n as int) =~= cs@);
    loop
        invariant
            start <= n,
            n == cs@.len(),
            key@ == "bili_jct="@,
            key@.len() == 9,
            cs@ == text@,
            start == 0 || cs@[start - 1] == ';',
            csrf_in(split_pieces(cs@, ';')) == csrf_in(split_pieces(cs@.subrange(start as int, n as int), ';')),
        decreases n - start,
    {
        let mut end = start;
        while end < n && cs[end] != ';'
            invariant
                start <= end <= n,
                n == cs@.len(),
                forall|k: int| start <= k < end ==> cs@[k] != ';',
            decreases n - end,
        {
            end = end + 1;
        }
        let ghost rest = cs@.subrange(start as int, n as int);
        proof {
            lemma_split_first_piece(rest, ';', (end - start) as int);
        }
        let (a, b) = trim_bounds(cs, start, end);
        let ghost pieces = split_pieces(rest, ';');
        assert(pieces[0] =~= cs@.subrange(start as int, end as int));
        let ghost t = cs@.subrange(a as int, b as int);
        assert(trim(pieces[0]) == t);
        if b - a >= 9 && matches_at_exec(cs.as_slice(), key.as_slice(), a) {
            assert(t.subrange(0, 9) =~= cs@.subrange(a as int, a + 9));
            assert(t.subrange(9, t.len() as int) =~= cs@.subrange(a + 9, b as int));
            assert(csrf_in(pieces) == Some(t.subrange(9, t.len() as int)));
            return Some(String::from_str(text.substring_char(a + 9, b)));
        }
        proof {
            if b - a >= 9 {
                assert(t.subrange(0, 9) =~= cs@.subrange(a as int, a + 9));
            }
            assert(csrf_in(pieces) == csrf_in(pieces.drop_first()));
        }
        if end == n {
            assert(pieces.drop_first() =~= Seq::<Seq<char>>::empty());
            return None;
        }
        assert(cs@.subrange(end + 1, n as int) =~= rest.subrange(end - start + 1, rest.len() as int));
        start = end + 1;
    }
}

/// `split_pieces` always yields at least one piece.
proof fn lemma_split_pieces_shape(s: Seq<char>, c: char)
    ensures
        split_pieces(s, c).len() >= 1,
    decreases s.len(),
{
    if s.len() > 0 {
        lemma_split_pieces_shape(s.drop_last(), c);
    }
}

/// Where `s` has no separator before index `e`, and `e` is its end or a
/// separator, its first piece is `s[..e]` and the others are the pieces of what
/// follows that separator.
proof fn lemma_split_first_piece(s: Seq<char>, c: char, e: int)
    requires
        0 <= e <= s.len(),
        forall|k: int| 0 <= k < e ==> s[k] != c,
        e < s.len() ==> s[e] == c,
    ensures
        split_pieces(s, c).len() >= 1,
        split_pieces(s, c)[0] == s.subrange(0, e),
        e == s.len() ==> split_pieces(s, c).len() == 1,
        e < s.len() ==> split_pieces(s, c).drop_first() == split_pieces(s.subrange(e + 1, s.len() as int), c),
    decreases s.len(),
{
    lemma_split_pieces_shape(s, c);
    if s.len() == 0 {
        return;
    }
    let init = s.drop_last();
    lemma_split_pieces_shape(init, c);
    if e == s.len() {
        lemma_split_first_piece(init, c, e - 1);
        assert(init.subrange(0, e - 1).push(s.last()) =~= s.subrange(0, e));
    } else if e == s.len() - 1 {
        lemma_split_first_piece(init, c, e);
        assert(init.subrange(0, e) =~= s.subrange(0, e));
        assert(s.subrange(e + 1, s.len() as int) =~= Seq::<char>::empty());
        assert(split_pieces(s, c).drop_first() =~= seq![Seq::<char>::empty()]);
    } else {
        lemma_split_first_piece(init, c, e);
        assert(init.subrange(0, e) =~= s.subrange(0, e));
        let tail = s.subrange(e + 1, s.len() as int);
        assert(tail.drop_last() =~= init.subrange(e + 1, init.len() as int));
        lemma_split_pieces_shape(tail.drop_last(), c);
        let p = split_pieces(init, c);
        if s.last() == c {
            assert(split_pieces(s, c).drop_first() =~= p.drop_first().push(Seq::empty()));
        } else {
            assert(split_pieces(s, c).drop_first() =~= p.drop_first().update(
                p.len() - 2,
                p.last().push(s.last()),
            ));
        }
    }
}

/// Reads the user id and the csrf token out of a cookie header; a header that
/// lacks either, or whose user id is no number, is refused.
pub fn parse_account_cookies(cookies: &str) -> (r: Result<(u64, String), DatabaseError>)
    ensures
        match r {
            Ok((uid, csrf)) => account_of(cookies@) == Some((uid, csrf@)),
            Err(e) => account_of(cookies@).is_none() && e matches DatabaseError::InvalidCookiesError,
        },
{
    let cs = chars_of(cookies);
    let csrf = match find_csrf(cookies, &cs) {
        Some(t) => t,
        None => {
            return Err(DatabaseError::InvalidCookiesError);
        },
    };
    let pat = chars_of("DedeUserID=");
    let p = match find_from(cs.as_slice(), pat.as_slice(), 0) {
        Some(p) => p,
        None => {
            return Err(DatabaseError::InvalidCookiesError);
        },
    };
    proof {
        lemma_first_match_from(cs@, pat@, 0);
        assert(matches_at(cs@, pat@, p as int));
    }
    let n = cs.len();
    let m = pat.len();
    assert(p + m <= n);
    let start = p + pat.len();
    let end = match find_from(cs.as_slice(), pat.as_slice(), start) {
        Some(q) => q,
        None => cs.len(),
    };
    proof {
        lemma_first_match_from(cs@, pat@, start as int);
    }
    let piece = &cs.as_slice()[start..end];
    let k = before_first_index(piece, ';');
    let digits = &piece[0..k];
    let parsed = if k > 0 && digits[0] == '+' {
        assert(digits@.drop_first() =~= digits@.subrange(1, k as int));
        parse_u64(&digits[1..k])
    } else {
        parse_u64(digits)
    };
    match parsed {
        Some(uid) => Ok((uid, csrf)),
        None => Err(DatabaseError::InvalidCookiesError),
    }
}

proof fn lemma_first_match_from(s: Seq<char>, pat: Seq<char>, i: int)
    ensures
        match first_match_from(s, pat, i) {
            Some(p) => i <= p && matches_at(s, pat, p),
            None => true,
        },
    decreases s.len() + 1 - i,
{
    if 0 <= i <= s.len() && !matches_at(s, pat, i) {
        lemma_first_match_from(s, pat, i + 1);
    }
}

} // verus!
