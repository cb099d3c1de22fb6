//! Character-level helpers shared by the playlist and fetch logic.

use vstd::prelude::*;

verus! {

/// Whether `pat` occurs in `s` starting at index `i`.
pub open spec fn matches_at(s: Seq<char>, pat: Seq<char>, i: int) -> bool {
    0 <= i && i + pat.len() <= s.len() && s.subrange(i, i + pat.len()) == pat
}

/// The greatest index below `n` at which `pat` occurs in `s`.
pub open spec fn last_match_below(s: Seq<char>, pat: Seq<char>, n: int) -> Option<int>
    decreases n,
{
    if n <= 0 {
        None
    } else if matches_at(s, pat, n - 1) {
        Some(n - 1)
    } else {
        last_match_below(s, pat, n - 1)
    }
}

/// The index of the last occurrence of `pat` in `s`.
pub open spec fn last_match(s: Seq<char>, pat: Seq<char>) -> Option<int> {
    last_match_below(s, pat, s.len() as int + 1)
}

pub open spec fn contains_seq(s: Seq<char>, pat: Seq<char>) -> bool {
    exists|i: int| matches_at(s, pat, i)
}

pub proof fn lemma_last_match_below(s: Seq<char>, pat: Seq<char>, n: int)
    ensures
        match last_match_below(s, pat, n) {
            Some(p) => p < n && matches_at(s, pat, p) && forall|q: int|
                p < q < n ==> !matches_at(s, pat, q),
            None => forall|q: int| q < n ==> !matches_at(s, pat, q),
        },
    decreases n,
{
    if n > 0 {
        lemma_last_match_below(s, pat, n - 1);
    }
}

pub proof fn lemma_contains_iff_last_match(s: Seq<char>, pat: Seq<char>)
    ensures
        contains_seq(s, pat) <==> last_match(s, pat).is_some(),
        match last_match(s, pat) {
            Some(p) => matches_at(s, pat, p) && forall|q: int| p < q ==> !matches_at(s, pat, q),
            None => true,
        },
{
    lemma_last_match_below(s, pat, s.len() as int + 1);
    if contains_seq(s, pat) {
        let i = choose|i: int| matches_at(s, pat, i);
        assert(i < s.len() + 1);
    }
}

/// The characters of `s`, in order.
pub fn chars_of(s: &str) -> (r: Vec<char>)
    ensures
        r@ == s@,
{
    let mut r: Vec<char> = Vec::new();
    for c in it: s.chars()
        invariant
            it.seq() == s@,
            r@ == it.seq().subrange(0, it.index() as int),
    {
        r.push(c);
    }
    assert(r@ =~= s@);
    r
}

/// Whether `pat` occurs in `s` at index `i`.
pub fn matches_at_exec(s: &[char], pat: &[char], i: usize) -> (r: bool)
    ensures
        r == matches_at(s@, pat@, i as int),
{
    if pat.len() > s.len() || i > s.len() - pat.len() {
        return false;
    }
    let mut k: usize = 0;
    while k < pat.len()
        invariant
            i + pat@.len() <= s@.len(),
            i + pat.len() <= s.len(),
            k <= pat@.len(),
            forall|j: int| 0 <= j < k ==> s@[i + j] == pat@[j],
        decreases pat.len() - k,
    {
        if s[i + k] != pat[k] {
            assert(s@.subrange(i as int, i + pat@.len())[k as int] != pat@[k as int]);
            return false;
        }
        k = k + 1;
    }
    assert(s@.subrange(i as int, i + pat@.len()) =~= pat@);
    true
}

/// The index of the last occurrence of `pat` in `s`.
pub fn rfind(s: &[char], pat: &[char]) -> (r: Option<usize>)
    ensures
        match r {
            Some(p) => last_match(s@, pat@) == Some(p as int),
            None => last_match(s@, pat@).is_none(),
        },
{
    if matches_at_exec(s, pat, s.len()) {
        return Some(s.len());
    }
    let mut n: usize = s.len();
    while n > 0
        invariant
            n <= s@.len() + 1,
            last_match(s@, pat@) == last_match_below(s@, pat@, n as int),
        decreases n,
    {
        if matches_at_exec(s, pat, n - 1) {
            return Some(n - 1);
        }
        n = n - 1;
    }
    None
}

/// Whether `pat` occurs anywhere in `s`.
pub fn contains(s: &[char], pat: &[char]) -> (r: bool)
    ensures
        r == contains_seq(s@, pat@),
{
    proof {
        lemma_contains_iff_last_match(s@, pat@);
    }
    rfind(s, pat).is_some()
}

pub open spec fn digit_char(d: nat) -> char {
    if d == 0 {
        '0'
    } else if d == 1 {
        '1'
    } else if d == 2 {
        '2'
    } else if d == 3 {
        '3'
    } else if d == 4 {
        '4'
    } else if d == 5 {
        '5'
    } else if d == 6 {
        '6'
    } else if d == 7 {
        '7'
    } else if d == 8 {
        '8'
    } else {
        '9'
    }
}

/// The decimal digits of `n`, without leading zeros.
pub open spec fn dec(n: nat) -> Seq<char>
    decreases n,
{
    if n < 10 {
        seq![digit_char(n)]
    } else {
        dec(n / 10).push(digit_char(n % 10))
    }
}

pub open spec fn is_digit(c: char) -> bool {
    '0' <= c && c <= '9'
}

pub open spec fn digit_value(c: char) -> nat {
    (c as u32 - '0' as u32) as nat
}

/// The number that a string of ASCII digits denotes.
pub open spec fn value_of_digits(ds: Seq<char>) -> nat
    decreases ds.len(),
{
    if ds.len() == 0 {
        0
    } else {
        value_of_digits(ds.drop_last()) * 10 + digit_value(ds.last())
    }
}

pub open spec fn all_digits(ds: Seq<char>) -> bool {
    forall|i: int| 0 <= i < ds.len() ==> is_digit(#[trigger] ds[i])
}

/// What a decimal reading of `ds` as a `u64` gives.
pub open spec fn parse_u64_spec(ds: Seq<char>) -> Option<u64> {
    if ds.len() > 0 && all_digits(ds) && value_of_digits(ds) <= u64::MAX {
        Some(value_of_digits(ds) as u64)
    } else {
        None
    }
}

/// The part of `s` after its last `sep` (the whole of `s` if it has none).
pub open spec fn after_last(s: Seq<char>, sep: char) -> Seq<char>
    decreases s.len(),
{
    if s.len() == 0 {
        s
    } else if s.last() == sep {
        Seq::empty()
    } else {
        after_last(s.drop_last(), sep).push(s.last())
    }
}

/// The part of a path after its last `/`.
pub open spec fn last_component(s: Seq<char>) -> Seq<char> {
    after_last(s, '/')
}

/// The part of `s` before its first `sep` (the whole of `s` if it has none).
pub open spec fn before_first(s: Seq<char>, sep: char) -> Seq<char>
    decreases s.len(),
{
    if s.len() == 0 {
        s
    } else if s[0] == sep {
        Seq::empty()
    } else {
        seq![s[0]] + before_first(s.drop_first(), sep)
    }
}

fn digit_str(d: u64) -> (r: &'static str)
    requires
        d < 10,
    ensures
        r@ == seq![digit_char(d as nat)],
{
    proof {
        reveal_strlit("0");
        reveal_strlit("1");
        reveal_strlit("2");
        reveal_strlit("3");
        reveal_strlit("4");
        reveal_strlit("5");
        reveal_strlit("6");
        reveal_strlit("7");
        reveal_strlit("8");
        reveal_strlit("9");
    }
    if d == 0 {
        "0"
    } else if d == 1 {
        "1"
    } else if d == 2 {
        "2"
    } else if d == 3 {
        "3"
    } else if d == 4 {
        "4"
    } else if d == 5 {
        "5"
    } else if d == 6 {
        "6"
    } else if d == 7 {
        "7"
    } else if d == 8 {
        "8"
    } else {
        "9"
    }
}

/// Appends the decimal form of `n` to `out`.
pub fn push_decimal(out: &mut String, n: u64)
    ensures
        final(out)@ == old(out)@ + dec(n as nat),
    decreases n,
{
    if n >= 10 {
        push_decimal(out, n / 10);
    }
    out.append(digit_str(n % 10));
    assert(dec(n as nat) == if n < 10 {
        seq![digit_char(n as nat)]
    } else {
        dec((n / 10) as nat).push(digit_char((n % 10) as nat))
    });
    assert(final(out)@ =~= old(out)@ + dec(n as nat));
}

/// Reads `ds` as a decimal `u64`: `None` when it is empty, holds a non-digit,
/// or names a number beyond `u64::MAX`.
pub fn parse_u64(ds: &[char]) -> (r: Option<u64>)
    ensures
        r == parse_u64_spec(ds@),
{
    if ds.len() == 0 {
        return None;
    }
    let mut acc: u64 = 0;
    let mut i: usize = 0;
    while i < ds.len()
        invariant
            i <= ds@.len(),
            all_digits(ds@.subrange(0, i as int)),
            acc as nat == value_of_digits(ds@.subrange(0, i as int)),
        decreases ds.len() - i,
    {
        let c = ds[i];
        assert(ds@.subrange(0, i + 1).drop_last() =~= ds@.subrange(0, i as int));
        if !('0' <= c && c <= '9') {
            assert(!all_digits(ds@)) by {
                assert(!is_digit(ds@[i as int]));
            }
            return None;
        }
        let d = (c as u32 - '0' as u32) as u64;
        if acc > (u64::MAX - d) / 10 {
            proof {
                lemma_value_of_digits_prefix(ds@, i as int + 1);
            }
            return None;
        }
        acc = acc * 10 + d;
        i = i + 1;
    }
    assert(ds@.subrange(0, ds@.len() as int) =~= ds@);
    Some(acc)
}

/// A number read from digits is at least the number read from any of its prefixes.
proof fn lemma_value_of_digits_prefix(ds: Seq<char>, k: int)
    requires
        0 <= k <= ds.len(),
    ensures
        value_of_digits(ds.subrange(0, k)) <= value_of_digits(ds),
    decreases ds.len() - k,
{
    if k < ds.len() {
        lemma_value_of_digits_prefix(ds, k + 1);
        assert(ds.subrange(0, k + 1).drop_last() =~= ds.subrange(0, k));
    } else {
        assert(ds.subrange(0, k) =~= ds);
    }
}

/// Where the part of `cs[..n]` after its last `sep` starts.
pub fn after_last_index(cs: &Vec<char>, n: usize, sep: char) -> (k: usize)
    requires
        n <= cs@.len(),
    ensures
        k <= n,
        after_last(cs@.subrange(0, n as int), sep) == cs@.subrange(k as int, n as int),
{
    let ghost s = cs@.subrange(0, n as int);
    let mut k: usize = n;
    assert(s.subrange(0, n as int) =~= s);
    assert(s.subrange(n as int, n as int) =~= Seq::<char>::empty());
    while k > 0 && cs[k - 1] != sep
        invariant
            k <= n,
            n <= cs@.len(),
            s == cs@.subrange(0, n as int),
            after_last(s, sep) == after_last(s.subrange(0, k as int), sep) + s.subrange(
                k as int,
                n as int,
            ),
        decreases k,
    {
        proof {
            let pre = s.subrange(0, k as int);
            assert(pre.last() == cs@[k - 1]);
            assert(pre.drop_last() =~= s.subrange(0, k - 1));
            assert(s.subrange(k - 1, n as int) =~= seq![pre.last()] + s.subrange(
                k as int,
                n as int,
            ));
            assert(after_last(s.subrange(0, k - 1), sep) + s.subrange(k - 1, n as int)
                =~= after_last(s.subrange(0, k - 1), sep).push(pre.last()) + s.subrange(
                k as int,
                n as int,
            ));
        }
        k = k - 1;
    }
    proof {
        if k > 0 {
            assert(s.subrange(0, k as int).last() == cs@[k - 1]);
        }
        assert(after_last(s.subrange(0, k as int), sep) =~= Seq::<char>::empty());
        assert(s.subrange(k as int, n as int) =~= cs@.subrange(k as int, n as int));
    }
    k
}

/// Where the part of `cs` before its first `sep` ends.
pub fn before_first_index(cs: &[char], sep: char) -> (k: usize)
    ensures
        k <= cs@.len(),
        before_first(cs@, sep) == cs@.subrange(0, k as int),
{
    let n = cs.len();
    let mut k: usize = 0;
    assert(cs@.subrange(0, n as int) =~= cs@);
    while k < n && cs[k] != sep
        invariant
            k <= n,
            n == cs@.len(),
            before_first(cs@, sep) == cs@.subrange(0, k as int) + before_first(
                cs@.subrange(k as int, n as int),
                sep,
            ),
        decreases n - k,
    {
        proof {
            let rest = cs@.subrange(k as int, n as int);
            assert(rest[0] == cs@[k as int]);
            assert(rest.drop_first() =~= cs@.subrange(k + 1, n as int));
            assert(cs@.subrange(0, k + 1) =~= cs@.subrange(0, k as int) + seq![rest[0]]);
            assert(cs@.subrange(0, k as int) + (seq![rest[0]] + before_first(rest.drop_first(), sep))
                =~= cs@.subrange(0, k + 1) + before_first(rest.drop_first(), sep));
        }
        k = k + 1;
    }
    proof {
        let rest = cs@.subrange(k as int, n as int);
        if k < n {
            assert(rest[0] == cs@[k as int]);
        }
        assert(before_first(rest, sep) =~= Seq::<char>::empty());
        assert(cs@.subrange(0, k as int) + Seq::<char>::empty() =~= cs@.subrange(0, k as int));
    }
    k
}

/// The part of `s` after its last `/`.
pub fn last_component_of(s: &str) -> (r: String)
    ensures
        r@ == last_component(s@),
{
    let cs = chars_of(s);
    let n = cs.len();
    let k = after_last_index(&cs, n, '/');
    assert(cs@.subrange(0, n as int) =~= s@);
    let r = s.substring_char(k, n);
    String::from_str(r)
}

} // verus!
