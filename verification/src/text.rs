//! Searching and scanning text held as characters.
use vstd::prelude::*;
use vstd::string::StringSliceAdditionalSpecFns;
use crate::spacetime::env::{is_white_space, char_is_whitespace};

verus! {

/// Whether `pat` occurs in `s` starting at index `i`.
pub open spec fn occurs_at(s: Seq<char>, pat: Seq<char>, i: int) -> bool {
    0 <= i && i + pat.len() <= s.len() && s.subrange(i, i + pat.len()) == pat
}

/// The first index at or after `from` at which `pat` occurs in `s`.
pub open spec fn find_from(s: Seq<char>, pat: Seq<char>, from: int) -> Option<int>
    decreases s.len() + 1 - from,
{
    if from < 0 || from + pat.len() > s.len() {
        None
    } else if occurs_at(s, pat, from) {
        Some(from)
    } else {
        find_from(s, pat, from + 1)
    }
}

/// Whether `pat` occurs anywhere in `s` (what `str::contains` answers).
pub open spec fn contains_text(s: Seq<char>, pat: Seq<char>) -> bool {
    find_from(s, pat, 0) is Some
}

/// The end of the run of characters from `from` on that satisfy `pred`.
pub open spec fn run_end(s: Seq<char>, from: int, pred: spec_fn(char) -> bool) -> int
    decreases s.len() - from,
{
    if from < 0 || from >= s.len() || !pred(s[from]) {
        from
    } else {
        run_end(s, from + 1, pred)
    }
}

pub open spec fn is_ascii_digit(c: char) -> bool {
    '0' <= c && c <= '9'
}

/// The value of a run of ASCII decimal digits.
pub open spec fn digits_value(s: Seq<char>) -> nat
    decreases s.len(),
{
    if s.len() == 0 {
        0
    } else {
        digits_value(s.drop_last()) * 10 + ((s.last() as u32) - 48) as nat
    }
}

pub proof fn lemma_find_from_bounds(s: Seq<char>, pat: Seq<char>, from: int)
    ensures
        find_from(s, pat, from) matches Some(i) ==> from <= i && occurs_at(s, pat, i),
    decreases s.len() + 1 - from,
{
    if from < 0 || from + pat.len() > s.len() {
    } else if occurs_at(s, pat, from) {
    } else {
        lemma_find_from_bounds(s, pat, from + 1);
    }
}

pub proof fn lemma_run_end_bounds(s: Seq<char>, from: int, pred: spec_fn(char) -> bool)
    requires
        0 <= from <= s.len(),
    ensures
        from <= run_end(s, from, pred) <= s.len(),
        forall|k: int| from <= k < run_end(s, from, pred) ==> #[trigger] pred(s[k]),
    decreases s.len() - from,
{
    if from >= s.len() || !pred(s[from]) {
    } else {
        lemma_run_end_bounds(s, from + 1, pred);
    }
}

/// The first index at or after `from` at which `pat` occurs in `s`.
pub fn find_chars(s: &[char], pat: &[char], from: usize) -> (r: Option<usize>)
    ensures
        match r {
            Some(i) => find_from(s@, pat@, from as int) == Some(i as int),
            None => find_from(s@, pat@, from as int) is None,
        },
{
    let n = s.len();
    let mut i = from;
    while i <= n && pat.len() <= n - i
        invariant
            n == s@.len(),
            from <= i,
            find_from(s@, pat@, from as int) == find_from(s@, pat@, i as int),
        decreases s@.len() + 1 - i,
    {
        let mut j: usize = 0;
        while j < pat.len() && s[i + j] == pat[j]
            invariant
                n == s@.len(),
                i + pat@.len() <= s@.len(),
                j <= pat@.len(),
                forall|k: int| 0 <= k < j ==> s@[i + k] == pat@[k],
            decreases pat@.len() - j,
        {
            j = j + 1;
        }
        if j == pat.len() {
            assert(s@.subrange(i as int, i + pat@.len()) =~= pat@);
            return Some(i);
        }
        assert(s@.subrange(i as int, i + pat@.len())[j as int] != pat@[j as int]);
        i = i + 1;
    }
    None
}

/// The end of the run of whitespace characters starting at `from`.
pub fn skip_whitespace(s: &[char], from: usize) -> (r: usize)
    requires
        from <= s@.len(),
    ensures
        r == run_end(s@, from as int, |c: char| is_white_space(c)),
{
    let ghost pred = |c: char| is_white_space(c);
    let mut i = from;
    while i < s.len() && char_is_whitespace(s[i])
        invariant
            from <= i <= s@.len(),
            pred == (|c: char| is_white_space(c)),
            run_end(s@, from as int, pred) == run_end(s@, i as int, pred),
        decreases s@.len() - i,
    {
        i = i + 1;
    }
    i
}

/// The end of the run of copies of `c` starting at `from`.
pub fn skip_char(s: &[char], from: usize, c: char) -> (r: usize)
    requires
        from <= s@.len(),
    ensures
        r == run_end(s@, from as int, |x: char| x == c),
{
    let ghost pred = |x: char| x == c;
    let mut i = from;
    while i < s.len() && s[i] == c
        invariant
            from <= i <= s@.len(),
            pred == (|x: char| x == c),
            run_end(s@, from as int, pred) == run_end(s@, i as int, pred),
        decreases s@.len() - i,
    {
        i = i + 1;
    }
    i
}

/// The end of the run of ASCII digits starting at `from`.
pub fn skip_digits(s: &[char], from: usize) -> (r: usize)
    requires
        from <= s@.len(),
    ensures
        r == run_end(s@, from as int, |x: char| is_ascii_digit(x)),
{
    let ghost pred = |x: char| is_ascii_digit(x);
    let mut i = from;
    while i < s.len() && '0' <= s[i] && s[i] <= '9'
        invariant
            from <= i <= s@.len(),
            pred == (|x: char| is_ascii_digit(x)),
            run_end(s@, from as int, pred) == run_end(s@, i as int, pred),
        decreases s@.len() - i,
    {
        i = i + 1;
    }
    i
}

/// The value of the ASCII digits `s[from..to]`, or `None` when it does not
/// fit in a `u64` (what `u64::from_str_radix(.., 10)` gives for digits).
pub fn digits_to_u64(s: &[char], from: usize, to: usize) -> (r: Option<u64>)
    requires
        from <= to <= s@.len(),
        forall|k: int| from <= k < to ==> is_ascii_digit(#[trigger] s@[k]),
    ensures
        match r {
            Some(v) => v == digits_value(s@.subrange(from as int, to as int)),
            None => digits_value(s@.subrange(from as int, to as int)) > u64::MAX,
        },
{
    let mut v: u64 = 0;
    let mut i = from;
    while i < to
        invariant
            from <= i <= to <= s@.len(),
            forall|k: int| from <= k < to ==> is_ascii_digit(#[trigger] s@[k]),
            v == digits_value(s@.subrange(from as int, i as int)),
        decreases to - i,
    {
        let c = s[i];
        assert(is_ascii_digit(s@[i as int]));
        let d = (c as u32 - 48) as u64;
        let ghost prev = s@.subrange(from as int, i as int);
        proof {
            let next = s@.subrange(from as int, i + 1);
            assert(next.drop_last() =~= prev);
            assert(next.last() == c);
        }
        if v > (u64::MAX - d) / 10 {
            proof {
                lemma_digits_monotone(s@, from as int, i + 1, to as int);
            }
            return None;
        }
        v = v * 10 + d;
        i = i + 1;
    }
    Some(v)
}

/// Appending digits never makes the value smaller.
proof fn lemma_digits_monotone(s: Seq<char>, from: int, i: int, to: int)
    requires
        0 <= from <= i <= to <= s.len(),
        forall|k: int| from <= k < to ==> is_ascii_digit(#[trigger] s[k]),
    ensures
        digits_value(s.subrange(from, i)) <= digits_value(s.subrange(from, to)),
    decreases to - i,
{
    if i < to {
        lemma_digits_monotone(s, from, i + 1, to);
        let next = s.subrange(from, i + 1);
        assert(next.drop_last() =~= s.subrange(from, i));
        assert(next.last() == s[i]);
        assert(is_ascii_digit(s[i]));
    }
}

/// `prefix`, then `body`, then `suffix`.
pub fn wrap_text(prefix: &str, body: &[u8], suffix: &str) -> (r: Vec<u8>)
    ensures
        r@ == prefix.spec_bytes() + body@ + suffix.spec_bytes(),
{
    let mut out = crate::host::key_with(prefix, body);
    crate::codec::append_bytes(&mut out, suffix.as_bytes());
    out
}

} // verus!
