use vstd::prelude::*;
use vstd::string::StringSliceAdditionalSpecFns;
use vstd::utf8::{valid_utf8, decode_utf8, encode_utf8_decode_utf8};

verus! {

/// Trusted wrapper around `core::str::from_utf8`. Its documentation says
/// it returns `Ok` exactly when the byte slice is well-formed UTF-8 (what
/// vstd's `valid_utf8` formalizes), and the `&str` it returns is the same
/// bytes viewed as text.
#[verifier::external_body]
pub(crate) fn str_from_utf8<'a>(bytes: &'a [u8]) -> (r: Option<&'a str>)
    ensures
        r is Some <==> valid_utf8(bytes@),
        r matches Some(s) ==> s.spec_bytes() == bytes@,
{
    match core::str::from_utf8(bytes) {
        Ok(s) => Some(s),
        Err(_) => None,
    }
}

/// Whether `bytes` is well-formed UTF-8.
pub(crate) fn utf8_is_valid(bytes: &[u8]) -> (r: bool)
    ensures
        r == valid_utf8(bytes@),
{
    str_from_utf8(bytes).is_some()
}

/// The characters of a string.
pub fn chars_of(s: &str) -> (r: Vec<char>)
    ensures
        r@ == s@,
{
    let n = s.unicode_len();
    let mut out: Vec<char> = Vec::new();
    let mut i: usize = 0;
    while i < n
        invariant
            n == s@.len(),
            i <= n,
            out@ == s@.subrange(0, i as int),
        decreases n - i,
    {
        out.push(s.get_char(i));
        i = i + 1;
        proof {
            assert(out@ =~= s@.subrange(0, i as int));
        }
    }
    proof {
        assert(s@.subrange(0, n as int) =~= s@);
    }
    out
}

/// The characters that well-formed UTF-8 bytes encode, or `None` when the
/// bytes are not well-formed.
pub fn decode_chars(bytes: &[u8]) -> (r: Option<Vec<char>>)
    ensures
        r is Some <==> valid_utf8(bytes@),
        r matches Some(v) ==> v@ == decode_utf8(bytes@),
{
    match str_from_utf8(bytes) {
        None => None,
        Some(s) => {
            proof {
                encode_utf8_decode_utf8(s@);
            }
            Some(chars_of(s))
        },
    }
}

} // verus!
