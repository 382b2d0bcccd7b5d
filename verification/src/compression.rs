//! The compression service: the host's compressor does the work, the
//! service decides what it reports.

use vstd::prelude::*;

verus! {

/// Size of the buffer the compressor writes into.
pub const MAX_OUTPUT: usize = 65536;

/// Mode of the plain entry point.
pub const DEFAULT_MODE: &'static str = "adaptive";

/// What the plain entry point reports for the compressor's answer: the
/// compressed length when it is positive, 0 (failure) otherwise.
pub fn reported_length(compressed_len: i32) -> (r: i32)
    ensures
        compressed_len > 0 ==> r == compressed_len,
        compressed_len <= 0 ==> r == 0,
{
    if compressed_len > 0 {
        compressed_len
    } else {
        0
    }
}

} // verus!
