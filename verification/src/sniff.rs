//! The binary sniffer: text or binary, from the first bytes of a file.

use vstd::prelude::*;
use crate::options::Options;

verus! {

/// The number of bytes at the start of a file that the sniffer looks at.
pub const SNIFF_LEN: usize = 1024;

/// A NUL byte stands among the first `SNIFF_LEN` bytes of `content`.
pub open spec fn has_nul_at_start(content: Seq<u8>) -> bool {
    exists|i: int| 0 <= i < content.len() && i < SNIFF_LEN && content[i] == 0
}

/// Classifies a file as binary from the bytes at its start: binary if a NUL
/// byte is among the first `SNIFF_LEN` of them. `start` holds the bytes read
/// from the start of the file; what lies behind the first `SNIFF_LEN` is not
/// looked at.
pub fn is_probably_binary(start: &[u8]) -> (binary: bool)
    ensures
        binary == has_nul_at_start(start@),
{
    let end = if start.len() < SNIFF_LEN {
        start.len()
    } else {
        SNIFF_LEN
    };
    let mut i: usize = 0;
    while i < end
        invariant
            i <= end <= start.len(),
            end <= SNIFF_LEN,
            end == start.len() || end == SNIFF_LEN,
            forall|j: int| 0 <= j < i ==> start@[j] != 0,
        decreases end - i,
    {
        if start[i] == 0 {
            return true;
        }
        i = i + 1;
    }
    false
}

/// Whether a file is left out of the search: it is, if binary files are
/// skipped and the file looks binary.
pub fn skips_file(opts: &Options, start: &[u8]) -> (skip: bool)
    ensures
        skip == (opts.skip_binary && has_nul_at_start(start@)),
{
    opts.skip_binary && is_probably_binary(start)
}

} // verus!
