use vstd::prelude::*;

use crate::errors::{BitstreamError, BitstreamErrorKind};

verus! {

/// The 4-byte synchronization marker 0x7E 0xAA 0x99 0x7E (the
/// big-endian value 0x7EAA997E) stands at position `p`.
pub open spec fn is_preamble_at(bytes: Seq<u8>, p: int) -> bool {
    &&& 0 <= p
    &&& p + 4 <= bytes.len()
    &&& bytes[p] == 0x7eu8
    &&& bytes[p + 1] == 0xaau8
    &&& bytes[p + 2] == 0x99u8
    &&& bytes[p + 3] == 0x7eu8
}

/// Position just past the first preamble starting at or after `from`,
/// or None when no preamble occurs in the rest of the input.
pub open spec fn spec_find_preamble(bytes: Seq<u8>, from: int) -> Option<int>
    decreases bytes.len() - from,
{
    if from < 0 || from + 4 > bytes.len() {
        None
    } else if is_preamble_at(bytes, from) {
        Some(from + 4)
    } else {
        spec_find_preamble(bytes, from + 1)
    }
}

/// Scan the input from `from` for the preamble, one position at a time,
/// exactly as a byte-at-a-time 32-bit shift register would: the first
/// position whose trailing four bytes equal the marker wins, so a
/// marker preceded by arbitrary padding, or overlapping a partial
/// match, is still found.  On success the result is the number of bytes
/// consumed: the position just past the marker.  An exhausted input is
/// a recoverable error, not a crash.
pub fn find_preamble(bytes: &Vec<u8>, from: usize) -> (r: Result<usize, BitstreamError>)
    ensures
        match r {
            Ok(end) => {
                &&& spec_find_preamble(bytes@, from as int) == Some(end as int)
                &&& end <= bytes@.len()
            },
            Err(e) => {
                &&& spec_find_preamble(bytes@, from as int) is None
                &&& e == (BitstreamError {
                    offset: bytes@.len() as usize,
                    kind: BitstreamErrorKind::UnexpectedEndOfStream,
                })
            },
        },
{
    let n: usize = bytes.len();
    let mut p: usize = from;
    loop
        invariant
            from <= p,
            n == bytes@.len(),
            spec_find_preamble(bytes@, from as int) == spec_find_preamble(bytes@, p as int),
        decreases bytes@.len() - p,
    {
        if n < 4 || p > n - 4 {
            return Err(BitstreamError {
                offset: n,
                kind: BitstreamErrorKind::UnexpectedEndOfStream,
            });
        }
        if bytes[p] == 0x7e && bytes[p + 1] == 0xaa && bytes[p + 2] == 0x99
            && bytes[p + 3] == 0x7e {
            return Ok(p + 4);
        }
        proof {
            assert(!is_preamble_at(bytes@, p as int));
        }
        p = p + 1;
    }
}

} // verus!
