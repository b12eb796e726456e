use vstd::prelude::*;

use crate::config::{SpecState, TrailerWarning, PAYLOAD_LIMIT};
use crate::decode::{
    lemma_short_payload_bound, spec_apply_bram_block, spec_apply_cram_block, spec_be_value,
    spec_block_write, spec_decode, spec_flags, spec_freq,
};
use crate::errors::BitstreamError;
use crate::preamble::{is_preamble_at, spec_find_preamble};
use vstd::arithmetic::div_mod::lemma_fundamental_div_mod;

verus! {

/// Preamble search finds the first match: if the marker stands at `p`,
/// and nowhere between `from` and `p`, the synchronizer stops exactly
/// there, having consumed `p + 4` bytes.  Arbitrary padding before the
/// marker, including partial or overlapping copies of it, cannot move
/// the result.
pub proof fn lemma_preamble_first_match(bytes: Seq<u8>, from: int, p: int)
    requires
        0 <= from <= p,
        is_preamble_at(bytes, p),
        forall|q: int| from <= q < p ==> !is_preamble_at(bytes, q),
    ensures
        spec_find_preamble(bytes, from) == Some(p + 4),
    decreases p - from,
{
    if from < p {
        assert(!is_preamble_at(bytes, from));
        lemma_preamble_first_match(bytes, from + 1, p);
    }
}

/// Extent accumulation is idempotent: applying the same CRAM block
/// twice, under the same bank/width/height/offset registers, leaves
/// `cram_extent` exactly where the first application put it (the
/// running maximum of equal inputs does not move).
pub proof fn lemma_cram_extent_idempotent(st: SpecState, data: Seq<u8>)
    ensures
        spec_apply_cram_block(spec_apply_cram_block(st, data), data).cram_extent
            == spec_apply_cram_block(st, data).cram_extent,
{
}

/// The same idempotence, independently, for the BRAM extent.
pub proof fn lemma_bram_extent_idempotent(st: SpecState, data: Seq<u8>)
    ensures
        spec_apply_bram_block(spec_apply_bram_block(st, data), data).bram_extent
            == spec_apply_bram_block(st, data).bram_extent,
{
}

/// Both extents only ever grow: whenever a decode run from a
/// well-formed `st` succeeds with `res`, every component of `res`'s
/// CRAM and BRAM extents is at least the corresponding component of
/// `st`'s.  Each data block takes a running maximum and no command
/// ever shrinks it, so the extents are non-decreasing across the
/// lifetime of a parse.
pub proof fn lemma_extent_monotone(bytes: Seq<u8>, pos: int, st: SpecState, res: SpecState)
    requires
        st.wf(),
        spec_decode(bytes, pos, st) == Result::<SpecState, BitstreamError>::Ok(res),
    ensures
        st.cram_extent.width <= res.cram_extent.width,
        st.cram_extent.height <= res.cram_extent.height,
        st.bram_extent.width <= res.bram_extent.width,
        st.bram_extent.height <= res.bram_extent.height,
    decreases bytes.len() - pos,
{
    if 0 <= pos < bytes.len() {
        let cmd = bytes[pos];
        let opcode = cmd >> 4u8;
        let plen = (cmd & 0xfu8) as int;
        assert((cmd & 0xfu8) < 16) by (bit_vector);
        if pos + 1 + plen <= bytes.len() {
            let sub = bytes.subrange(pos + 1, pos + 1 + plen);
            let payload = spec_be_value(sub) as u128;
            lemma_short_payload_bound(sub);
            assert(payload < PAYLOAD_LIMIT);
            let next = pos + 1 + plen;
            if opcode == 0 {
                if payload == 1 || payload == 3 {
                    let bits = st.current_width * st.current_height;
                    if bits % 8 == 0 {
                        let nbytes = bits / 8;
                        if next + nbytes + 2 <= bytes.len() {
                            let data = bytes.subrange(next, next + nbytes);
                            assert(spec_block_write(st, data).wf()) by {
                                lemma_fundamental_div_mod(
                                    st.current_width * st.current_height,
                                    8,
                                );
                            }
                            let st1 = if payload == 1 {
                                spec_apply_cram_block(st, data)
                            } else {
                                spec_apply_bram_block(st, data)
                            };
                            let t0 = bytes[next + nbytes];
                            let t1 = bytes[next + nbytes + 1];
                            let st2 = if t0 != 0 || t1 != 0 {
                                SpecState {
                                    trailer_warnings: st1.trailer_warnings.push(
                                        TrailerWarning {
                                            offset: (next + nbytes) as usize,
                                            first: t0,
                                            second: t1,
                                        },
                                    ),
                                    ..st1
                                }
                            } else {
                                st1
                            };
                            let after = next + nbytes + 2;
                            let st3 = SpecState { stream_offset: after as usize, ..st2 };
                            assert(st3.wf()) by {
                                assert(forall|j: int|
                                    0 <= j < st.cram_writes.len() ==> st3.cram_writes[j]
                                        == #[trigger] st.cram_writes[j]);
                                assert(forall|j: int|
                                    0 <= j < st.bram_writes.len() ==> st3.bram_writes[j]
                                        == #[trigger] st.bram_writes[j]);
                            }
                            lemma_extent_monotone(bytes, after, st3, res);
                        }
                    }
                } else if payload == 5 {
                    lemma_extent_monotone(
                        bytes,
                        next,
                        SpecState { stream_offset: next as usize, crc_register: 0xffff, ..st },
                        res,
                    );
                }
            } else if opcode == 1 {
                lemma_extent_monotone(
                    bytes,
                    next,
                    SpecState { stream_offset: next as usize, current_bank: payload, ..st },
                    res,
                );
            } else if opcode == 2 {
                lemma_extent_monotone(
                    bytes,
                    next,
                    SpecState { stream_offset: next as usize, ..st },
                    res,
                );
            } else if opcode == 5 {
                lemma_extent_monotone(
                    bytes,
                    next,
                    SpecState {
                        stream_offset: next as usize,
                        frequency_range: spec_freq(payload),
                        ..st
                    },
                    res,
                );
            } else if opcode == 6 {
                lemma_extent_monotone(
                    bytes,
                    next,
                    SpecState {
                        stream_offset: next as usize,
                        current_width: (payload + 1) as u128,
                        ..st
                    },
                    res,
                );
            } else if opcode == 7 {
                lemma_extent_monotone(
                    bytes,
                    next,
                    SpecState { stream_offset: next as usize, current_height: payload, ..st },
                    res,
                );
            } else if opcode == 8 {
                lemma_extent_monotone(
                    bytes,
                    next,
                    SpecState { stream_offset: next as usize, current_offset: payload, ..st },
                    res,
                );
            } else if opcode == 9 {
                match spec_flags(payload) {
                    Some(fl) => lemma_extent_monotone(
                        bytes,
                        next,
                        SpecState {
                            stream_offset: next as usize,
                            warmboot: fl.0,
                            nosleep: fl.1,
                            ..st
                        },
                        res,
                    ),
                    None => {},
                }
            }
        }
    }
}

/// The wakeup command terminates the decoder: whenever the next
/// command byte is 0x01 (opcode 0, one payload byte) with payload 0x06,
/// the decode ends right there in the terminated state, with exactly
/// those two bytes consumed.  The result holds for every suffix of the
/// input, so trailing bytes after the wakeup command are never read and
/// cannot change the outcome.
pub proof fn lemma_wakeup_terminates(bytes: Seq<u8>, pos: int, st: SpecState)
    requires
        0 <= pos,
        pos + 2 <= bytes.len(),
        bytes[pos] == 0x01u8,
        bytes[pos + 1] == 0x06u8,
    ensures
        spec_decode(bytes, pos, st) == Result::<SpecState, BitstreamError>::Ok(
            SpecState { stream_offset: (pos + 2) as usize, ..st },
        ),
{
    assert(0x01u8 >> 4u8 == 0u8) by (bit_vector);
    assert(0x01u8 & 0xfu8 == 1u8) by (bit_vector);
    let sub = bytes.subrange(pos + 1, pos + 2);
    assert(sub.len() == 1);
    assert(sub.last() == bytes[pos + 1]);
    assert(spec_be_value(sub.drop_last()) == 0);
    assert(spec_be_value(sub) == 6);
}

} // verus!
