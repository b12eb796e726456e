use vstd::prelude::*;

use crate::config::{
    Extent, FrequencyRange, Ice40Bitstream, SpecState, TrailerWarning, PAYLOAD_LIMIT,
};
use crate::errors::{BitstreamError, BitstreamErrorKind};
use crate::preamble::{find_preamble, spec_find_preamble};
use crate::store::{BlockWrite, SpecWrite};
use vstd::arithmetic::div_mod::{
    lemma_div_is_ordered, lemma_fundamental_div_mod, lemma_mod_division_less_than_divisor,
    lemma_mul_mod_noop_general,
};
use vstd::arithmetic::mul::lemma_mul_inequality;

verus! {

/// The unsigned big-endian value of a byte sequence; an empty sequence
/// has value 0.
pub open spec fn spec_be_value(s: Seq<u8>) -> nat
    decreases s.len(),
{
    if s.len() == 0 {
        0
    } else {
        spec_be_value(s.drop_last()) * 256 + s.last() as nat
    }
}

pub open spec fn pow256(n: nat) -> nat
    decreases n,
{
    if n == 0 {
        1
    } else {
        256 * pow256((n - 1) as nat)
    }
}

pub proof fn lemma_pow256_pos(n: nat)
    ensures
        pow256(n) >= 1,
    decreases n,
{
    if n > 0 {
        lemma_pow256_pos((n - 1) as nat);
    }
}

pub proof fn lemma_pow256_monotone(a: nat, b: nat)
    requires
        a <= b,
    ensures
        pow256(a) <= pow256(b),
    decreases b,
{
    if a < b {
        lemma_pow256_monotone(a, (b - 1) as nat);
        lemma_pow256_pos((b - 1) as nat);
    }
}

pub proof fn lemma_pow256_limit()
    ensures
        pow256(15) == PAYLOAD_LIMIT,
{
    reveal_with_fuel(pow256, 16);
}

pub proof fn lemma_be_value_bound(s: Seq<u8>)
    ensures
        spec_be_value(s) < pow256(s.len()),
    decreases s.len(),
{
    if s.len() > 0 {
        lemma_be_value_bound(s.drop_last());
    }
}

/// A value framed in at most 15 bytes stays below 2^120.
pub proof fn lemma_short_payload_bound(s: Seq<u8>)
    requires
        s.len() <= 15,
    ensures
        spec_be_value(s) < PAYLOAD_LIMIT as nat,
{
    lemma_be_value_bound(s);
    lemma_pow256_monotone(s.len(), 15);
    lemma_pow256_limit();
}

pub open spec fn spec_eof_error(bytes: Seq<u8>) -> BitstreamError {
    BitstreamError {
        offset: bytes.len() as usize,
        kind: BitstreamErrorKind::UnexpectedEndOfStream,
    }
}

/// Frequency range selected by a set-frequency payload.
pub open spec fn spec_freq(payload: u128) -> FrequencyRange {
    if payload == 0 {
        FrequencyRange::Low
    } else if payload == 1 {
        FrequencyRange::Medium
    } else if payload == 2 {
        FrequencyRange::High
    } else {
        FrequencyRange::Unknown(payload)
    }
}

/// The (warmboot, nosleep) pair encoded by a feature-flags payload, or
/// None for the payloads the format rejects.
pub open spec fn spec_flags(payload: u128) -> Option<(bool, bool)> {
    if payload == 0 {
        Some((false, false))
    } else if payload == 1 {
        Some((false, true))
    } else if payload == 32 {
        Some((true, false))
    } else if payload == 33 {
        Some((true, true))
    } else {
        None
    }
}

/// Extent accumulation for one block of geometry (w, h, o): the width
/// maximum and the offset + height maximum, each monotone.
pub open spec fn spec_extent_grow(e: Extent, w: u128, h: u128, o: u128) -> Extent {
    Extent {
        width: if w > e.width {
            w
        } else {
            e.width
        },
        height: if o + h > e.height {
            (o + h) as u128
        } else {
            e.height
        },
    }
}

/// The block write recorded when a data block arrives under the current
/// geometry of `st`.
pub open spec fn spec_block_write(st: SpecState, data: Seq<u8>) -> SpecWrite {
    SpecWrite {
        bank: st.current_bank as nat,
        width: st.current_width as nat,
        height: st.current_height as nat,
        offset: st.current_offset as nat,
        data,
    }
}

/// Effect of one CRAM data block on the configuration: the CRAM extent
/// grows against the declared geometry and the block is recorded in the
/// CRAM store.  The geometry registers themselves do not change.
pub open spec fn spec_apply_cram_block(st: SpecState, data: Seq<u8>) -> SpecState {
    SpecState {
        cram_extent: spec_extent_grow(
            st.cram_extent,
            st.current_width,
            st.current_height,
            st.current_offset,
        ),
        cram_writes: st.cram_writes.push(spec_block_write(st, data)),
        ..st
    }
}

/// Effect of one BRAM data block, same accumulation independently.
pub open spec fn spec_apply_bram_block(st: SpecState, data: Seq<u8>) -> SpecState {
    SpecState {
        bram_extent: spec_extent_grow(
            st.bram_extent,
            st.current_width,
            st.current_height,
            st.current_offset,
        ),
        bram_writes: st.bram_writes.push(spec_block_write(st, data)),
        ..st
    }
}

/// The command-stream interpreter, one command per recursion step.
///
/// Reads the command byte at `pos` (high nibble opcode, low nibble
/// payload length), the big-endian payload, and for the two data
/// sub-commands a width*height/8-byte block plus a two-byte trailer;
/// dispatches exactly as the wire format defines.  Returns the final
/// configuration at the wakeup command, or the first fatal error.
pub open spec fn spec_decode(bytes: Seq<u8>, pos: int, st: SpecState) -> Result<
    SpecState,
    BitstreamError,
>
    decreases bytes.len() - pos,
{
    if pos < 0 || pos >= bytes.len() {
        Err(spec_eof_error(bytes))
    } else {
        let cmd = bytes[pos];
        let opcode = cmd >> 4u8;
        let plen = (cmd & 0xfu8) as int;
        if pos + 1 + plen > bytes.len() {
            Err(spec_eof_error(bytes))
        } else {
            let payload = spec_be_value(bytes.subrange(pos + 1, pos + 1 + plen)) as u128;
            let next = pos + 1 + plen;
            if opcode == 0 {
                if payload == 1 || payload == 3 {
                    let bits = st.current_width * st.current_height;
                    if bits % 8 != 0 {
                        Err(BitstreamError {
                            offset: pos as usize,
                            kind: BitstreamErrorKind::MalformedBlockSize,
                        })
                    } else {
                        let nbytes = bits / 8;
                        if next + nbytes + 2 > bytes.len() {
                            Err(spec_eof_error(bytes))
                        } else {
                            let data = bytes.subrange(next, next + nbytes);
                            let st1 = if payload == 1 {
                                spec_apply_cram_block(st, data)
                            } else {
                                spec_apply_bram_block(st, data)
                            };
                            let t0 = bytes[next + nbytes];
                            let t1 = bytes[next + nbytes + 1];
                            let st2 = if t0 != 0 || t1 != 0 {
                                SpecState {
                                    trailer_warnings: st1.trailer_warnings.push(
                                        TrailerWarning {
                                            offset: (next + nbytes) as usize,
                                            first: t0,
                                            second: t1,
                                        },
                                    ),
                                    ..st1
                                }
                            } else {
                                st1
                            };
                            let after = next + nbytes + 2;
                            spec_decode(
                                bytes,
                                after,
                                SpecState { stream_offset: after as usize, ..st2 },
                            )
                        }
                    }
                } else if payload == 5 {
                    spec_decode(
                        bytes,
                        next,
                        SpecState { stream_offset: next as usize, crc_register: 0xffff, ..st },
                    )
                } else if payload == 6 {
                    Ok(SpecState { stream_offset: next as usize, ..st })
                } else {
                    Err(BitstreamError {
                        offset: pos as usize,
                        kind: BitstreamErrorKind::UnknownSubcommand { payload },
                    })
                }
            } else if opcode == 1 {
                spec_decode(
                    bytes,
                    next,
                    SpecState { stream_offset: next as usize, current_bank: payload, ..st },
                )
            } else if opcode == 2 {
                spec_decode(bytes, next, SpecState { stream_offset: next as usize, ..st })
            } else if opcode == 5 {
                spec_decode(
                    bytes,
                    next,
                    SpecState {
                        stream_offset: next as usize,
                        frequency_range: spec_freq(payload),
                        ..st
                    },
                )
            } else if opcode == 6 {
                spec_decode(
                    bytes,
                    next,
                    SpecState {
                        stream_offset: next as usize,
                        current_width: (payload + 1) as u128,
                        ..st
                    },
                )
            } else if opcode == 7 {
                spec_decode(
                    bytes,
                    next,
                    SpecState { stream_offset: next as usize, current_height: payload, ..st },
                )
            } else if opcode == 8 {
                spec_decode(
                    bytes,
                    next,
                    SpecState { stream_offset: next as usize, current_offset: payload, ..st },
                )
            } else if opcode == 9 {
                match spec_flags(payload) {
                    Some(fl) => spec_decode(
                        bytes,
                        next,
                        SpecState {
                            stream_offset: next as usize,
                            warmboot: fl.0,
                            nosleep: fl.1,
                            ..st
                        },
                    ),
                    None => Err(BitstreamError {
                        offset: pos as usize,
                        kind: BitstreamErrorKind::InvalidFeatureFlags { payload },
                    }),
                }
            } else {
                Err(BitstreamError {
                    offset: pos as usize,
                    kind: BitstreamErrorKind::UnknownCommand { opcode, payload },
                })
            }
        }
    }
}

/// A whole decode: preamble search from the first byte, then the
/// command interpreter on an initially empty configuration.
pub open spec fn spec_from_bytes(bytes: Seq<u8>) -> Result<SpecState, BitstreamError> {
    match spec_find_preamble(bytes, 0) {
        Some(end) => spec_decode(bytes, end, SpecState::init(end as usize)),
        None => Err(spec_eof_error(bytes)),
    }
}

/// Big-endian accumulation of `len` payload bytes starting at `pos`.
fn read_be_payload(bytes: &Vec<u8>, pos: usize, len: usize) -> (p: u128)
    requires
        pos + len <= bytes@.len(),
        len <= 15,
    ensures
        p == spec_be_value(bytes@.subrange(pos as int, pos as int + len as int)) as u128,
        p < PAYLOAD_LIMIT,
{
    let mut acc: u128 = 0;
    let mut i: usize = 0;
    let blen: usize = bytes.len();
    proof {
        assert(bytes@.subrange(pos as int, pos as int).len() == 0);
    }
    while i < len
        invariant
            i <= len,
            len <= 15,
            blen == bytes@.len(),
            pos + len <= bytes@.len(),
            acc as nat == spec_be_value(bytes@.subrange(pos as int, pos as int + i as int)),
            acc < pow256(i as nat),
        decreases len - i,
    {
        proof {
            lemma_pow256_monotone(i as nat, 14);
            lemma_pow256_limit();
            assert(pow256(15) == 256 * pow256(14));
            assert(pow256((i + 1) as nat) == 256 * pow256(i as nat));
        }
        let b: u8 = bytes[pos + i];
        acc = acc * 256 + (b as u128);
        proof {
            let s1 = bytes@.subrange(pos as int, pos as int + i as int + 1);
            assert(s1.drop_last() =~= bytes@.subrange(pos as int, pos as int + i as int));
            assert(s1.last() == bytes@[pos as int + i as int]);
            assert(spec_be_value(s1) == spec_be_value(s1.drop_last()) * 256 + s1.last() as nat);
        }
        i = i + 1;
    }
    proof {
        lemma_pow256_monotone(len as nat, 15);
        lemma_pow256_limit();
    }
    acc
}

/// Extent accumulation, executable form.
fn grow_extent(e: Extent, w: u128, h: u128, o: u128) -> (r: Extent)
    requires
        h < PAYLOAD_LIMIT,
        o < PAYLOAD_LIMIT,
    ensures
        r == spec_extent_grow(e, w, h, o),
{
    let reach: u128 = o + h;
    Extent {
        width: if w > e.width {
            w
        } else {
            e.width
        },
        height: if reach > e.height {
            reach
        } else {
            e.height
        },
    }
}

/// Decode the command stream of `bytes` starting at `start` (the first
/// byte after the preamble), on an initially empty configuration.
///
/// The result is exactly what the wire-format interpreter
/// `spec_decode` gives: the fully populated configuration on reaching
/// the wakeup command, or the first fatal error, with the offset that
/// triggered it.  Bytes after the wakeup command are never read.
pub fn decode_commands(bytes: &Vec<u8>, start: usize) -> (r: Result<
    Ice40Bitstream,
    BitstreamError,
>)
    ensures
        match r {
            Ok(bs) => {
                &&& bs@.wf()
                &&& spec_decode(bytes@, start as int, SpecState::init(start)) == Result::<
                    SpecState,
                    BitstreamError,
                >::Ok(bs@)
            },
            Err(e) => spec_decode(bytes@, start as int, SpecState::init(start)) == Result::<
                SpecState,
                BitstreamError,
            >::Err(e),
        },
{
    let mut bs = Ice40Bitstream::new(start);
    let mut pos = start;
    let n: usize = bytes.len();
    loop
        invariant
            n == bytes@.len(),
            bs@.wf(),
            bs@.stream_offset == pos,
            spec_decode(bytes@, start as int, SpecState::init(start)) == spec_decode(
                bytes@,
                pos as int,
                bs@,
            ),
        decreases bytes@.len() - pos,
    {
        let ghost prev = bs@;
        let ghost ppos = pos as int;
        if pos >= n {
            return Err(BitstreamError {
                offset: n,
                kind: BitstreamErrorKind::UnexpectedEndOfStream,
            });
        }
        let cmd: u8 = bytes[pos];
        let opcode: u8 = cmd >> 4;
        let plen: usize = (cmd & 0xf) as usize;
        proof {
            assert((cmd & 0xfu8) < 16) by (bit_vector);
        }
        if plen > n - (pos + 1) {
            return Err(BitstreamError {
                offset: n,
                kind: BitstreamErrorKind::UnexpectedEndOfStream,
            });
        }
        let payload: u128 = read_be_payload(bytes, pos + 1, plen);
        let next: usize = pos + 1 + plen;
        if opcode == 0 {
            if payload == 1 || payload == 3 {
                let w: u128 = bs.current_width;
                let h: u128 = bs.current_height;
                let off: u128 = bs.current_offset;
                let wm: u128 = w % 8;
                let hm: u128 = h % 8;
                proof {
                    lemma_mod_division_less_than_divisor(w as int, 8);
                    lemma_mod_division_less_than_divisor(h as int, 8);
                    lemma_mul_mod_noop_general(w as int, h as int, 8);
                    assert(wm * hm < 64) by (nonlinear_arith)
                        requires
                            wm < 8,
                            hm < 8,
                    ;
                }
                let m: u128 = (wm * hm) % 8;
                if m != 0 {
                    return Err(BitstreamError {
                        offset: pos,
                        kind: BitstreamErrorKind::MalformedBlockSize,
                    });
                }
                let nbytes128: u128 = if w == 0 || h == 0 {
                    0
                } else if h > u128::MAX / w {
                    proof {
                        let wi = w as int;
                        let hi = h as int;
                        let maxi = u128::MAX as int;
                        let q = maxi / wi;
                        lemma_fundamental_div_mod(maxi, wi);
                        lemma_mod_division_less_than_divisor(maxi, wi);
                        assert((q + 1) * wi <= hi * wi) by {
                            lemma_mul_inequality(q + 1, hi, wi);
                        }
                        assert((q + 1) * wi == q * wi + wi) by (nonlinear_arith);
                        assert(q * wi == wi * q) by (nonlinear_arith);
                        assert(hi * wi == wi * hi) by (nonlinear_arith);
                        assert(wi * hi > maxi);
                        assert(wi * hi >= 0x100000000000000000000000000000000int);
                        assert(0x100000000000000000000000000000000int / 8
                            == 0x20000000000000000000000000000000int);
                        lemma_div_is_ordered(
                            0x100000000000000000000000000000000int,
                            wi * hi,
                            8,
                        );
                        assert(wi * hi / 8 >= 0x20000000000000000000000000000000int);
                    }
                    return Err(BitstreamError {
                        offset: n,
                        kind: BitstreamErrorKind::UnexpectedEndOfStream,
                    });
                } else {
                    proof {
                        let wi = w as int;
                        let hi = h as int;
                        let maxi = u128::MAX as int;
                        let q = maxi / wi;
                        lemma_fundamental_div_mod(maxi, wi);
                        lemma_mod_division_less_than_divisor(maxi, wi);
                        assert(hi * wi <= q * wi) by {
                            lemma_mul_inequality(hi, q, wi);
                        }
                        assert(q * wi == wi * q) by (nonlinear_arith);
                        assert(hi * wi == wi * hi) by (nonlinear_arith);
                        assert(wi * hi <= maxi);
                    }
                    (w * h) / 8
                };
                let rem: usize = n - next;
                if rem < 2 || nbytes128 > (rem - 2) as u128 {
                    return Err(BitstreamError {
                        offset: n,
                        kind: BitstreamErrorKind::UnexpectedEndOfStream,
                    });
                }
                let nbytes: usize = nbytes128 as usize;
                proof {
                    assert(8 * (nbytes128 as int) == w as int * h as int) by {
                        lemma_fundamental_div_mod(w as int * h as int, 8);
                    }
                }
                let mut data: Vec<u8> = Vec::new();
                let mut i: usize = 0;
                proof {
                    assert(data@ =~= bytes@.subrange(next as int, next as int));
                }
                while i < nbytes
                    invariant
                        i <= nbytes,
                        n == bytes@.len(),
                        next + nbytes <= bytes@.len(),
                        data@ == bytes@.subrange(next as int, next as int + i as int),
                    decreases nbytes - i,
                {
                    data.push(bytes[next + i]);
                    proof {
                        assert(data@ =~= bytes@.subrange(
                            next as int,
                            next as int + i as int + 1,
                        ));
                    }
                    i = i + 1;
                }
                let t0: u8 = bytes[next + nbytes];
                let t1: u8 = bytes[next + nbytes + 1];
                let bw = BlockWrite { bank: bs.current_bank, width: w, height: h, offset: off, data };
                let ghost st1 = if payload == 1 {
                    spec_apply_cram_block(prev, bw.data@)
                } else {
                    spec_apply_bram_block(prev, bw.data@)
                };
                if payload == 1 {
                    bs.cram_extent = grow_extent(bs.cram_extent, w, h, off);
                    bs.cram_store.push_write(bw);
                } else {
                    bs.bram_extent = grow_extent(bs.bram_extent, w, h, off);
                    bs.bram_store.push_write(bw);
                }
                proof {
                    assert(bs@ =~= st1);
                }
                if t0 != 0 || t1 != 0 {
                    bs.trailer_warnings.push(TrailerWarning {
                        offset: next + nbytes,
                        first: t0,
                        second: t1,
                    });
                }
                pos = next + nbytes + 2;
                bs.stream_offset = pos;
                proof {
                    assert(bs@.wf()) by {
                        assert(forall|j: int|
                            0 <= j < prev.cram_writes.len() ==> bs@.cram_writes[j]
                                == #[trigger] prev.cram_writes[j]);
                        assert(forall|j: int|
                            0 <= j < prev.bram_writes.len() ==> bs@.bram_writes[j]
                                == #[trigger] prev.bram_writes[j]);
                        assert(spec_block_write(prev, bw.data@).wf());
                    }
                    assert(spec_decode(bytes@, ppos, prev) == spec_decode(
                        bytes@,
                        pos as int,
                        bs@,
                    ));
                }
            } else if payload == 5 {
                bs.crc_register = 0xffff;
                pos = next;
                bs.stream_offset = pos;
                proof {
                    assert(spec_decode(bytes@, ppos, prev) == spec_decode(
                        bytes@,
                        pos as int,
                        bs@,
                    ));
                }
            } else if payload == 6 {
                bs.stream_offset = next;
                proof {
                    assert(spec_decode(bytes@, ppos, prev) == Result::<
                        SpecState,
                        BitstreamError,
                    >::Ok(bs@));
                }
                return Ok(bs);
            } else {
                return Err(BitstreamError {
                    offset: pos,
                    kind: BitstreamErrorKind::UnknownSubcommand { payload },
                });
            }
        } else if opcode == 1 {
            bs.current_bank = payload;
            pos = next;
            bs.stream_offset = pos;
            proof {
                assert(spec_decode(bytes@, ppos, prev) == spec_decode(bytes@, pos as int, bs@));
            }
        } else if opcode == 2 {
            pos = next;
            bs.stream_offset = pos;
            proof {
                assert(spec_decode(bytes@, ppos, prev) == spec_decode(bytes@, pos as int, bs@));
            }
        } else if opcode == 5 {
            bs.frequency_range = if payload == 0 {
                FrequencyRange::Low
            } else if payload == 1 {
                FrequencyRange::Medium
            } else if payload == 2 {
                FrequencyRange::High
            } else {
                FrequencyRange::Unknown(payload)
            };
            pos = next;
            bs.stream_offset = pos;
            proof {
                assert(spec_decode(bytes@, ppos, prev) == spec_decode(bytes@, pos as int, bs@));
            }
        } else if opcode == 6 {
            bs.current_width = payload + 1;
            pos = next;
            bs.stream_offset = pos;
            proof {
                assert(spec_decode(bytes@, ppos, prev) == spec_decode(bytes@, pos as int, bs@));
            }
        } else if opcode == 7 {
            bs.current_height = payload;
            pos = next;
            bs.stream_offset = pos;
            proof {
                assert(spec_decode(bytes@, ppos, prev) == spec_decode(bytes@, pos as int, bs@));
            }
        } else if opcode == 8 {
            bs.current_offset = payload;
            pos = next;
            bs.stream_offset = pos;
            proof {
                assert(spec_decode(bytes@, ppos, prev) == spec_decode(bytes@, pos as int, bs@));
            }
        } else if opcode == 9 {
            if payload == 0 {
                bs.warmboot = false;
                bs.nosleep = false;
            } else if payload == 1 {
                bs.warmboot = false;
                bs.nosleep = true;
            } else if payload == 32 {
                bs.warmboot = true;
                bs.nosleep = false;
            } else if payload == 33 {
                bs.warmboot = true;
                bs.nosleep = true;
            } else {
                return Err(BitstreamError {
                    offset: pos,
                    kind: BitstreamErrorKind::InvalidFeatureFlags { payload },
                });
            }
            pos = next;
            bs.stream_offset = pos;
            proof {
                assert(spec_decode(bytes@, ppos, prev) == spec_decode(bytes@, pos as int, bs@));
            }
        } else {
            return Err(BitstreamError {
                offset: pos,
                kind: BitstreamErrorKind::UnknownCommand { opcode, payload },
            });
        }
    }
}

impl Ice40Bitstream {
    /// Decode one whole bitstream: scan for the preamble from the very
    /// first byte, then run the command decoder until the wakeup
    /// command.  Succeeds with the populated configuration exactly when
    /// the wire-format interpreter `spec_from_bytes` does, and fails
    /// with the same typed error otherwise.
    pub fn from_bytes(bytes: &Vec<u8>) -> (r: Result<Ice40Bitstream, BitstreamError>)
        ensures
            match r {
                Ok(bs) => {
                    &&& bs@.wf()
                    &&& spec_from_bytes(bytes@) == Result::<SpecState, BitstreamError>::Ok(bs@)
                },
                Err(e) => spec_from_bytes(bytes@) == Result::<SpecState, BitstreamError>::Err(e),
            },
    {
        match find_preamble(bytes, 0) {
            Ok(end) => decode_commands(bytes, end),
            Err(e) => Err(e),
        }
    }
}

} // verus!
