use vstd::prelude::*;

use crate::store::{store_cell, BitStore, SpecWrite};

verus! {

/// Payloads are framed as at most 15 big-endian bytes, so every payload
/// value is strictly below 2^120.  Decoder state derived from payloads
/// stays within this bound (the one exception, `current_width`, is
/// payload + 1 and may reach it).
pub const PAYLOAD_LIMIT: u128 = 0x1000000000000000000000000000000;

/// Oscillator frequency range selected by the set-frequency command.
#[derive(Debug, Clone, Copy, PartialEq, Eq, Structural)]
pub enum FrequencyRange {
    /// No set-frequency command has been seen yet.
    Undefined,
    Low,
    Medium,
    High,
    /// A payload other than 0, 1 or 2, kept verbatim.
    Unknown(u128),
}

/// Running maximum extent (in bits) ever requested for CRAM or BRAM:
/// `width` is the largest block width seen, `height` the largest
/// `offset + height` seen.
#[derive(Debug, Clone, Copy, PartialEq, Eq, Structural)]
pub struct Extent {
    pub width: u128,
    pub height: u128,
}

/// A non-fatal integrity warning: a CRAM/BRAM block trailer whose two
/// bytes were not both zero.  `offset` is the position of the first
/// trailer byte.
#[derive(Debug, Clone, Copy, PartialEq, Eq, Structural)]
pub struct TrailerWarning {
    pub offset: usize,
    pub first: u8,
    pub second: u8,
}

/// Mathematical image of a whole device configuration.  Integer fields
/// keep their executable types (spec arithmetic on them is exact); the
/// two stores and the warning list become sequences.
#[verifier::ext_equal]
pub ghost struct SpecState {
    pub stream_offset: usize,
    pub current_bank: u128,
    pub current_width: u128,
    pub current_height: u128,
    pub current_offset: u128,
    pub cram_extent: Extent,
    pub bram_extent: Extent,
    pub cram_writes: Seq<SpecWrite>,
    pub bram_writes: Seq<SpecWrite>,
    pub crc_register: u16,
    pub warmboot: bool,
    pub nosleep: bool,
    pub frequency_range: FrequencyRange,
    pub trailer_warnings: Seq<TrailerWarning>,
}

impl SpecState {
    /// The configuration a decode starts from, positioned at `start`
    /// (the first byte after the preamble).
    pub open spec fn init(start: usize) -> SpecState {
        SpecState {
            stream_offset: start,
            current_bank: 0,
            current_width: 0,
            current_height: 0,
            current_offset: 0,
            cram_extent: Extent { width: 0, height: 0 },
            bram_extent: Extent { width: 0, height: 0 },
            cram_writes: Seq::empty(),
            bram_writes: Seq::empty(),
            crc_register: 0,
            warmboot: false,
            nosleep: false,
            frequency_range: FrequencyRange::Undefined,
            trailer_warnings: Seq::empty(),
        }
    }

    /// Well-formedness: every dimension register is payload-bounded and
    /// every recorded block write carries a whole number of data bytes.
    /// Established by `init` and preserved by every command.
    pub open spec fn wf(self) -> bool {
        &&& self.current_width <= PAYLOAD_LIMIT
        &&& self.current_height < PAYLOAD_LIMIT
        &&& self.current_offset < PAYLOAD_LIMIT
        &&& forall|i: int|
            0 <= i < self.cram_writes.len() ==> (#[trigger] self.cram_writes[i]).wf()
        &&& forall|i: int|
            0 <= i < self.bram_writes.len() ==> (#[trigger] self.bram_writes[i]).wf()
    }
}

/// The decoded device configuration: everything a successful decode of
/// one bitstream yields.
pub struct Ice40Bitstream {
    /// Bytes consumed so far; after a successful decode, the position
    /// just past the wakeup command.
    pub stream_offset: usize,
    /// Active bank index, set by the set-bank command.
    pub current_bank: u128,
    /// Width in bits of the next data block; stored as payload + 1.
    pub current_width: u128,
    /// Height in bits of the next data block; stored as the payload.
    pub current_height: u128,
    /// Row offset of the next data block within its bank.
    pub current_offset: u128,
    pub cram_extent: Extent,
    pub bram_extent: Extent,
    pub cram_store: BitStore,
    pub bram_store: BitStore,
    /// Reset to 0xFFFF by the reset-CRC sub-command; tracked but never
    /// otherwise updated or checked.
    pub crc_register: u16,
    pub warmboot: bool,
    pub nosleep: bool,
    pub frequency_range: FrequencyRange,
    /// Non-fatal trailer mismatches, in the order they were seen.
    pub trailer_warnings: Vec<TrailerWarning>,
}

impl View for Ice40Bitstream {
    type V = SpecState;

    open spec fn view(&self) -> SpecState {
        SpecState {
            stream_offset: self.stream_offset,
            current_bank: self.current_bank,
            current_width: self.current_width,
            current_height: self.current_height,
            current_offset: self.current_offset,
            cram_extent: self.cram_extent,
            bram_extent: self.bram_extent,
            cram_writes: self.cram_store@,
            bram_writes: self.bram_store@,
            crc_register: self.crc_register,
            warmboot: self.warmboot,
            nosleep: self.nosleep,
            frequency_range: self.frequency_range,
            trailer_warnings: self.trailer_warnings@,
        }
    }
}

impl Ice40Bitstream {
    /// An empty configuration positioned at `start`.
    pub fn new(start: usize) -> (bs: Ice40Bitstream)
        ensures
            bs@ == SpecState::init(start),
            bs@.wf(),
    {
        let bs = Ice40Bitstream {
            stream_offset: start,
            current_bank: 0,
            current_width: 0,
            current_height: 0,
            current_offset: 0,
            cram_extent: Extent { width: 0, height: 0 },
            bram_extent: Extent { width: 0, height: 0 },
            cram_store: BitStore::new(),
            bram_store: BitStore::new(),
            crc_register: 0,
            warmboot: false,
            nosleep: false,
            frequency_range: FrequencyRange::Undefined,
            trailer_warnings: Vec::new(),
        };
        proof {
            assert(bs@ =~= SpecState::init(start));
        }
        bs
    }

    pub open spec fn wf(self) -> bool {
        self@.wf()
    }

    /// Current value of CRAM cell (x, y) in `bank`.
    pub fn cram_cell(&self, bank: u128, x: u128, y: u128) -> (b: bool)
        requires
            self.wf(),
        ensures
            b == store_cell(self@.cram_writes, bank as nat, x as nat, y as nat),
    {
        self.cram_store.cell(bank, x, y)
    }

    /// Current value of BRAM cell (x, y) in `bank`.
    pub fn bram_cell(&self, bank: u128, x: u128, y: u128) -> (b: bool)
        requires
            self.wf(),
        ensures
            b == store_cell(self@.bram_writes, bank as nat, x as nat, y as nat),
    {
        proof {
            assert forall|i: int|
                0 <= i < self.bram_store@.len() implies (#[trigger] self.bram_store@[i]).wf() by {
                assert(self@.bram_writes[i].wf());
            }
        }
        self.bram_store.cell(bank, x, y)
    }
}

} // verus!
