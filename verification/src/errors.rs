use vstd::prelude::*;

verus! {

/// Why a decode attempt failed.
///
/// Variants that carry the raw opcode or payload do so to make
/// malformed-bitstream diagnosis possible from the error alone.
#[derive(Debug, Clone, Copy, PartialEq, Eq, Structural)]
pub enum BitstreamErrorKind {
    /// The byte source ran out while a preamble, command byte, payload
    /// byte, data-block byte or trailer byte was still expected.
    UnexpectedEndOfStream,
    /// An opcode outside the defined command set (10-15), or one of the
    /// reserved opcodes 3 and 4.
    UnknownCommand { opcode: u8, payload: u128 },
    /// An opcode-0 payload outside the known sub-command set
    /// {0x01, 0x03, 0x05, 0x06}.
    UnknownSubcommand { payload: u128 },
    /// An opcode-9 payload outside the four legal flag encodings
    /// {0, 1, 32, 33}.
    InvalidFeatureFlags { payload: u128 },
    /// A CRAM/BRAM data block whose bit count (width * height) is not a
    /// multiple of 8 and therefore has no whole number of data bytes.
    MalformedBlockSize,
}

/// A fatal decode error: the kind of failure together with the byte
/// offset at which it was detected.
///
/// For a command-level failure the offset is that of the command byte
/// that triggered it; for an exhausted source it is the total length of
/// the input, i.e. the number of bytes consumed before the missing byte.
#[derive(Debug, Clone, Copy, PartialEq, Eq, Structural)]
pub struct BitstreamError {
    pub offset: usize,
    pub kind: BitstreamErrorKind,
}

} // verus!
