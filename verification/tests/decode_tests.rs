use ice40_bitstream::config::{Extent, FrequencyRange, Ice40Bitstream, TrailerWarning};
use ice40_bitstream::errors::{BitstreamError, BitstreamErrorKind};

/// A preamble followed by the given command bytes.
fn stream(cmds: &[u8]) -> Vec<u8> {
    let mut bytes: Vec<u8> = vec![0x7e, 0xaa, 0x99, 0x7e];
    bytes.extend_from_slice(cmds);
    bytes
}

#[test]
fn payload_framing_two_bytes() {
    // Command byte 0x62: opcode 6, two payload bytes 0x00 0x27 = 39,
    // so the stored width is payload + 1 = 40.
    let bytes = stream(&[0x62, 0x00, 0x27, 0x01, 0x06]);
    let bs = Ice40Bitstream::from_bytes(&bytes).unwrap();
    assert_eq!(bs.current_width, 40);
}

#[test]
fn payload_framing_four_bytes() {
    let bytes = stream(&[0x64, 0x00, 0x00, 0x00, 0x01, 0x01, 0x06]);
    let bs = Ice40Bitstream::from_bytes(&bytes).unwrap();
    assert_eq!(bs.current_width, 2);
}

#[test]
fn payload_framing_fifteen_bytes_not_truncated() {
    // Opcode 8 with the maximal 15-byte payload: the full 120-bit value
    // must land in current_offset unchanged.
    let bytes = stream(&[
        0x8f, 0x01, 0x01, 0x01, 0x01, 0x01, 0x01, 0x01, 0x01, 0x01, 0x01, 0x01, 0x01, 0x01,
        0x01, 0x01, 0x01, 0x06,
    ]);
    let bs = Ice40Bitstream::from_bytes(&bytes).unwrap();
    assert_eq!(bs.current_offset, 0x010101010101010101010101010101u128);
}

#[test]
fn width_height_asymmetry() {
    // Opcode 6 payload 0 gives width 1; opcode 7 payload 0 gives height 0.
    let bytes = stream(&[0x60, 0x70, 0x01, 0x06]);
    let bs = Ice40Bitstream::from_bytes(&bytes).unwrap();
    assert_eq!(bs.current_width, 1);
    assert_eq!(bs.current_height, 0);
}

#[test]
fn set_bank() {
    let bytes = stream(&[0x11, 0x03, 0x01, 0x06]);
    let bs = Ice40Bitstream::from_bytes(&bytes).unwrap();
    assert_eq!(bs.current_bank, 3);
}

#[test]
fn feature_flags_all_legal_payloads() {
    let expectations: [(u8, bool, bool); 4] = [
        (0, false, false),
        (1, false, true),
        (32, true, false),
        (33, true, true),
    ];
    for &(payload, warmboot, nosleep) in expectations.iter() {
        let bytes = stream(&[0x91, payload, 0x01, 0x06]);
        let bs = Ice40Bitstream::from_bytes(&bytes).unwrap();
        assert_eq!(bs.warmboot, warmboot);
        assert_eq!(bs.nosleep, nosleep);
    }
}

#[test]
fn feature_flags_invalid_payload() {
    let bytes = stream(&[0x91, 0x02, 0x01, 0x06]);
    let e = Ice40Bitstream::from_bytes(&bytes).err().unwrap();
    assert_eq!(
        e,
        BitstreamError {
            offset: 4,
            kind: BitstreamErrorKind::InvalidFeatureFlags { payload: 2 },
        }
    );
}

#[test]
fn frequency_ranges() {
    let expectations: [(u8, FrequencyRange); 4] = [
        (0, FrequencyRange::Low),
        (1, FrequencyRange::Medium),
        (2, FrequencyRange::High),
        (7, FrequencyRange::Unknown(7)),
    ];
    for &(payload, expected) in expectations.iter() {
        let bytes = stream(&[0x51, payload, 0x01, 0x06]);
        let bs = Ice40Bitstream::from_bytes(&bytes).unwrap();
        assert_eq!(bs.frequency_range, expected);
    }
}

#[test]
fn frequency_range_starts_undefined() {
    let bytes = stream(&[0x01, 0x06]);
    let bs = Ice40Bitstream::from_bytes(&bytes).unwrap();
    assert_eq!(bs.frequency_range, FrequencyRange::Undefined);
}

#[test]
fn crc_reset_sets_register() {
    let bytes = stream(&[0x01, 0x05, 0x01, 0x06]);
    let bs = Ice40Bitstream::from_bytes(&bytes).unwrap();
    assert_eq!(bs.crc_register, 0xffff);
}

#[test]
fn crc_check_command_is_inert() {
    let bytes = stream(&[0x20, 0x01, 0x06]);
    let bs = Ice40Bitstream::from_bytes(&bytes).unwrap();
    assert_eq!(bs.crc_register, 0);
}

#[test]
fn wakeup_terminates_ignoring_trailing_bytes() {
    // Anything after the wakeup command is never read: even bytes that
    // would otherwise be fatal cannot change the outcome.
    let bytes = stream(&[0x01, 0x06, 0xa0, 0xff, 0xff]);
    let bs = Ice40Bitstream::from_bytes(&bytes).unwrap();
    assert_eq!(bs.stream_offset, 6);
}

#[test]
fn cram_bit_mapping_msb_first() {
    // An 8 x 8 block at offset 0; row 0 is the single byte 0b1011_0000:
    // cells (0,0), (2,0), (3,0) are set, the rest of the row clear.
    let bytes = stream(&[
        0x61, 0x07, // width 8
        0x71, 0x08, // height 8
        0x81, 0x00, // offset 0
        0x01, 0x01, // CRAM data block
        0xb0, 0x00, 0x00, 0x00, 0x00, 0x00, 0x00, 0x00, // 64 bits of data
        0x00, 0x00, // trailer
        0x01, 0x06, // wakeup
    ]);
    let bs = Ice40Bitstream::from_bytes(&bytes).unwrap();
    let expected_row0: [bool; 8] = [true, false, true, true, false, false, false, false];
    for x in 0u128..8 {
        assert_eq!(bs.cram_cell(0, x, 0), expected_row0[x as usize]);
        assert_eq!(bs.cram_cell(0, x, 1), false);
    }
}

#[test]
fn end_to_end_scenario() {
    // Preamble, bank 1, width 8, height 8, offset 0, a CRAM block of
    // all-ones, clean trailer, wakeup.
    let bytes = stream(&[
        0x11, 0x01, // bank 1
        0x61, 0x07, // width 8
        0x71, 0x08, // height 8
        0x81, 0x00, // offset 0
        0x01, 0x01, // CRAM data block
        0xff, 0xff, 0xff, 0xff, 0xff, 0xff, 0xff, 0xff, // 64 bits of data
        0x00, 0x00, // trailer
        0x01, 0x06, // wakeup
    ]);
    let bs = Ice40Bitstream::from_bytes(&bytes).unwrap();
    assert_eq!(bs.cram_extent, Extent { width: 8, height: 8 });
    for x in 0u128..8 {
        assert!(bs.cram_cell(1, x, 0));
        // Bank 0 was never written.
        assert!(!bs.cram_cell(0, x, 0));
    }
    assert!(bs.trailer_warnings.is_empty());
}

#[test]
fn extent_idempotent_on_repeated_identical_blocks() {
    let once = stream(&[
        0x61, 0x07, 0x71, 0x08, 0x81, 0x00, //
        0x01, 0x01, 0xff, 0xff, 0xff, 0xff, 0xff, 0xff, 0xff, 0xff, 0x00, 0x00, //
        0x01, 0x06,
    ]);
    let twice = stream(&[
        0x61, 0x07, 0x71, 0x08, 0x81, 0x00, //
        0x01, 0x01, 0xff, 0xff, 0xff, 0xff, 0xff, 0xff, 0xff, 0xff, 0x00, 0x00, //
        0x01, 0x01, 0xff, 0xff, 0xff, 0xff, 0xff, 0xff, 0xff, 0xff, 0x00, 0x00, //
        0x01, 0x06,
    ]);
    let bs_once = Ice40Bitstream::from_bytes(&once).unwrap();
    let bs_twice = Ice40Bitstream::from_bytes(&twice).unwrap();
    assert_eq!(bs_once.cram_extent, bs_twice.cram_extent);
    assert_eq!(bs_twice.cram_extent, Extent { width: 8, height: 8 });
}

#[test]
fn bram_block_is_independent_of_cram() {
    let bytes = stream(&[
        0x61, 0x07, // width 8
        0x71, 0x01, // height 1
        0x81, 0x02, // offset 2
        0x01, 0x03, // BRAM data block
        0xff, // 8 bits of data
        0x00, 0x00, // trailer
        0x01, 0x06, // wakeup
    ]);
    let bs = Ice40Bitstream::from_bytes(&bytes).unwrap();
    assert_eq!(bs.bram_extent, Extent { width: 8, height: 3 });
    assert_eq!(bs.cram_extent, Extent { width: 0, height: 0 });
    assert!(bs.bram_cell(0, 0, 2));
    assert!(!bs.bram_cell(0, 0, 1));
    assert!(!bs.cram_cell(0, 0, 2));
}

#[test]
fn trailer_mismatch_is_nonfatal_warning() {
    let bytes = stream(&[
        0x61, 0x07, // width 8
        0x71, 0x01, // height 1
        0x81, 0x00, // offset 0
        0x01, 0x01, // CRAM data block
        0xaa, // 8 bits of data
        0xab, 0x00, // bad trailer
        0x01, 0x06, // wakeup
    ]);
    let bs = Ice40Bitstream::from_bytes(&bytes).unwrap();
    // First trailer byte sits after preamble (4) + 3 commands (6) +
    // block command (2) + 1 data byte = offset 13.
    assert_eq!(
        bs.trailer_warnings,
        vec![TrailerWarning { offset: 13, first: 0xab, second: 0x00 }]
    );
    assert!(bs.cram_cell(0, 0, 0));
}

#[test]
fn unknown_command_high_opcode() {
    let bytes = stream(&[0xa0, 0x01, 0x06]);
    let e = Ice40Bitstream::from_bytes(&bytes).err().unwrap();
    assert_eq!(
        e,
        BitstreamError {
            offset: 4,
            kind: BitstreamErrorKind::UnknownCommand { opcode: 10, payload: 0 },
        }
    );
}

#[test]
fn reserved_opcodes_are_unknown_commands() {
    for &op in [0x30u8, 0x40u8].iter() {
        let bytes = stream(&[op, 0x01, 0x06]);
        let e = Ice40Bitstream::from_bytes(&bytes).err().unwrap();
        assert_eq!(
            e,
            BitstreamError {
                offset: 4,
                kind: BitstreamErrorKind::UnknownCommand { opcode: op >> 4, payload: 0 },
            }
        );
    }
}

#[test]
fn unknown_subcommand() {
    let bytes = stream(&[0x01, 0x02, 0x01, 0x06]);
    let e = Ice40Bitstream::from_bytes(&bytes).err().unwrap();
    assert_eq!(
        e,
        BitstreamError {
            offset: 4,
            kind: BitstreamErrorKind::UnknownSubcommand { payload: 2 },
        }
    );
}

#[test]
fn malformed_block_size() {
    // width 3, height 1: 3 bits is not a whole number of bytes.
    let bytes = stream(&[0x61, 0x02, 0x71, 0x01, 0x01, 0x01, 0x01, 0x06]);
    let e = Ice40Bitstream::from_bytes(&bytes).err().unwrap();
    assert_eq!(
        e,
        BitstreamError {
            offset: 8,
            kind: BitstreamErrorKind::MalformedBlockSize,
        }
    );
}

#[test]
fn truncated_payload_is_end_of_stream() {
    let bytes = stream(&[0x62, 0x00]);
    let e = Ice40Bitstream::from_bytes(&bytes).err().unwrap();
    assert_eq!(
        e,
        BitstreamError {
            offset: bytes.len(),
            kind: BitstreamErrorKind::UnexpectedEndOfStream,
        }
    );
}

#[test]
fn truncated_block_is_end_of_stream() {
    let bytes = stream(&[0x61, 0x07, 0x71, 0x08, 0x01, 0x01, 0xff, 0xff, 0xff]);
    let e = Ice40Bitstream::from_bytes(&bytes).err().unwrap();
    assert_eq!(
        e,
        BitstreamError {
            offset: bytes.len(),
            kind: BitstreamErrorKind::UnexpectedEndOfStream,
        }
    );
}

#[test]
fn missing_wakeup_is_end_of_stream() {
    let bytes = stream(&[0x11, 0x01]);
    let e = Ice40Bitstream::from_bytes(&bytes).err().unwrap();
    assert_eq!(
        e,
        BitstreamError {
            offset: bytes.len(),
            kind: BitstreamErrorKind::UnexpectedEndOfStream,
        }
    );
}

#[test]
fn stream_offset_counts_every_byte() {
    let bytes = stream(&[0x11, 0x01, 0x51, 0x02, 0x01, 0x06]);
    let bs = Ice40Bitstream::from_bytes(&bytes).unwrap();
    assert_eq!(bs.stream_offset, bytes.len());
}
