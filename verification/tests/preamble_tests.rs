use ice40_bitstream::errors::{BitstreamError, BitstreamErrorKind};
use ice40_bitstream::preamble::find_preamble;

#[test]
fn finds_preamble_after_padding() {
    // Marker at position 3 and nowhere earlier: exactly 3 + 4 bytes consumed.
    let bytes: Vec<u8> = vec![0x00, 0xff, 0x12, 0x7e, 0xaa, 0x99, 0x7e, 0x55];
    assert_eq!(find_preamble(&bytes, 0), Ok(7));
}

#[test]
fn finds_preamble_at_start() {
    let bytes: Vec<u8> = vec![0x7e, 0xaa, 0x99, 0x7e];
    assert_eq!(find_preamble(&bytes, 0), Ok(4));
}

#[test]
fn finds_preamble_despite_partial_match() {
    // A stray 0x7e starts a partial match that must not hide the real marker.
    let bytes: Vec<u8> = vec![0x7e, 0x7e, 0xaa, 0x99, 0x7e];
    assert_eq!(find_preamble(&bytes, 0), Ok(5));
}

#[test]
fn finds_first_of_two_preambles() {
    let bytes: Vec<u8> = vec![
        0x42, 0x7e, 0xaa, 0x99, 0x7e, 0x00, 0x7e, 0xaa, 0x99, 0x7e,
    ];
    assert_eq!(find_preamble(&bytes, 0), Ok(5));
}

#[test]
fn missing_preamble_is_recoverable_error() {
    let bytes: Vec<u8> = vec![0x01, 0x02, 0x03, 0x7e, 0xaa, 0x99];
    assert_eq!(
        find_preamble(&bytes, 0),
        Err(BitstreamError {
            offset: 6,
            kind: BitstreamErrorKind::UnexpectedEndOfStream,
        })
    );
}

#[test]
fn empty_input_is_recoverable_error() {
    let bytes: Vec<u8> = Vec::new();
    assert_eq!(
        find_preamble(&bytes, 0),
        Err(BitstreamError {
            offset: 0,
            kind: BitstreamErrorKind::UnexpectedEndOfStream,
        })
    );
}
