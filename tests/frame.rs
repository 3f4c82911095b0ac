use uart_lab::frame::{build_frame, hexsum, parse_frame, FrameError, FrameField};
use uart_lab::line::LineBuffer;

#[test]
fn roundtrip() {
    let f = build_frame(42, 8);
    let p = parse_frame(&f).unwrap();
    assert_eq!(p.seq, 42);
    assert_eq!(p.len, 8);
    assert_eq!(hexsum(&p.pay_hex).unwrap(), p.sum);
}

#[test]
fn built_frame_text_is_exact() {
    assert_eq!(build_frame(254, 3), "@@ SEQ=254 LEN=3 PAY=FEFF00 SUM=FD ##");
    assert_eq!(build_frame(0, 0), "@@ SEQ=0 LEN=0 PAY= SUM=00 ##");
}

#[test]
fn round_trip_at_the_largest_sequence() {
    let line = build_frame(u64::MAX, 4);
    let f = parse_frame(&line).unwrap();
    assert_eq!(f.seq, u64::MAX);
    assert_eq!(f.len, 4);
    assert_eq!(f.pay_hex, "FF000102");
    assert_eq!(f.sum, 0x02);
}

#[test]
fn flipped_digit_is_a_checksum_mismatch() {
    let line = build_frame(7, 4);
    let bad = line.replacen("PAY=07", "PAY=17", 1);
    assert!(matches!(parse_frame(&bad), Err(FrameError::ChecksumMismatch { .. })));
    let bad_low = line.replacen("PAY=07", "PAY=0A", 1);
    match parse_frame(&bad_low) {
        Err(FrameError::ChecksumMismatch { computed, received }) => {
            assert_eq!(received, 0x22);
            assert_eq!(computed, 0x25);
        }
        _ => panic!("expected a checksum mismatch"),
    }
}

#[test]
fn frame_error_variants() {
    assert!(matches!(parse_frame("LEN=0 PAY= SUM=00"), Err(FrameError::Missing(FrameField::Sequence))));
    assert!(matches!(parse_frame("SEQ=1 PAY= SUM=00"), Err(FrameError::Missing(FrameField::Length))));
    assert!(matches!(parse_frame("SEQ=1 LEN=0 SUM=00"), Err(FrameError::Missing(FrameField::Payload))));
    assert!(matches!(parse_frame("SEQ=1 LEN=0 PAY="), Err(FrameError::Missing(FrameField::Checksum))));
    assert!(matches!(parse_frame("SEQ=x LEN=0 PAY= SUM=00"), Err(FrameError::BadNumber(FrameField::Sequence))));
    assert!(matches!(parse_frame("SEQ=1 LEN=1 PAY=0102 SUM=03"), Err(FrameError::LengthMismatch)));
    assert!(matches!(parse_frame("SEQ=1 LEN=1 PAY=ZZ SUM=03"), Err(FrameError::BadHex)));
    assert!(matches!(hexsum("ABC"), Err(FrameError::OddHexLength)));
    assert_eq!(hexsum("0102ff").unwrap(), 0x02);
}

#[test]
fn fields_in_any_order() {
    let f = parse_frame("## SUM=03 PAY=0102 LEN=2 SEQ=9 @@").unwrap();
    assert_eq!((f.seq, f.len, f.pay_hex.as_str(), f.sum), (9, 2, "0102", 3));
}

#[test]
fn line_buffer_splits_at_crlf() {
    let mut b = LineBuffer::new();
    let mut got = Vec::new();
    for &byte in b"AB\rC\r\n\r\nX" {
        if let Some(line) = b.push(byte) {
            got.push(line);
        }
    }
    assert_eq!(got, vec![b"AB\rC".to_vec(), Vec::new()]);
    assert_eq!(b.pending, b"X".to_vec());
}

#[test]
fn hex_pairs_take_no_sign() {
    assert!(matches!(hexsum("+F"), Err(FrameError::BadHex)));
    assert!(matches!(parse_frame("SEQ=1 LEN=1 PAY=+F SUM=0F"), Err(FrameError::BadHex)));
    assert!(matches!(parse_frame("SEQ=1 LEN=1 PAY=0F SUM=F"), Err(FrameError::BadNumber(FrameField::Checksum))));
    assert!(matches!(parse_frame("SEQ=1 LEN=1 PAY=0F SUM=00F"), Err(FrameError::BadNumber(FrameField::Checksum))));
    assert!(matches!(parse_frame("SEQ=1 LEN=1 PAY=0F SUM=+F"), Err(FrameError::BadNumber(FrameField::Checksum))));
    assert_eq!(parse_frame("SEQ=1 LEN=1 PAY=0f SUM=0F").unwrap().sum, 0x0F);
}
