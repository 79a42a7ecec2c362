use scuffed::mkv::{parse_ebml_header, vid, MkvError, EBML_HEADER};

#[test]
fn vint() {
    let cases: [(&[u8], u64); 4] = [
        (&[0b1000_0010], 2),
        (&[0b0100_0000, 0b0000_0010], 2),
        (&[0b0010_0000, 0b0000_0000, 0b0000_0010], 2),
        (&[0b0001_0000, 0b0000_0000, 0b0000_0000, 0b0000_0010], 2),
    ];
    for (bytes, expected) in cases {
        let value = scuffed::mkv::vint(bytes);
        assert_eq!(value, Ok((expected, bytes.len())));
    }
}

#[test]
fn vint_eight_bytes_keeps_no_marker_bits() {
    let bytes = [0x01, 0xff, 0, 0, 0, 0, 0, 0x2a];
    assert_eq!(scuffed::mkv::vint(&bytes), Ok((0xff00_0000_0000_2a, 8)));
}

#[test]
fn vint_errors() {
    assert_eq!(scuffed::mkv::vint(&[]), Err(MkvError::NotEnoughData));
    assert_eq!(scuffed::mkv::vint(&[0x00, 1, 2]), Err(MkvError::UnsupportedVint(8)));
    assert_eq!(scuffed::mkv::vint(&[0x20, 0]), Err(MkvError::NotEnoughData));
}

#[test]
fn vid_keeps_marker() {
    assert_eq!(vid(&[0x1a, 0x45, 0xdf, 0xa3, 0x99]), Ok((0x1a45dfa3, 4)));
    assert_eq!(vid(&[0x81]), Ok((0x81, 1)));
    assert_eq!(vid(&[0x08, 0, 0, 0, 0]), Err(MkvError::UnsupportedVid(4)));
}

#[test]
fn ebml_header() {
    let bytes = [0x1a, 0x45, 0xdf, 0xa3, 0x84, 0, 0, 0, 0];
    assert_eq!(parse_ebml_header(&bytes), Ok((4, 5)));
    let wrong = [0x81, 0x84];
    assert_eq!(parse_ebml_header(&wrong), Err(MkvError::UnexpectedId(EBML_HEADER, 0x81)));
}
