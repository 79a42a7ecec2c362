use scuffed::nal::{frame_nal_units, parse_nal_units, BitstreamFraming};
use scuffed::rbsp::{escape_emulation, unescape_emulation};
use scuffed::span::Span;

#[test]
fn escape_inserts_after_two_zeros() {
    assert_eq!(escape_emulation(&[0x65, 0, 0, 1, 0x80]), vec![0x65, 0, 0, 3, 1, 0x80]);
    assert_eq!(escape_emulation(&[0, 0, 0, 0, 0x80]), vec![0, 0, 3, 0, 0, 0x80]);
    assert_eq!(escape_emulation(&[0, 0, 4, 0, 0, 3]), vec![0, 0, 4, 0, 0, 3, 3]);
    assert_eq!(escape_emulation(&[0x41, 0x9a]), vec![0x41, 0x9a]);
}

#[test]
fn unescape_removes_prevention_bytes() {
    assert_eq!(unescape_emulation(&[0x65, 0, 0, 3, 1, 0x80]), vec![0x65, 0, 0, 1, 0x80]);
    assert_eq!(unescape_emulation(&[0, 3, 0, 0, 3, 3]), vec![0, 3, 0, 0, 3]);
}

#[test]
fn payloads_with_start_codes_survive_annexb() {
    let payloads: Vec<Vec<u8>> = vec![vec![0x06, 0, 0, 1, 0, 0, 0, 0x80], vec![0x65, 0, 0, 2, 0xff], vec![0x41]];
    let escaped: Vec<Span> = payloads.iter().map(|p| Span::from_vec(escape_emulation(p))).collect();
    let stream = frame_nal_units(&escaped, BitstreamFraming::AnnexB).unwrap();
    let units = parse_nal_units(&stream, BitstreamFraming::AnnexB).unwrap();
    let back: Vec<Vec<u8>> = units.iter().map(|u| unescape_emulation(u)).collect();
    assert_eq!(back, payloads);
}
