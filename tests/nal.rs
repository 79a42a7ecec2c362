use scuffed::nal::{convert_bitstream, frame_nal_units, parse_nal_units, BitstreamError, BitstreamFraming};
use scuffed::span::Span;

fn units() -> Vec<Span> {
    vec![Span::from_vec(vec![0x67, 0x42, 0x00]), Span::from_vec(vec![0x68, 0xce])]
}

#[test]
fn frame_each_framing() {
    let a = frame_nal_units(&units(), BitstreamFraming::AnnexB).unwrap();
    assert_eq!(a.to_vec(), vec![0, 0, 0, 1, 0x67, 0x42, 0x00, 0, 0, 0, 1, 0x68, 0xce]);
    let f = frame_nal_units(&units(), BitstreamFraming::FourByteLength).unwrap();
    assert_eq!(f.to_vec(), vec![0, 0, 0, 3, 0x67, 0x42, 0x00, 0, 0, 0, 2, 0x68, 0xce]);
    let t = frame_nal_units(&units(), BitstreamFraming::TwoByteLength).unwrap();
    assert_eq!(t.to_vec(), vec![0, 3, 0x67, 0x42, 0x00, 0, 2, 0x68, 0xce]);
}

#[test]
fn two_byte_length_too_long() {
    let big = vec![Span::from_vec(vec![1u8; 70_000])];
    assert_eq!(frame_nal_units(&big, BitstreamFraming::TwoByteLength).err(), Some(BitstreamError::UnitTooLong));
}

#[test]
fn convert_round_trip_all_framings() {
    let us = vec![Span::from_vec(vec![0x65, 0x88, 0x84]), Span::from_vec(vec![0x41, 0x9a])];
    let framings = [BitstreamFraming::AnnexB, BitstreamFraming::FourByteLength, BitstreamFraming::TwoByteLength];
    for f in framings {
        for g in framings {
            let b = frame_nal_units(&us, f).unwrap();
            let there = convert_bitstream(&b, f, g).unwrap();
            assert_eq!(there.to_vec(), frame_nal_units(&us, g).unwrap().to_vec());
            let back = convert_bitstream(&there, g, f).unwrap();
            assert_eq!(back.to_vec(), b.to_vec());
        }
    }
}

#[test]
fn annexb_three_byte_start_codes_and_trailing_zeros() {
    let data = Span::from_vec(vec![0, 0, 1, 0x09, 0x10, 0, 0, 0, 1, 0x67, 0x42, 0, 0, 1, 0x68]);
    let units = parse_nal_units(&data, BitstreamFraming::AnnexB).unwrap();
    assert_eq!(units, vec![vec![0x09, 0x10], vec![0x67, 0x42], vec![0x68]]);
}

#[test]
fn annexb_emulation_prevention_bytes_stay_in_payload() {
    // 00 00 03 01 is an escaped payload, not a start code.
    let data = Span::from_vec(vec![0, 0, 0, 1, 0x06, 0, 0, 3, 1, 0x80]);
    let units = parse_nal_units(&data, BitstreamFraming::AnnexB).unwrap();
    assert_eq!(units, vec![vec![0x06, 0, 0, 3, 1, 0x80]]);
}

#[test]
fn malformed_inputs() {
    let short = Span::from_vec(vec![0, 0, 0, 9, 1, 2]);
    assert_eq!(parse_nal_units(&short, BitstreamFraming::FourByteLength).err(), Some(BitstreamError::MalformedLength));
    let cut = Span::from_vec(vec![0, 0]);
    assert_eq!(parse_nal_units(&cut, BitstreamFraming::FourByteLength).err(), Some(BitstreamError::MalformedLength));
    let no_start = Span::from_vec(vec![5, 0, 0, 1, 7]);
    assert_eq!(parse_nal_units(&no_start, BitstreamFraming::AnnexB).err(), Some(BitstreamError::MissingStartCode));
    assert_eq!(convert_bitstream(&no_start, BitstreamFraming::AnnexB, BitstreamFraming::FourByteLength).err(), Some(BitstreamError::MissingStartCode));
}

#[test]
fn same_framing_returns_input() {
    let data = Span::from_vec(vec![5, 6, 7]);
    let r = convert_bitstream(&data, BitstreamFraming::AnnexB, BitstreamFraming::AnnexB).unwrap();
    assert_eq!(r.to_vec(), vec![5, 6, 7]);
}
