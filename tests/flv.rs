use scuffed::flv::{audio_packet, parse_audio_tag, parse_avc_config, parse_video_tag, video_packet, AudioTag, TagError, VideoTag};

fn avcc() -> Vec<u8> {
    vec![1, 0x64, 0x00, 0x1f, 0xff, 0xe1, 0, 4, 0x67, 0x64, 0x00, 0x1f, 1, 0, 2, 0x68, 0xee]
}

#[test]
fn avc_sequence_header() {
    let mut body = vec![0x17, 0, 0, 0, 0];
    body.extend(avcc());
    match parse_video_tag(&body).unwrap() {
        VideoTag::SequenceHeader(c) => {
            assert_eq!((c.profile_indication, c.profile_compatibility, c.level_indication), (0x64, 0x00, 0x1f));
            assert_eq!(c.length_size, 4);
            assert_eq!(c.sps, vec![0x67, 0x64, 0x00, 0x1f]);
            assert_eq!(c.pps, vec![0x68, 0xee]);
        }
        _ => panic!("expected a sequence header"),
    }
}

#[test]
fn avc_config_errors() {
    assert_eq!(parse_avc_config(&[1, 2, 3]).err(), Some(TagError::Truncated));
    assert_eq!(parse_avc_config(&[2, 0x64, 0, 0x1f, 0xff, 0xe1]).err(), Some(TagError::InvalidSequenceHeader));
    assert_eq!(parse_avc_config(&[1, 0x64, 0, 0x1f, 0xff, 0xe1, 0, 9, 1]).err(), Some(TagError::Truncated));
    assert_eq!(parse_avc_config(&[1, 0x64, 0, 0x1f, 0xff, 0xe1, 0, 1, 7, 0]).err(), Some(TagError::InvalidSequenceHeader));
}

#[test]
fn avc_frames_with_composition_offset() {
    let body = [0x17, 1, 0, 0, 40, 0, 0, 0, 1, 0x65];
    match parse_video_tag(&body).unwrap() {
        VideoTag::Nalu { key, composition_offset, data } => {
            assert!(key);
            assert_eq!(composition_offset, 40);
            assert_eq!(data, vec![0, 0, 0, 1, 0x65]);
            let p = video_packet(1, 1000, key, composition_offset, data);
            assert_eq!((p.time.pts, p.time.dts), (1000, Some(960)));
            assert!(p.key);
        }
        _ => panic!("expected coded data"),
    }
    match parse_video_tag(&[0x27, 1, 0xff, 0xff, 0xf6, 9]).unwrap() {
        VideoTag::Nalu { key, composition_offset, .. } => {
            assert!(!key);
            assert_eq!(composition_offset, -10);
        }
        _ => panic!("expected coded data"),
    }
    assert!(matches!(parse_video_tag(&[0x17, 2, 0, 0, 0]).unwrap(), VideoTag::EndOfSequence));
}

#[test]
fn video_tag_errors() {
    assert_eq!(parse_video_tag(&[]).err(), Some(TagError::Truncated));
    assert_eq!(parse_video_tag(&[0x12, 0]).err(), Some(TagError::UnsupportedCodec(2)));
    assert_eq!(parse_video_tag(&[0x17, 1]).err(), Some(TagError::Truncated));
    assert_eq!(parse_video_tag(&[0x17, 5, 0, 0, 0]).err(), Some(TagError::UnknownPacketType(5)));
}

#[test]
fn aac_tags() {
    match parse_audio_tag(&[0xaf, 0, 0x12, 0x10]).unwrap() {
        AudioTag::AacSequenceHeader(asc) => assert_eq!(asc, vec![0x12, 0x10]),
        _ => panic!("expected the AudioSpecificConfig"),
    }
    match parse_audio_tag(&[0xaf, 1, 0x21, 0x00]).unwrap() {
        AudioTag::AacRaw(data) => {
            let p = audio_packet(2, 23, data);
            assert_eq!(p.buffer.to_vec(), vec![0x21, 0x00]);
            assert_eq!((p.track_id, p.time.pts), (2, 23));
        }
        _ => panic!("expected raw AAC"),
    }
    assert_eq!(parse_audio_tag(&[0x2f, 1]).err(), Some(TagError::UnsupportedCodec(2)));
    assert_eq!(parse_audio_tag(&[0xaf]).err(), Some(TagError::Truncated));
}
