use scuffed::fraction::Fraction;
use scuffed::media::{
    AudioCodec, AudioInfo, H264Codec, MediaDuration, MediaInfo, MediaKind, MediaTime, Movie, Packet, SubtitleInfo, Track,
    VideoCodec, VideoInfo,
};
use scuffed::mp4::{snapshot_mp4, FragmentedMp4Muxer, MuxError, Muxer};
use scuffed::nal::BitstreamFraming;
use scuffed::span::Span;

fn video_track(id: u32, width: u32, framing: BitstreamFraming) -> Track {
    Track {
        id,
        info: MediaInfo {
            kind: MediaKind::Video(VideoInfo {
                width,
                height: 720,
                codec: VideoCodec::H264(H264Codec {
                    profile_indication: 0x64,
                    profile_compatibility: 0x00,
                    level_indication: 0x1f,
                    sps: Span::from_vec(vec![0x67, 0x64, 0x00, 0x1f]),
                    pps: Span::from_vec(vec![0x68, 0xee]),
                    bitstream_format: framing,
                }),
            }),
        },
        timebase: Fraction::new(1, 1000),
    }
}

fn audio_track(id: u32) -> Track {
    Track {
        id,
        info: MediaInfo {
            kind: MediaKind::Audio(AudioInfo {
                sample_rate: 44100,
                channels: 2,
                codec: AudioCodec::Aac(Span::from_vec(vec![0x12, 0x10])),
            }),
        },
        timebase: Fraction::new(1, 1000),
    }
}

fn packet(track_id: u32, pts: i64, key: bool, data: Vec<u8>) -> Packet {
    Packet {
        track_id,
        time: MediaTime { pts, dts: None, timebase: Fraction::new(1, 1000) },
        buffer: Span::from_vec(data),
        key,
        duration: None,
    }
}

fn be32(b: &[u8], at: usize) -> u32 {
    u32::from_be_bytes([b[at], b[at + 1], b[at + 2], b[at + 3]])
}

fn be64(b: &[u8], at: usize) -> u64 {
    let mut a = [0u8; 8];
    a.copy_from_slice(&b[at..at + 8]);
    u64::from_be_bytes(a)
}

fn count_boxes(bytes: &[u8], fourcc: &[u8; 4]) -> usize {
    bytes.windows(4).filter(|w| w == fourcc).count()
}

#[test]
fn init_segment_layout() {
    let tracks = vec![video_track(1, 1280, BitstreamFraming::FourByteLength)];
    let m = FragmentedMp4Muxer::with_streams(&tracks);
    let init = m.initialization_segment().unwrap().to_vec();
    assert_eq!(be32(&init, 0), 28);
    assert_eq!(&init[4..8], b"ftyp");
    assert_eq!(&init[8..28], b"isom\0\0\0\0isomiso5dash");
    assert_eq!(&init[32..36], b"moov");
    assert_eq!(be32(&init, 28) as usize, init.len() - 28);
    assert_eq!(&init[40..44], b"mvhd");
    assert_eq!(be32(&init, 36), 120);
    // timescale of mvhd
    assert_eq!(be32(&init, 44 + 20), 1000);
    // next_track_id closes mvhd
    assert_eq!(be32(&init, 36 + 116), 2);
    assert_eq!(count_boxes(&init, b"trak"), 1);
    assert_eq!(count_boxes(&init, b"trex"), 1);
    assert_eq!(count_boxes(&init, b"avcC"), 1);
    let tkhd = init.windows(4).position(|w| w == b"tkhd").unwrap() - 4;
    // width and height in 16.16 fixed point at the end of tkhd
    assert_eq!(be32(&init, tkhd + 96), 1280 << 16);
    assert_eq!(be32(&init, tkhd + 100), 720 << 16);
    let mdhd = init.windows(4).position(|w| w == b"mdhd").unwrap() - 4;
    assert_eq!(be32(&init, mdhd + 28), 1000);
    let avcc = init.windows(4).position(|w| w == b"avcC").unwrap() - 4;
    assert_eq!(&init[avcc + 8..avcc + 14], &[1, 0x64, 0x00, 0x1f, 3, 1]);
    assert_eq!(&init[avcc + 14..avcc + 20], &[0, 4, 0x67, 0x64, 0x00, 0x1f]);
    assert_eq!(&init[avcc + 20..avcc + 25], &[1, 0, 2, 0x68, 0xee]);
}

#[test]
fn init_segment_is_idempotent() {
    let tracks = vec![video_track(7, 640, BitstreamFraming::FourByteLength), audio_track(8)];
    let a = FragmentedMp4Muxer::with_streams(&tracks);
    let b = FragmentedMp4Muxer::with_streams(&tracks);
    let first = a.initialization_segment().unwrap().to_vec();
    assert_eq!(first, a.initialization_segment().unwrap().to_vec());
    assert_eq!(first, b.initialization_segment().unwrap().to_vec());
    // video and audio are both mapped: next_track_id is 3
    assert_eq!(be32(&first, 36 + 116), 3);
}

#[test]
fn init_segment_rejects_wide_video() {
    let tracks = vec![video_track(1, 70_000, BitstreamFraming::FourByteLength)];
    let m = FragmentedMp4Muxer::with_streams(&tracks);
    assert_eq!(m.initialization_segment().err(), Some(MuxError::DimensionsTooLarge));
}

#[test]
fn media_segment_fields() {
    let tracks = vec![video_track(1, 1280, BitstreamFraming::FourByteLength)];
    let mut m = FragmentedMp4Muxer::with_streams(&tracks);
    let data = vec![0, 0, 0, 2, 0x65, 0x88];
    let seg = m.write_media_segment(&packet(1, 0, true, data.clone())).unwrap().to_vec();
    assert_eq!(be32(&seg, 0), 104);
    assert_eq!(&seg[4..8], b"moof");
    assert_eq!(be64(&seg, 20), 0);
    assert_eq!(&seg[40..44], b"tfhd");
    assert_eq!(be32(&seg, 44), 0x0002_0000);
    assert_eq!(be32(&seg, 48), 1);
    assert_eq!(&seg[56..60], b"trun");
    assert_eq!(be32(&seg, 60), 0x0000_0305);
    assert_eq!(be32(&seg, 64), 1);
    assert_eq!(be32(&seg, 68), 112);
    assert_eq!(be32(&seg, 72), 0x0001_0000);
    // first packet: 16 ms in a 1/1000 timebase
    assert_eq!(be32(&seg, 76), 16);
    assert_eq!(be32(&seg, 80), data.len() as u32);
    assert_eq!(&seg[88..92], b"tfdt");
    assert_eq!(be64(&seg, 96), 0);
    assert_eq!(be32(&seg, 104), data.len() as u32 + 8);
    assert_eq!(&seg[108..112], b"mdat");
    assert_eq!(&seg[112..], &data[..]);
}

#[test]
fn sequence_numbers_count_up() {
    let tracks = vec![video_track(1, 1280, BitstreamFraming::FourByteLength), audio_track(2)];
    let mut m = FragmentedMp4Muxer::with_streams(&tracks);
    for i in 0..5u64 {
        let track = if i % 2 == 0 { 1 } else { 2 };
        let seg = m.write_media_segment(&packet(track, i as i64 * 10, false, vec![1, 2])).unwrap().to_vec();
        assert_eq!(be64(&seg, 20), i);
        assert_eq!(be32(&seg, 48), track);
    }
    // the init segment does not advance the sequence
    m.initialization_segment().unwrap();
    let seg = m.write_media_segment(&packet(2, 100, false, vec![3])).unwrap().to_vec();
    assert_eq!(be64(&seg, 20), 5);
}

#[test]
fn base_media_decode_time_follows_previous_packet() {
    let tracks = vec![video_track(1, 1280, BitstreamFraming::FourByteLength)];
    let mut m = FragmentedMp4Muxer::with_streams(&tracks);
    let times = [1000i64, 1040, 1080, 1120];
    let mut tfdts = Vec::new();
    let mut durations = Vec::new();
    for t in times {
        let seg = m.write_media_segment(&packet(1, t, false, vec![0, 0, 0, 1, 9])).unwrap().to_vec();
        tfdts.push(be64(&seg, 96));
        durations.push(be32(&seg, 76));
    }
    assert_eq!(tfdts, vec![0, 0, 40, 80]);
    assert_eq!(durations, vec![16, 40, 40, 40]);
}

#[test]
fn known_duration_used_for_first_packet() {
    let tracks = vec![video_track(1, 1280, BitstreamFraming::FourByteLength)];
    let mut m = FragmentedMp4Muxer::with_streams(&tracks);
    let mut p = packet(1, 0, true, vec![0, 0, 0, 1, 9]);
    p.duration = Some(MediaDuration { duration: 33, timebase: Fraction::new(1, 1000) });
    let seg = m.write_media_segment(&p).unwrap().to_vec();
    assert_eq!(be32(&seg, 76), 33);
}

#[test]
fn default_duration_rescaled_to_timebase() {
    let d = MediaDuration::from_millis(16, Fraction::new(1, 90_000));
    assert_eq!(d.duration, 1440);
    let e = MediaDuration::from_millis(16, Fraction::new(1001, 30_000));
    assert_eq!(e.duration, 0);
    let f = MediaDuration::from_millis(50, Fraction::new(1, 30));
    assert_eq!(f.duration, 2);
}

#[test]
fn annexb_sample_reframed_with_lengths() {
    let tracks = vec![video_track(1, 1280, BitstreamFraming::AnnexB)];
    let mut m = FragmentedMp4Muxer::with_streams(&tracks);
    let seg = m.write_media_segment(&packet(1, 0, true, vec![0, 0, 1, 0x65, 0x88, 0, 0, 0, 1, 0x41])).unwrap().to_vec();
    let expected = vec![0, 0, 0, 2, 0x65, 0x88, 0, 0, 0, 1, 0x41];
    assert_eq!(be32(&seg, 80), expected.len() as u32);
    assert_eq!(&seg[112..], &expected[..]);
}

#[test]
fn unknown_track_is_rejected_without_change() {
    let tracks = vec![video_track(1, 1280, BitstreamFraming::FourByteLength)];
    let mut m = FragmentedMp4Muxer::with_streams(&tracks);
    assert_eq!(m.write_media_segment(&packet(9, 0, true, vec![1])).err(), Some(MuxError::UnknownTrack));
    let seg = m.write_media_segment(&packet(1, 0, true, vec![0, 0, 0, 0])).unwrap().to_vec();
    assert_eq!(be64(&seg, 20), 0);
}

#[test]
fn backwards_timestamp_is_rejected() {
    let tracks = vec![video_track(1, 1280, BitstreamFraming::FourByteLength)];
    let mut m = FragmentedMp4Muxer::with_streams(&tracks);
    m.write_media_segment(&packet(1, 100, true, vec![0, 0, 0, 0])).unwrap();
    assert_eq!(m.write_media_segment(&packet(1, 50, false, vec![0, 0, 0, 0])).err(), Some(MuxError::TimestampOutOfRange));
}

#[test]
fn missing_start_code_is_a_bitstream_error() {
    let tracks = vec![video_track(1, 1280, BitstreamFraming::AnnexB)];
    let mut m = FragmentedMp4Muxer::with_streams(&tracks);
    let r = m.write_media_segment(&packet(1, 0, true, vec![5, 0, 0, 1, 7]));
    assert_eq!(r.err(), Some(MuxError::Bitstream(scuffed::nal::BitstreamError::MissingStartCode)));
    // a length-prefixed source is passed through as it is
    let tracks = vec![video_track(1, 1280, BitstreamFraming::FourByteLength)];
    let mut m = FragmentedMp4Muxer::with_streams(&tracks);
    let seg = m.write_media_segment(&packet(1, 0, true, vec![0, 0, 0, 9, 1])).unwrap().to_vec();
    assert_eq!(&seg[112..], &[0, 0, 0, 9, 1]);
}

#[test]
fn snapshot_holds_init_and_segments() {
    let movie = Movie { tracks: vec![video_track(1, 1280, BitstreamFraming::FourByteLength)], attachments: Vec::new() };
    let packets = vec![packet(1, 0, true, vec![0, 0, 0, 0]), packet(1, 40, false, vec![0, 0, 0, 0])];
    let mp4 = snapshot_mp4(&movie, &packets).unwrap().to_vec();
    assert_eq!(count_boxes(&mp4, b"moof"), 2);
    assert_eq!(count_boxes(&mp4, b"ftyp"), 1);
}

#[test]
fn subtitle_positions() {
    let sub = Track {
        id: 3,
        info: MediaInfo { kind: MediaKind::Subtitle(SubtitleInfo { header: Span::new() }) },
        timebase: Fraction::new(1, 1000),
    };
    let movie = Movie { tracks: vec![video_track(1, 10, BitstreamFraming::AnnexB), sub, audio_track(2)], attachments: Vec::new() };
    assert_eq!(movie.subtitles(), vec![1]);
    assert!(movie.is_video_track(1));
    assert!(!movie.is_video_track(2));
}

#[test]
fn codec_string_for_video_and_audio() {
    let movie = Movie { tracks: vec![video_track(1, 1280, BitstreamFraming::FourByteLength), audio_track(2)], attachments: Vec::new() };
    let s: String = movie.codec_string().unwrap().into_iter().collect();
    assert_eq!(s, "avc1.64001f,mp4a.40.2");
    let video_only = Movie { tracks: vec![video_track(1, 1280, BitstreamFraming::FourByteLength)], attachments: Vec::new() };
    let s: String = video_only.codec_string().unwrap().into_iter().collect();
    assert_eq!(s, "avc1.64001f");
    let empty = Movie { tracks: Vec::new(), attachments: Vec::new() };
    assert!(empty.codec_string().is_none());
}

#[test]
fn muxer_trait_drops_foreign_packets() {
    let mut m = FragmentedMp4Muxer::with_streams(&Vec::new());
    let init = m.start(&vec![video_track(4, 320, BitstreamFraming::FourByteLength)]).unwrap().to_vec();
    assert_eq!(&init[4..8], b"ftyp");
    assert!(m.write(&packet(5, 0, true, vec![1])).unwrap().is_none());
    let seg = m.write(&packet(4, 0, true, vec![0, 0, 0, 1, 7])).unwrap().unwrap().to_vec();
    assert_eq!(&seg[4..8], b"moof");
    assert!(m.stop().unwrap().is_empty());
}

#[test]
fn init_segment_has_a_track_box_per_track() {
    let both = FragmentedMp4Muxer::with_streams(&vec![video_track(1, 1280, BitstreamFraming::FourByteLength), audio_track(2)]);
    let init = both.initialization_segment().unwrap().to_vec();
    assert_eq!(count_boxes(&init, b"trak"), 2);
    assert_eq!(count_boxes(&init, b"trex"), 2);
    assert_eq!(count_boxes(&init, b"mp4a"), 1);
    assert_eq!(count_boxes(&init, b"esds"), 1);
    assert_eq!(count_boxes(&init, b"soun"), 1);
    assert_eq!(be32(&init, 36 + 116), 3);
    let trex: Vec<usize> = init.windows(4).enumerate().filter(|(_, w)| *w == b"trex").map(|(i, _)| i - 4).collect();
    assert_eq!((be32(&init, trex[0] + 12), be32(&init, trex[1] + 12)), (1, 2));
    let esds = init.windows(4).position(|w| w == b"esds").unwrap() - 4;
    // decoder specific info: tag 5, length 2, the AudioSpecificConfig
    assert_eq!(&init[esds + 12 + 5 + 15..esds + 12 + 5 + 15 + 4], &[5, 2, 0x12, 0x10]);
    let mp4a = init.windows(4).position(|w| w == b"mp4a").unwrap() - 4;
    assert_eq!(u16::from_be_bytes([init[mp4a + 24], init[mp4a + 25]]), 2);
    assert_eq!(be32(&init, mp4a + 32), 44100 << 16);

    let audio_only = FragmentedMp4Muxer::with_streams(&vec![audio_track(5)]);
    let init = audio_only.initialization_segment().unwrap().to_vec();
    assert_eq!(count_boxes(&init, b"trak"), 1);
    assert_eq!(count_boxes(&init, b"trex"), 1);
    assert_eq!(count_boxes(&init, b"avcC"), 0);
    let trex = init.windows(4).position(|w| w == b"trex").unwrap() - 4;
    assert_eq!(be32(&init, trex + 12), 1);
    assert_eq!(be32(&init, 36 + 116), 2);
}

#[test]
fn muxer_write_matches_media_segment() {
    let tracks = vec![video_track(4, 320, BitstreamFraming::FourByteLength)];
    let mut a = FragmentedMp4Muxer::with_streams(&tracks);
    let mut b = FragmentedMp4Muxer::with_streams(&tracks);
    let p = packet(4, 0, true, vec![0, 0, 0, 1, 7]);
    let via_trait = a.write(&p).unwrap().unwrap().to_vec();
    let direct = b.write_media_segment(&p).unwrap().to_vec();
    assert_eq!(via_trait, direct);
    assert!(a.write(&packet(9, 0, true, vec![1])).unwrap().is_none());
    assert_eq!(a.next_sequence(), 1);
}
