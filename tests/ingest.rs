use scuffed::chunk::ChunkAssembler;
use scuffed::mp4::FragmentedMp4Muxer;
use scuffed::handshake::{handshake_response, HandshakeError};
use scuffed::ingest::{IngestEvent, IngestState, AUDIO_TRACK_ID, MESSAGE_AUDIO, MESSAGE_VIDEO, VIDEO_TRACK_ID};
use scuffed::media::{AudioCodec, MediaKind, VideoCodec};
use scuffed::nal::BitstreamFraming;

fn avc_sequence_header() -> Vec<u8> {
    vec![0x17, 0, 0, 0, 0, 1, 0x4d, 0x40, 0x1f, 0xff, 0xe1, 0, 3, 0x67, 0x4d, 0x40, 1, 0, 2, 0x68, 0xeb]
}

#[test]
fn sequence_headers_then_frames() {
    let mut st = IngestState::new();
    assert!(!st.ready());
    assert!(matches!(st.handle_message(MESSAGE_VIDEO, 0, &avc_sequence_header()), Ok(IngestEvent::Config)));
    assert!(matches!(st.handle_message(MESSAGE_VIDEO, 0, &avc_sequence_header()), Ok(IngestEvent::Ignored)));
    assert!(matches!(st.handle_message(MESSAGE_AUDIO, 0, &[0xaf, 0, 0x12, 0x10]), Ok(IngestEvent::Config)));
    assert!(st.ready());
    assert!(matches!(st.handle_message(20, 0, &[2, 0, 7]), Ok(IngestEvent::Ignored)));
    match st.handle_message(MESSAGE_VIDEO, 1040, &[0x17, 1, 0, 0, 0, 0, 0, 0, 1, 0x65]).unwrap() {
        IngestEvent::Packet(p) => {
            assert_eq!((p.track_id, p.time.pts, p.time.dts, p.key), (VIDEO_TRACK_ID, 1040, Some(1040), true));
            assert_eq!(p.buffer.to_vec(), vec![0, 0, 0, 1, 0x65]);
        }
        _ => panic!("expected a packet"),
    }
    match st.handle_message(MESSAGE_AUDIO, 1023, &[0xaf, 1, 0x21]).unwrap() {
        IngestEvent::Packet(p) => assert_eq!((p.track_id, p.time.pts), (AUDIO_TRACK_ID, 1023)),
        _ => panic!("expected a packet"),
    }
    let tracks = st.tracks(1280, 720, 44100, 2);
    assert_eq!(tracks.len(), 2);
    assert_eq!((tracks[0].id, tracks[0].timebase.denominator), (1, 1000));
    match &tracks[0].info.kind {
        MediaKind::Video(v) => {
            assert_eq!((v.width, v.height), (1280, 720));
            let VideoCodec::H264(c) = &v.codec;
            assert_eq!((c.profile_indication, c.level_indication), (0x4d, 0x1f));
            assert_eq!(c.sps.to_vec(), vec![0x67, 0x4d, 0x40]);
            assert_eq!(c.pps.to_vec(), vec![0x68, 0xeb]);
            assert_eq!(c.bitstream_format, BitstreamFraming::FourByteLength);
        }
        _ => panic!("expected video"),
    }
    match &tracks[1].info.kind {
        MediaKind::Audio(a) => {
            let AudioCodec::Aac(asc) = &a.codec;
            assert_eq!(asc.to_vec(), vec![0x12, 0x10]);
            assert_eq!(a.sample_rate, 44100);
        }
        _ => panic!("expected audio"),
    }
}

#[test]
fn video_only_ingest_has_one_track() {
    let mut st = IngestState::new();
    st.handle_message(MESSAGE_VIDEO, 0, &avc_sequence_header()).unwrap();
    let tracks = st.tracks(1280, 720, 0, 0);
    assert_eq!(tracks.len(), 1);
    assert!(tracks[0].info.is_video());
    assert!(st.handle_message(MESSAGE_VIDEO, 0, &[0x12, 1, 0, 0, 0]).is_err());
}

#[test]
fn handshake_echoes_client_block() {
    let mut c = vec![3u8];
    c.extend_from_slice(&[0, 0, 0, 9]);
    c.extend_from_slice(&[0, 0, 0, 0]);
    c.extend((0..1528u32).map(|i| (i % 251) as u8));
    let random = vec![0x5a; 1528];
    let s = handshake_response(&c, 77, &random).unwrap();
    assert_eq!(s.len(), 1 + 2 * 1536);
    assert_eq!(s[0], 3);
    assert_eq!(&s[1..5], &[0, 0, 0, 77]);
    assert_eq!(&s[5..9], &[0, 0, 0, 0]);
    assert_eq!(&s[9..1537], &random[..]);
    assert_eq!(&s[1537..1541], &[0, 0, 0, 9]);
    assert_eq!(&s[1541..1545], &[0, 0, 0, 77]);
    assert_eq!(&s[1545..], &c[9..]);
    assert_eq!(handshake_response(&c[..100], 0, &random).err(), Some(HandshakeError::Truncated));
    c[0] = 6;
    assert_eq!(handshake_response(&c, 0, &random).err(), Some(HandshakeError::UnsupportedVersion(6)));
}

#[test]
fn rtmp_chunks_to_media_segments() {
    // one sequence header, one I-frame and 74 P-frames of an H.264-only broadcast at 25 fps
    let mut bytes = Vec::new();
    let mut messages: Vec<(u32, Vec<u8>)> = vec![(0, avc_sequence_header())];
    let mut nal_sizes = Vec::new();
    for i in 0..75u32 {
        let size = 200 + (i as usize * 37) % 300;
        let mut body = vec![if i == 0 { 0x17 } else { 0x27 }, 1, 0, 0, 0];
        body.extend_from_slice(&(size as u32).to_be_bytes());
        body.extend(std::iter::repeat(0x41).take(size));
        nal_sizes.push(4 + size);
        messages.push((i * 40, body));
    }
    for (ts, body) in &messages {
        let mut chunk = vec![0x06];
        chunk.extend_from_slice(&ts.to_be_bytes()[1..]);
        chunk.extend_from_slice(&(body.len() as u32).to_be_bytes()[1..]);
        chunk.push(MESSAGE_VIDEO);
        chunk.extend_from_slice(&1u32.to_le_bytes());
        for (k, piece) in body.chunks(128).enumerate() {
            if k > 0 {
                chunk.push(0xc6);
            }
            chunk.extend_from_slice(piece);
        }
        bytes.extend(chunk);
    }
    let mut assembler = ChunkAssembler::new();
    let mut st = IngestState::new();
    let mut packets = Vec::new();
    let mut at = 0;
    while at < bytes.len() {
        let (n, msg) = assembler.read_chunk(&bytes[at..]).unwrap();
        at += n;
        if let Some(m) = msg {
            if let IngestEvent::Packet(p) = st.handle_message(m.type_id, m.timestamp, &m.payload).unwrap() {
                packets.push(p);
            }
        }
    }
    let tracks = st.tracks(1280, 720, 0, 0);
    assert_eq!(tracks.len(), 1);
    assert_eq!(tracks[0].timebase.denominator, 1000);
    match &tracks[0].info.kind {
        MediaKind::Video(v) => assert_eq!((v.width, v.height), (1280, 720)),
        _ => panic!("expected video"),
    }
    assert_eq!(packets.len(), 75);
    let mut muxer = FragmentedMp4Muxer::with_streams(&tracks);
    let init = muxer.initialization_segment().unwrap().to_vec();
    assert!(init.len() > 500 && init.len() < 1000);
    let mut last = Vec::new();
    for (i, p) in packets.iter().enumerate() {
        let seg = muxer.write_media_segment(p).unwrap().to_vec();
        let mdat = u32::from_be_bytes([seg[104], seg[105], seg[106], seg[107]]) as usize;
        assert_eq!(mdat - 8, nal_sizes[i]);
        last = seg;
    }
    assert_eq!(u64::from_be_bytes(last[20..28].try_into().unwrap()), 74);
}

#[test]
fn tracks_complete_when_both_headers_or_video_frames() {
    let mut st = IngestState::new();
    assert!(!st.tracks_complete(true));
    st.handle_message(MESSAGE_VIDEO, 0, &avc_sequence_header()).unwrap();
    assert!(!st.tracks_complete(false));
    assert!(st.tracks_complete(true));
    st.handle_message(MESSAGE_AUDIO, 0, &[0xaf, 0, 0x12, 0x10]).unwrap();
    assert!(st.tracks_complete(false));
}
