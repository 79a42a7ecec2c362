use scuffed::mp4::ViewerState;
use scuffed::fraction::Fraction;
use scuffed::live::{LiveError, LiveStreamService, SendOutcome, VIEWER_CHANNEL_CAPACITY};
use scuffed::media::{AudioCodec, AudioInfo, H264Codec, MediaInfo, MediaKind, MediaTime, Movie, Packet, Track, VideoCodec, VideoInfo};
use scuffed::nal::BitstreamFraming;
use scuffed::span::Span;

fn movie() -> Movie {
    let video = Track {
        id: 1,
        info: MediaInfo {
            kind: MediaKind::Video(VideoInfo {
                width: 1280,
                height: 720,
                codec: VideoCodec::H264(H264Codec {
                    profile_indication: 0x42,
                    profile_compatibility: 0xc0,
                    level_indication: 0x1f,
                    sps: Span::from_vec(vec![0x67, 0x42]),
                    pps: Span::from_vec(vec![0x68, 0xce]),
                    bitstream_format: BitstreamFraming::FourByteLength,
                }),
            }),
        },
        timebase: Fraction::new(1, 1000),
    };
    let audio = Track {
        id: 2,
        info: MediaInfo {
            kind: MediaKind::Audio(AudioInfo {
                sample_rate: 48000,
                channels: 2,
                codec: AudioCodec::Aac(Span::from_vec(vec![0x11, 0x90])),
            }),
        },
        timebase: Fraction::new(1, 1000),
    };
    Movie { tracks: vec![video, audio], attachments: Vec::new() }
}

fn packet(track_id: u32, pts: i64, key: bool) -> Packet {
    Packet {
        track_id,
        time: MediaTime { pts, dts: None, timebase: Fraction::new(1, 1000) },
        buffer: Span::from_vec(vec![0, 0, 0, 1, pts as u8]),
        key,
        duration: None,
    }
}

fn count_moof(bytes: &[u8]) -> usize {
    bytes.windows(4).filter(|w| w == b"moof").count()
}

#[test]
fn preview_before_any_keyframe_is_not_found() {
    let mut svc = LiveStreamService::new();
    let name = "alice".to_string();
    svc.new_stream(name.clone(), movie(), 100).unwrap();
    svc.write_packet(&name, packet(1, 0, false)).unwrap();
    assert_eq!(svc.get_preview(&name).err(), Some(LiveError::NotFound));
    assert_eq!(svc.get_preview(&"nobody".to_string()).err(), Some(LiveError::NotFound));
}

#[test]
fn preview_after_two_gops_holds_the_latest() {
    let mut svc = LiveStreamService::new();
    let name = "bob".to_string();
    svc.new_stream(name.clone(), movie(), 100).unwrap();
    let mut t = 0;
    svc.write_packet(&name, packet(1, t, true)).unwrap();
    for _ in 0..5 {
        t += 40;
        svc.write_packet(&name, packet(1, t, false)).unwrap();
        svc.write_packet(&name, packet(2, t, false)).unwrap();
    }
    t += 40;
    svc.write_packet(&name, packet(1, t, true)).unwrap();
    for _ in 0..2 {
        t += 40;
        svc.write_packet(&name, packet(1, t, false)).unwrap();
    }
    let preview = svc.get_preview(&name).unwrap().to_vec();
    assert_eq!(count_moof(&preview), 3);
    // the preview outlives the broadcast
    assert!(svc.stop_stream(&name, 200));
    assert_eq!(count_moof(&svc.get_preview(&name).unwrap().to_vec()), 3);
}

#[test]
fn second_publish_is_rejected() {
    let mut svc = LiveStreamService::new();
    let name = "carol".to_string();
    assert!(svc.new_stream(name.clone(), movie(), 100).is_ok());
    assert_eq!(svc.new_stream(name.clone(), movie(), 150).err(), Some(LiveError::AlreadyLive));
    let all = svc.get_all_streams();
    assert_eq!(all.len(), 1);
    assert_eq!(all[0].started, 100);
    assert!(all[0].is_live);
    assert!(svc.stop_stream(&name, 300));
    assert!(svc.new_stream(name.clone(), movie(), 400).is_ok());
    let all = svc.get_all_streams();
    assert_eq!((all[0].started, all[0].stopped, all[0].is_live), (400, Some(300), true));
}

#[test]
fn stop_keeps_the_stream_listed() {
    let mut svc = LiveStreamService::new();
    let name = "dave".to_string();
    assert!(!svc.stop_stream(&name, 5));
    svc.new_stream(name.clone(), movie(), 10).unwrap();
    let _viewer = svc.attach(&name).unwrap();
    assert_eq!(svc.get_all_streams()[0].viewers, 1);
    assert!(svc.stop_stream(&name, 20));
    let all = svc.get_all_streams();
    assert_eq!((all[0].name.as_str(), all[0].viewers, all[0].is_live, all[0].stopped), ("dave", 0, false, Some(20)));
    assert!(svc.attach(&name).is_none());
    assert!(svc.write_packet(&name, packet(1, 0, true)).is_none());
}

#[test]
fn viewer_sees_every_packet_in_order() {
    let mut svc = LiveStreamService::new();
    let name = "erin".to_string();
    svc.new_stream(name.clone(), movie(), 0).unwrap();
    let mut viewer = svc.attach(&name).unwrap();
    for i in 0..20 {
        let outs = svc.write_packet(&name, packet(1 + (i % 2) as u32, i, i == 0)).unwrap();
        assert_eq!(outs, vec![SendOutcome::Sent]);
    }
    for i in 0..20 {
        let p = viewer.try_recv().unwrap();
        assert_eq!(p.time.pts, i);
        assert_eq!(p.buffer.to_vec(), vec![0, 0, 0, 1, i as u8]);
    }
    assert!(viewer.try_recv().is_err());
}

#[test]
fn slow_viewer_is_evicted() {
    let mut svc = LiveStreamService::new();
    let name = "frank".to_string();
    svc.new_stream(name.clone(), movie(), 0).unwrap();
    let _slow = svc.attach(&name).unwrap();
    let mut fast = svc.attach(&name).unwrap();
    let mut received = Vec::new();
    for i in 0..=(VIEWER_CHANNEL_CAPACITY as i64) {
        let outs = svc.write_packet(&name, packet(1, i, i == 0)).unwrap();
        if (i as usize) < VIEWER_CHANNEL_CAPACITY {
            assert_eq!(outs, vec![SendOutcome::Sent, SendOutcome::Sent]);
            assert_eq!(svc.get_all_streams()[0].viewers, 2);
        } else {
            assert_eq!(outs, vec![SendOutcome::Full, SendOutcome::Sent]);
            assert_eq!(svc.get_all_streams()[0].viewers, 1);
        }
        received.push(fast.try_recv().unwrap().time.pts);
    }
    assert_eq!(received, (0..=(VIEWER_CHANNEL_CAPACITY as i64)).collect::<Vec<_>>());
}

#[test]
fn closed_viewer_is_removed() {
    let mut svc = LiveStreamService::new();
    let name = "gina".to_string();
    svc.new_stream(name.clone(), movie(), 0).unwrap();
    let viewer = svc.attach(&name).unwrap();
    drop(viewer);
    let outs = svc.write_packet(&name, packet(1, 0, true)).unwrap();
    assert_eq!(outs, vec![SendOutcome::Closed]);
    assert_eq!(svc.get_all_streams()[0].viewers, 0);
}

#[test]
fn viewer_attaching_mid_stream_starts_at_next_keyframe() {
    let mut svc = LiveStreamService::new();
    let name = "hana".to_string();
    svc.new_stream(name.clone(), movie(), 0).unwrap();
    for i in 0..100 {
        svc.write_packet(&name, packet(1 + (i % 2) as u32, i, i % 30 == 0)).unwrap();
    }
    let mut viewer = svc.attach(&name).unwrap();
    for i in 100..160 {
        svc.write_packet(&name, packet(1 + (i % 2) as u32, i, i % 30 == 0)).unwrap();
    }
    let m = movie();
    let mut seen = Vec::new();
    let mut synced = false;
    while let Ok(p) = viewer.try_recv() {
        if !synced && !m.is_sync_point(&p) {
            continue;
        }
        synced = true;
        seen.push(p.time.pts);
    }
    assert_eq!(seen, (120..160).collect::<Vec<_>>());
    // audio keyframes are no place to start
    assert!(!m.is_sync_point(&packet(2, 0, true)));
}

#[test]
fn viewer_state_waits_for_a_video_keyframe() {
    let m = movie();
    let mut viewer = ViewerState::new(&m);
    assert!(viewer.initialization_segment().is_ok());
    assert!(viewer.on_packet(&m, &packet(1, 0, false)).is_none());
    assert!(viewer.on_packet(&m, &packet(2, 0, true)).is_none());
    assert_eq!(viewer.next_sequence(), 0);
    let first = viewer.on_packet(&m, &packet(1, 40, true)).unwrap().unwrap().to_vec();
    assert_eq!(&first[4..8], b"moof");
    let next = viewer.on_packet(&m, &packet(1, 80, false)).unwrap().unwrap().to_vec();
    assert_eq!(u64::from_be_bytes(next[20..28].try_into().unwrap()), 1);
    assert!(viewer.on_packet(&m, &packet(2, 80, false)).unwrap().is_ok());
    assert_eq!(viewer.next_sequence(), 3);
}

#[test]
fn publisher_admission() {
    let mut svc = LiveStreamService::new();
    let ivy = Some("ivy".to_string());
    assert!(svc.admits_publisher(&ivy));
    assert!(!svc.admits_publisher(&None));
    svc.new_stream("ivy".to_string(), movie(), 0).unwrap();
    assert!(!svc.admits_publisher(&ivy));
    assert!(svc.admits_publisher(&Some("jo".to_string())));
    svc.stop_stream(&"ivy".to_string(), 5);
    assert!(svc.admits_publisher(&ivy));
}
