//! The ingest side of an RTMP session: from audio and video messages to the
//! broadcast's tracks and packets.
use vstd::prelude::*;
use crate::flv::{
    audio_packet, avc_config_of, parse_audio_tag, parse_video_tag, signed24, video_packet,
    AudioTag, AvcConfig, TagError, VideoTag, SOUND_FORMAT_AAC, VIDEO_CODEC_AVC,
};
use crate::fraction::Fraction;
use crate::media::{
    AudioCodec, AudioInfo, H264Codec, MediaInfo, MediaKind, Packet, Track, VideoCodec, VideoInfo,
};
use crate::nal::BitstreamFraming;
use crate::span::Span;

verus! {

/// Message type of audio data.
pub const MESSAGE_AUDIO: u8 = 8;

/// Message type of video data.
pub const MESSAGE_VIDEO: u8 = 9;

/// Track id of the video track of an ingest.
pub const VIDEO_TRACK_ID: u32 = 1;

/// Track id of the audio track of an ingest.
pub const AUDIO_TRACK_ID: u32 = 2;

/// Codec parameters seen so far: each is taken from the first sequence header
/// of its kind.
pub struct IngestState {
    pub video: Option<AvcConfig>,
    pub audio: Option<Vec<u8>>,
}

/// What a message came to.
pub enum IngestEvent {
    /// A sequence header, taken as the track's parameters.
    Config,
    Packet(Packet),
    /// A message that carries nothing for the tracks: another type, the end of
    /// a sequence, or a repeated sequence header.
    Ignored,
}

/// Why the body of a video message cannot be read, if it cannot.
pub open spec fn video_tag_error(s: Seq<u8>) -> Option<TagError> {
    if s.len() == 0 {
        Some(TagError::Truncated)
    } else if s[0] % 16 != VIDEO_CODEC_AVC {
        Some(TagError::UnsupportedCodec(s[0] % 16))
    } else if s.len() < 5 {
        Some(TagError::Truncated)
    } else if s[1] == 0 {
        match avc_config_of(s.subrange(5, s.len() as int)) {
            Err(e) => Some(e),
            Ok(_) => None,
        }
    } else if s[1] > 2 {
        Some(TagError::UnknownPacketType(s[1]))
    } else {
        None
    }
}

/// Why the body of an audio message cannot be read, if it cannot.
pub open spec fn audio_tag_error(s: Seq<u8>) -> Option<TagError> {
    if s.len() == 0 {
        Some(TagError::Truncated)
    } else if s[0] / 16 != SOUND_FORMAT_AAC {
        Some(TagError::UnsupportedCodec(s[0] / 16))
    } else if s.len() < 2 {
        Some(TagError::Truncated)
    } else if s[1] > 1 {
        Some(TagError::UnknownPacketType(s[1]))
    } else {
        None
    }
}

/// The packet of the event, if it is one.
pub open spec fn event_packet(r: Result<IngestEvent, TagError>) -> Option<Packet> {
    match r {
        Ok(IngestEvent::Packet(p)) => Some(p),
        _ => None,
    }
}

pub open spec fn is_config(r: Result<IngestEvent, TagError>) -> bool {
    match r {
        Ok(IngestEvent::Config) => true,
        _ => false,
    }
}

pub open spec fn is_ignored(r: Result<IngestEvent, TagError>) -> bool {
    match r {
        Ok(IngestEvent::Ignored) => true,
        _ => false,
    }
}

/// The packet of a coded video frame: track 1, presentation time the message
/// timestamp, decode time that less the composition offset, the key flag of
/// frame type 1, and the bytes after the five-byte header.
pub open spec fn is_video_frame_packet(p: Packet, s: Seq<u8>, timestamp: u32) -> bool {
    &&& p.track_id == VIDEO_TRACK_ID
    &&& p.time.pts == timestamp
    &&& p.time.dts == Some((timestamp - signed24(s[2], s[3], s[4])) as i64)
    &&& p.time.timebase == (Fraction { numerator: 1, denominator: 1000 })
    &&& p.key == (s[0] / 16 == 1)
    &&& p.buffer@ == s.subrange(5, s.len() as int)
    &&& p.duration is None
}

/// The packet of an AAC frame: track 2, the message timestamp, the bytes after
/// the two-byte header.
pub open spec fn is_audio_frame_packet(p: Packet, s: Seq<u8>, timestamp: u32) -> bool {
    &&& p.track_id == AUDIO_TRACK_ID
    &&& p.time.pts == timestamp
    &&& p.time.dts is None
    &&& p.time.timebase == (Fraction { numerator: 1, denominator: 1000 })
    &&& p.key
    &&& p.buffer@ == s.subrange(2, s.len() as int)
    &&& p.duration is None
}

/// The stored configuration is the one read from the sequence header.
pub open spec fn config_matches(c: AvcConfig, s: Seq<u8>) -> bool {
    let e = avc_config_of(s.subrange(5, s.len() as int))->Ok_0;
    &&& c.profile_indication == e.0
    &&& c.profile_compatibility == e.1
    &&& c.level_indication == e.2
    &&& c.length_size == e.3
    &&& c.sps@ == e.4
    &&& c.pps@ == e.5
}

impl IngestState {
    pub fn new() -> (r: IngestState)
        ensures
            r.video is None,
            r.audio is None,
    {
        IngestState { video: None, audio: None }
    }

    /// Whether the broadcast's tracks are known well enough to start it: both
    /// sequence headers seen, or a coded frame has come after the video
    /// sequence header of a broadcast without audio so far.
    pub fn tracks_complete(&self, frame_arrived: bool) -> (r: bool)
        ensures
            r == ((self.video is Some && self.audio is Some) || (frame_arrived && self.video is Some)),
    {
        self.ready() || (frame_arrived && self.video.is_some())
    }

    /// Both sequence headers have been seen.
    pub fn ready(&self) -> (r: bool)
        ensures
            r == (self.video is Some && self.audio is Some),
    {
        self.video.is_some() && self.audio.is_some()
    }

    /// Handles one audio or video message: sequence headers fill in the
    /// parameters the first time, coded frames become packets of track 1
    /// (video) or 2 (audio) with the message timestamp.
    pub fn handle_message(&mut self, type_id: u8, timestamp: u32, payload: &[u8]) -> (r: Result<
        IngestEvent,
        TagError,
    >)
        ensures
            type_id != MESSAGE_AUDIO && type_id != MESSAGE_VIDEO ==> is_ignored(r) && *final(self)
                == *old(self),
            type_id == MESSAGE_VIDEO ==> (r is Err <==> video_tag_error(payload@) is Some),
            type_id == MESSAGE_VIDEO && r is Err ==> r->Err_0 == video_tag_error(payload@)->Some_0,
            type_id == MESSAGE_AUDIO ==> (r is Err <==> audio_tag_error(payload@) is Some),
            type_id == MESSAGE_AUDIO && r is Err ==> r->Err_0 == audio_tag_error(payload@)->Some_0,
            type_id == MESSAGE_VIDEO && video_tag_error(payload@) is None && payload@[1] == 1
                ==> event_packet(r) is Some && is_video_frame_packet(
                event_packet(r)->Some_0,
                payload@,
                timestamp,
            ),
            type_id == MESSAGE_VIDEO && video_tag_error(payload@) is None && payload@[1] == 0
                && old(self).video is None ==> is_config(r) && final(self).video is Some
                && config_matches(final(self).video->Some_0, payload@),
            type_id == MESSAGE_VIDEO && video_tag_error(payload@) is None && payload@[1] == 0
                && old(self).video is Some ==> is_ignored(r),
            type_id == MESSAGE_VIDEO && video_tag_error(payload@) is None && payload@[1] == 2
                ==> is_ignored(r),
            type_id == MESSAGE_AUDIO && audio_tag_error(payload@) is None && payload@[1] == 1
                ==> event_packet(r) is Some && is_audio_frame_packet(
                event_packet(r)->Some_0,
                payload@,
                timestamp,
            ),
            type_id == MESSAGE_AUDIO && audio_tag_error(payload@) is None && payload@[1] == 0
                && old(self).audio is None ==> is_config(r) && final(self).audio is Some && final(self).audio->Some_0@ == payload@.subrange(2, payload@.len() as int),
            type_id == MESSAGE_AUDIO && audio_tag_error(payload@) is None && payload@[1] == 0
                && old(self).audio is Some ==> is_ignored(r),
            !is_config(r) ==> *final(self) == *old(self),
            is_config(r) && type_id == MESSAGE_VIDEO ==> final(self).audio == old(self).audio,
            is_config(r) && type_id == MESSAGE_AUDIO ==> final(self).video == old(self).video,
    {
        if type_id == MESSAGE_VIDEO {
            match parse_video_tag(payload) {
                Err(e) => Err(e),
                Ok(VideoTag::SequenceHeader(c)) => {
                    if self.video.is_none() {
                        self.video = Some(c);
                        Ok(IngestEvent::Config)
                    } else {
                        Ok(IngestEvent::Ignored)
                    }
                },
                Ok(VideoTag::Nalu { key, composition_offset, data }) => {
                    Ok(
                        IngestEvent::Packet(
                            video_packet(VIDEO_TRACK_ID, timestamp, key, composition_offset, data),
                        ),
                    )
                },
                Ok(VideoTag::EndOfSequence) => Ok(IngestEvent::Ignored),
            }
        } else if type_id == MESSAGE_AUDIO {
            match parse_audio_tag(payload) {
                Err(e) => Err(e),
                Ok(AudioTag::AacSequenceHeader(asc)) => {
                    if self.audio.is_none() {
                        self.audio = Some(asc);
                        Ok(IngestEvent::Config)
                    } else {
                        Ok(IngestEvent::Ignored)
                    }
                },
                Ok(AudioTag::AacRaw(data)) => Ok(
                    IngestEvent::Packet(audio_packet(AUDIO_TRACK_ID, timestamp, data)),
                ),
            }
        } else {
            Ok(IngestEvent::Ignored)
        }
    }

    /// The tracks announced so far, video first: H.264 with length-prefixed
    /// units and AAC, both in milliseconds. Width and height come from the
    /// stream's metadata.
    pub fn tracks(&self, width: u32, height: u32, sample_rate: u32, channels: u16) -> (r: Vec<Track>)
        ensures
            r@.len() == (if self.video is Some { 1int } else { 0 }) + (if self.audio is Some {
                1int
            } else {
                0
            }),
            self.video is Some ==> r@[0].id == VIDEO_TRACK_ID && r@[0].timebase == (Fraction {
                numerator: 1,
                denominator: 1000,
            }) && match r@[0].info.kind {
                MediaKind::Video(v) => v.width == width && v.height == height && match v.codec {
                    VideoCodec::H264(c) => c.bitstream_format == BitstreamFraming::FourByteLength
                        && c.sps@ == self.video->Some_0.sps@ && c.pps@ == self.video->Some_0.pps@
                        && c.profile_indication == self.video->Some_0.profile_indication
                        && c.profile_compatibility == self.video->Some_0.profile_compatibility
                        && c.level_indication == self.video->Some_0.level_indication,
                },
                _ => false,
            },
            self.audio is Some ==> {
                let a = r@[r@.len() - 1];
                &&& a.id == AUDIO_TRACK_ID
                &&& a.timebase == (Fraction { numerator: 1, denominator: 1000 })
                &&& match a.info.kind {
                    MediaKind::Audio(info) => info.sample_rate == sample_rate && info.channels
                        == channels && match info.codec {
                        AudioCodec::Aac(asc) => asc@ == self.audio->Some_0@,
                    },
                    _ => false,
                }
            },
    {
        let mut tracks: Vec<Track> = Vec::new();
        match &self.video {
            Some(c) => {
                tracks.push(
                    Track {
                        id: VIDEO_TRACK_ID,
                        info: MediaInfo {
                            kind: MediaKind::Video(
                                VideoInfo {
                                    width,
                                    height,
                                    codec: VideoCodec::H264(
                                        H264Codec {
                                            profile_indication: c.profile_indication,
                                            profile_compatibility: c.profile_compatibility,
                                            level_indication: c.level_indication,
                                            sps: Span::from_vec(copy_bytes(&c.sps)),
                                            pps: Span::from_vec(copy_bytes(&c.pps)),
                                            bitstream_format: BitstreamFraming::FourByteLength,
                                        },
                                    ),
                                },
                            ),
                        },
                        timebase: Fraction { numerator: 1, denominator: 1000 },
                    },
                );
            },
            None => {},
        }
        match &self.audio {
            Some(asc) => {
                tracks.push(
                    Track {
                        id: AUDIO_TRACK_ID,
                        info: MediaInfo {
                            kind: MediaKind::Audio(
                                AudioInfo {
                                    sample_rate,
                                    channels,
                                    codec: AudioCodec::Aac(Span::from_vec(copy_bytes(asc))),
                                },
                            ),
                        },
                        timebase: Fraction { numerator: 1, denominator: 1000 },
                    },
                );
            },
            None => {},
        }
        tracks
    }
}

fn copy_bytes(v: &Vec<u8>) -> (r: Vec<u8>)
    ensures
        r@ == v@,
{
    let mut r: Vec<u8> = Vec::new();
    let mut i: usize = 0;
    while i < v.len()
        invariant
            i <= v@.len(),
            r@ == v@.subrange(0, i as int),
        decreases v@.len() - i,
    {
        r.push(v[i]);
        i = i + 1;
        assert(r@ =~= v@.subrange(0, i as int));
    }
    assert(v@.subrange(0, i as int) =~= v@);
    r
}

} // verus!
