//! The bodies of RTMP audio and video messages (FLV tag bodies): H.264 video
//! with its decoder configuration, and AAC audio.
use vstd::prelude::*;
use crate::fraction::Fraction;
use crate::media::{MediaTime, Packet};
use crate::span::Span;
use crate::wire::read_be16;

verus! {

/// Video codec id of H.264 in the low nibble of a video message's first byte.
pub const VIDEO_CODEC_AVC: u8 = 7;

/// Sound format of AAC in the high nibble of an audio message's first byte.
pub const SOUND_FORMAT_AAC: u8 = 10;

#[derive(Clone, Copy, Debug, PartialEq, Eq, Structural)]
pub enum TagError {
    /// The message ends before a field it needs.
    Truncated,
    /// A codec other than H.264 video or AAC audio; holds its id.
    UnsupportedCodec(u8),
    /// A packet type other than those of the codec; holds it.
    UnknownPacketType(u8),
    /// An AVC decoder configuration that is not version 1 or lacks an SPS or a PPS.
    InvalidSequenceHeader,
}

/// H.264 decoder configuration: the first SPS and the first PPS.
pub struct AvcConfig {
    pub profile_indication: u8,
    pub profile_compatibility: u8,
    pub level_indication: u8,
    /// Bytes of each length prefix of the stream's NAL units.
    pub length_size: u8,
    pub sps: Vec<u8>,
    pub pps: Vec<u8>,
}

pub enum VideoTag {
    SequenceHeader(AvcConfig),
    /// Coded frame data, length-prefixed NAL units.
    Nalu { key: bool, composition_offset: i32, data: Vec<u8> },
    EndOfSequence,
}

pub enum AudioTag {
    /// The AudioSpecificConfig.
    AacSequenceHeader(Vec<u8>),
    AacRaw(Vec<u8>),
}

/// Where the `count` length-prefixed entries that start at `pos` end, or
/// `None` where one runs past the end.
pub open spec fn entries_end(s: Seq<u8>, pos: int, count: nat) -> Option<int>
    decreases count,
{
    if count == 0 {
        Some(pos)
    } else if pos + 2 > s.len() {
        None
    } else if pos + 2 + read_be16(s, pos) > s.len() {
        None
    } else {
        entries_end(s, pos + 2 + read_be16(s, pos), (count - 1) as nat)
    }
}

/// The first of the entries at `pos`.
pub open spec fn first_entry(s: Seq<u8>, pos: int) -> Seq<u8> {
    s.subrange(pos + 2, pos + 2 + read_be16(s, pos))
}

/// The decoder configuration record: profile, compatibility, level, length
/// size, first SPS, first PPS.
pub open spec fn avc_config_of(s: Seq<u8>) -> Result<(u8, u8, u8, u8, Seq<u8>, Seq<u8>), TagError> {
    if s.len() < 6 {
        Err(TagError::Truncated)
    } else if s[0] != 1 || s[5] % 32 == 0 {
        Err(TagError::InvalidSequenceHeader)
    } else {
        match entries_end(s, 6, (s[5] % 32) as nat) {
            None => Err(TagError::Truncated),
            Some(p) => if p + 1 > s.len() {
                Err(TagError::Truncated)
            } else if s[p] % 32 == 0 {
                Err(TagError::InvalidSequenceHeader)
            } else {
                match entries_end(s, p + 1, (s[p] % 32) as nat) {
                    None => Err(TagError::Truncated),
                    Some(_) => Ok(
                        (
                            s[1],
                            s[2],
                            s[3],
                            (s[4] % 4 + 1) as u8,
                            first_entry(s, 6),
                            first_entry(s, p + 1),
                        ),
                    ),
                }
            },
        }
    }
}

/// A 24-bit two's complement value from three big-endian bytes.
pub open spec fn signed24(a: u8, b: u8, c: u8) -> int {
    let v = a as int * 0x1_0000 + b as int * 0x100 + c as int;
    if v >= 0x80_0000 {
        v - 0x100_0000
    } else {
        v
    }
}

fn skip_entries(s: &[u8], pos: usize, count: u8) -> (r: Option<usize>)
    requires
        pos <= s@.len(),
    ensures
        r is None <==> entries_end(s@, pos as int, count as nat) is None,
        r is Some ==> entries_end(s@, pos as int, count as nat) == Some(r->Some_0 as int),
        r is Some ==> pos <= r->Some_0 <= s@.len(),
{
    let mut p: usize = pos;
    let mut left: u8 = count;
    while left > 0
        invariant
            pos <= p <= s@.len(),
            entries_end(s@, pos as int, count as nat) == entries_end(s@, p as int, left as nat),
        decreases left,
    {
        if s.len() - p < 2 {
            return None;
        }
        let l: usize = (s[p] as usize) * 0x100 + (s[p + 1] as usize);
        if s.len() - p - 2 < l {
            return None;
        }
        p = p + 2 + l;
        left = left - 1;
    }
    Some(p)
}

fn copy_range(s: &[u8], start: usize, end: usize) -> (r: Vec<u8>)
    requires
        start <= end <= s@.len(),
    ensures
        r@ == s@.subrange(start as int, end as int),
{
    let mut r: Vec<u8> = Vec::new();
    let mut i: usize = start;
    while i < end
        invariant
            start <= i <= end <= s@.len(),
            r@ == s@.subrange(start as int, i as int),
        decreases end - i,
    {
        r.push(s[i]);
        i = i + 1;
        assert(r@ =~= s@.subrange(start as int, i as int));
    }
    r
}

/// Reads an AVC decoder configuration record (the body of an `avcC` box).
pub fn parse_avc_config(s: &[u8]) -> (r: Result<AvcConfig, TagError>)
    ensures
        r is Ok <==> avc_config_of(s@) is Ok,
        r is Err ==> r->Err_0 == avc_config_of(s@)->Err_0,
        r is Ok ==> {
            let c = r->Ok_0;
            let e = avc_config_of(s@)->Ok_0;
            &&& c.profile_indication == e.0
            &&& c.profile_compatibility == e.1
            &&& c.level_indication == e.2
            &&& c.length_size == e.3
            &&& c.sps@ == e.4
            &&& c.pps@ == e.5
        },
{
    if s.len() < 6 {
        return Err(TagError::Truncated);
    }
    if s[0] != 1 || s[5] % 32 == 0 {
        return Err(TagError::InvalidSequenceHeader);
    }
    let p = match skip_entries(s, 6, s[5] % 32) {
        Some(p) => p,
        None => {
            return Err(TagError::Truncated);
        },
    };
    if s.len() - p < 1 {
        return Err(TagError::Truncated);
    }
    if s[p] % 32 == 0 {
        return Err(TagError::InvalidSequenceHeader);
    }
    match skip_entries(s, p + 1, s[p] % 32) {
        Some(_) => {},
        None => {
            return Err(TagError::Truncated);
        },
    }
    let sps_len: usize = (s[6] as usize) * 0x100 + (s[7] as usize);
    let pps_len: usize = (s[p + 1] as usize) * 0x100 + (s[p + 2] as usize);
    let sps = copy_range(s, 8, 8 + sps_len);
    let pps = copy_range(s, p + 3, p + 3 + pps_len);
    Ok(
        AvcConfig {
            profile_indication: s[1],
            profile_compatibility: s[2],
            level_indication: s[3],
            length_size: s[4] % 4 + 1,
            sps,
            pps,
        },
    )
}

/// Reads the body of a video message: H.264 only.
pub fn parse_video_tag(s: &[u8]) -> (r: Result<VideoTag, TagError>)
    ensures
        s@.len() == 0 ==> r is Err && r->Err_0 == TagError::Truncated,
        s@.len() > 0 && s@[0] % 16 != VIDEO_CODEC_AVC ==> r is Err && r->Err_0
            == TagError::UnsupportedCodec(s@[0] % 16),
        s@.len() > 0 && s@[0] % 16 == VIDEO_CODEC_AVC && s@.len() < 5 ==> r is Err && r->Err_0
            == TagError::Truncated,
        s@.len() >= 5 && s@[0] % 16 == VIDEO_CODEC_AVC ==> match r {
            Ok(VideoTag::SequenceHeader(c)) => s@[1] == 0 && avc_config_of(
                s@.subrange(5, s@.len() as int),
            ) is Ok && c.sps@ == avc_config_of(s@.subrange(5, s@.len() as int))->Ok_0.4
                && c.pps@ == avc_config_of(s@.subrange(5, s@.len() as int))->Ok_0.5
                && c.profile_indication == avc_config_of(s@.subrange(5, s@.len() as int))->Ok_0.0
                && c.profile_compatibility == avc_config_of(s@.subrange(5, s@.len() as int))->Ok_0.1
                && c.level_indication == avc_config_of(s@.subrange(5, s@.len() as int))->Ok_0.2
                && c.length_size == avc_config_of(s@.subrange(5, s@.len() as int))->Ok_0.3,
            Ok(VideoTag::Nalu { key, composition_offset, data }) => s@[1] == 1 && key == (s@[0]
                / 16 == 1) && composition_offset == signed24(s@[2], s@[3], s@[4]) && data@
                == s@.subrange(5, s@.len() as int),
            Ok(VideoTag::EndOfSequence) => s@[1] == 2,
            Err(e) => (s@[1] == 0 && avc_config_of(s@.subrange(5, s@.len() as int)) is Err
                && e == avc_config_of(s@.subrange(5, s@.len() as int))->Err_0) || (s@[1] > 2
                && e == TagError::UnknownPacketType(s@[1])),
        },
{
    if s.len() == 0 {
        return Err(TagError::Truncated);
    }
    let codec = s[0] % 16;
    if codec != VIDEO_CODEC_AVC {
        return Err(TagError::UnsupportedCodec(codec));
    }
    if s.len() < 5 {
        return Err(TagError::Truncated);
    }
    let body = copy_range(s, 5, s.len());
    match s[1] {
        0 => match parse_avc_config(body.as_slice()) {
            Ok(c) => Ok(VideoTag::SequenceHeader(c)),
            Err(e) => Err(e),
        },
        1 => {
            let v: i32 = (s[2] as i32) * 0x1_0000 + (s[3] as i32) * 0x100 + (s[4] as i32);
            let composition_offset = if v >= 0x80_0000 {
                v - 0x100_0000
            } else {
                v
            };
            Ok(VideoTag::Nalu { key: s[0] / 16 == 1, composition_offset, data: body })
        },
        2 => Ok(VideoTag::EndOfSequence),
        t => Err(TagError::UnknownPacketType(t)),
    }
}

/// Reads the body of an audio message: AAC only.
pub fn parse_audio_tag(s: &[u8]) -> (r: Result<AudioTag, TagError>)
    ensures
        s@.len() == 0 ==> r is Err && r->Err_0 == TagError::Truncated,
        s@.len() > 0 && s@[0] / 16 != SOUND_FORMAT_AAC ==> r is Err && r->Err_0
            == TagError::UnsupportedCodec(s@[0] / 16),
        s@.len() == 1 && s@[0] / 16 == SOUND_FORMAT_AAC ==> r is Err && r->Err_0
            == TagError::Truncated,
        s@.len() >= 2 && s@[0] / 16 == SOUND_FORMAT_AAC ==> match r {
            Ok(AudioTag::AacSequenceHeader(asc)) => s@[1] == 0 && asc@ == s@.subrange(
                2,
                s@.len() as int,
            ),
            Ok(AudioTag::AacRaw(data)) => s@[1] == 1 && data@ == s@.subrange(2, s@.len() as int),
            Err(e) => s@[1] > 1 && e == TagError::UnknownPacketType(s@[1]),
        },
{
    if s.len() == 0 {
        return Err(TagError::Truncated);
    }
    let format = s[0] / 16;
    if format != SOUND_FORMAT_AAC {
        return Err(TagError::UnsupportedCodec(format));
    }
    if s.len() < 2 {
        return Err(TagError::Truncated);
    }
    let body = copy_range(s, 2, s.len());
    match s[1] {
        0 => Ok(AudioTag::AacSequenceHeader(body)),
        1 => Ok(AudioTag::AacRaw(body)),
        t => Err(TagError::UnknownPacketType(t)),
    }
}

/// The packet of a coded video frame: its presentation time is the message
/// timestamp in milliseconds, its decode time that less the composition offset.
pub fn video_packet(track_id: u32, timestamp: u32, key: bool, composition_offset: i32, data: Vec<
    u8,
>) -> (r: Packet)
    requires
        -0x80_0000 <= composition_offset < 0x80_0000,
    ensures
        r.track_id == track_id,
        r.time.pts == timestamp,
        r.time.dts == Some((timestamp - composition_offset) as i64),
        r.time.timebase == (Fraction { numerator: 1, denominator: 1000 }),
        r.key == key,
        r.buffer@ == data@,
        r.duration is None,
{
    let pts = timestamp as i64;
    Packet {
        track_id,
        time: MediaTime {
            pts,
            dts: Some(pts - composition_offset as i64),
            timebase: Fraction { numerator: 1, denominator: 1000 },
        },
        buffer: Span::from_vec(data),
        key,
        duration: None,
    }
}

/// The packet of an AAC frame at the message timestamp, in milliseconds.
pub fn audio_packet(track_id: u32, timestamp: u32, data: Vec<u8>) -> (r: Packet)
    ensures
        r.track_id == track_id,
        r.time.pts == timestamp,
        r.time.dts is None,
        r.time.timebase == (Fraction { numerator: 1, denominator: 1000 }),
        r.key,
        r.buffer@ == data@,
        r.duration is None,
{
    Packet {
        track_id,
        time: MediaTime {
            pts: timestamp as i64,
            dts: None,
            timebase: Fraction { numerator: 1, denominator: 1000 },
        },
        buffer: Span::from_vec(data),
        key: true,
        duration: None,
    }
}

} // verus!
