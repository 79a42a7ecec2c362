//! Tracks, their codec parameters, timestamps and packets.
use vstd::prelude::*;
use crate::fraction::Fraction;
use crate::nal::BitstreamFraming;
use crate::span::Span;

verus! {

/// Parameters of an H.264 elementary stream.
pub struct H264Codec {
    pub profile_indication: u8,
    pub profile_compatibility: u8,
    pub level_indication: u8,
    pub sps: Span,
    pub pps: Span,
    pub bitstream_format: BitstreamFraming,
}

pub enum VideoCodec {
    H264(H264Codec),
}

pub struct VideoInfo {
    pub width: u32,
    pub height: u32,
    pub codec: VideoCodec,
}

pub enum AudioCodec {
    /// AAC, with its AudioSpecificConfig bytes.
    Aac(Span),
}

pub struct AudioInfo {
    pub sample_rate: u32,
    pub channels: u16,
    pub codec: AudioCodec,
}

pub struct SubtitleInfo {
    /// Codec-specific header bytes.
    pub header: Span,
}

pub enum MediaKind {
    Video(VideoInfo),
    Audio(AudioInfo),
    Subtitle(SubtitleInfo),
}

pub struct MediaInfo {
    pub kind: MediaKind,
}

impl MediaInfo {
    pub fn is_video(&self) -> (r: bool)
        ensures
            r == self.kind is Video,
    {
        match self.kind {
            MediaKind::Video(_) => true,
            _ => false,
        }
    }

    pub fn is_audio(&self) -> (r: bool)
        ensures
            r == self.kind is Audio,
    {
        match self.kind {
            MediaKind::Audio(_) => true,
            _ => false,
        }
    }

    pub fn is_subtitle(&self) -> (r: bool)
        ensures
            r == self.kind is Subtitle,
    {
        match self.kind {
            MediaKind::Subtitle(_) => true,
            _ => false,
        }
    }
}

/// One elementary stream of a broadcast. `timebase` is the length of one tick
/// in seconds.
pub struct Track {
    pub id: u32,
    pub info: MediaInfo,
    pub timebase: Fraction,
}

/// A point in time, in ticks of a track's timebase. The decode time is `dts`
/// where it is known, else `pts`.
#[derive(Clone, Copy, Debug, PartialEq, Eq, Structural)]
pub struct MediaTime {
    pub pts: i64,
    pub dts: Option<i64>,
    pub timebase: Fraction,
}

pub open spec fn decode_time_of(t: MediaTime) -> i64 {
    match t.dts {
        Some(d) => d,
        None => t.pts,
    }
}

impl MediaTime {
    pub fn decode_time(&self) -> (r: i64)
        ensures
            r == decode_time_of(*self),
    {
        match self.dts {
            Some(d) => d,
            None => self.pts,
        }
    }

    /// The decode-time distance from `earlier` to `self`, in ticks; `None`
    /// where it does not fit in an `i64`.
    pub fn since(&self, earlier: &MediaTime) -> (r: Option<MediaDuration>)
        ensures
            r is Some <==> i64::MIN <= decode_time_of(*self) - decode_time_of(*earlier) <= i64::MAX,
            r is Some ==> r->Some_0.duration == decode_time_of(*self) - decode_time_of(*earlier)
                && r->Some_0.timebase == self.timebase,
    {
        let a = self.decode_time() as i128;
        let b = earlier.decode_time() as i128;
        let d = a - b;
        if d < i64::MIN as i128 || d > i64::MAX as i128 {
            None
        } else {
            Some(MediaDuration { duration: d as i64, timebase: self.timebase })
        }
    }
}

/// A length of time in ticks of `timebase`.
#[derive(Clone, Copy, Debug, PartialEq, Eq, Structural)]
pub struct MediaDuration {
    pub duration: i64,
    pub timebase: Fraction,
}

/// `n / d` rounded to the nearest integer, halves rounded up.
pub open spec fn div_round(n: nat, d: nat) -> nat
    recommends
        d > 0,
{
    (2 * n + d) / (2 * d)
}

impl MediaDuration {
    /// `millis` milliseconds expressed in ticks of `timebase`, rounded to the
    /// nearest tick.
    pub fn from_millis(millis: u32, timebase: Fraction) -> (r: MediaDuration)
        requires
            timebase.numerator > 0,
        ensures
            r.timebase == timebase,
            r.duration == div_round(
                millis as nat * timebase.denominator as nat,
                1000 * timebase.numerator as nat,
            ),
    {
        assert(millis as int * timebase.denominator as int <= 0xffff_ffff * 0xffff_ffff)
            by (nonlinear_arith)
            requires
                millis <= 0xffff_ffff,
                timebase.denominator <= 0xffff_ffff,
        ;
        let n: u128 = millis as u128 * timebase.denominator as u128;
        let d: u128 = 1000 * timebase.numerator as u128;
        assert(d <= 1000 * 0xffff_ffff);
        assert(2 * n + d <= u128::MAX);
        let q: u128 = (2 * n + d) / (2 * d);
        assert(q <= 2 * n + d) by (nonlinear_arith)
            requires
                d > 0,
                q == (2 * n + d) / (2 * d),
        ;
        assert(q <= i64::MAX) by (nonlinear_arith)
            requires
                d >= 1000,
                q == (2 * n + d) / (2 * d),
                n <= 0xffff_ffff * 0xffff_ffff,
        ;
        MediaDuration { duration: q as i64, timebase }
    }
}

/// A file carried beside the tracks of a movie.
pub struct Attachment {
    pub name: String,
    pub mime: String,
    pub data: Span,
}

/// The tracks of a broadcast, in order.
pub struct Movie {
    pub tracks: Vec<Track>,
    pub attachments: Vec<Attachment>,
}

/// The positions of the subtitle tracks, in order.
pub open spec fn subtitle_positions(tracks: Seq<Track>) -> Seq<int>
    decreases tracks.len(),
{
    if tracks.len() == 0 {
        Seq::empty()
    } else {
        let rest = subtitle_positions(tracks.drop_last());
        if tracks.last().info.kind is Subtitle {
            rest.push(tracks.len() - 1)
        } else {
            rest
        }
    }
}

/// Whether the movie has a video track with the given id.
pub open spec fn has_video_track(tracks: Seq<Track>, id: u32) -> bool {
    exists|i: int| 0 <= i < tracks.len() && tracks[i].id == id && (#[trigger] tracks[i]).info.kind is Video
}

impl Movie {
    /// The positions in `tracks` of the subtitle tracks.
    pub fn subtitles(&self) -> (r: Vec<usize>)
        ensures
            r@.map_values(|i: usize| i as int) == subtitle_positions(self.tracks@),
    {
        let mut r: Vec<usize> = Vec::new();
        let mut i: usize = 0;
        while i < self.tracks.len()
            invariant
                i <= self.tracks@.len(),
                r@.map_values(|k: usize| k as int) == subtitle_positions(self.tracks@.take(i as int)),
            decreases self.tracks@.len() - i,
        {
            let ghost prev = r@;
            if self.tracks[i].info.is_subtitle() {
                r.push(i);
            }
            proof {
                assert(self.tracks@.take(i + 1).drop_last() =~= self.tracks@.take(i as int));
                assert(r@.map_values(|k: usize| k as int) =~= subtitle_positions(
                    self.tracks@.take(i + 1),
                ));
            }
            i = i + 1;
        }
        assert(self.tracks@.take(i as int) =~= self.tracks@);
        r
    }

    /// Whether a viewer can start with this packet: a keyframe of a video track.
    pub fn is_sync_point(&self, packet: &Packet) -> (r: bool)
        ensures
            r == (packet.key && has_video_track(self.tracks@, packet.track_id)),
    {
        packet.key && self.is_video_track(packet.track_id)
    }

    /// Whether a track with this id is a video track.
    pub fn is_video_track(&self, id: u32) -> (r: bool)
        ensures
            r == has_video_track(self.tracks@, id),
    {
        let mut i: usize = 0;
        while i < self.tracks.len()
            invariant
                i <= self.tracks@.len(),
                forall|j: int|
                    0 <= j < i ==> !((#[trigger] self.tracks@[j]).id == id
                        && self.tracks@[j].info.kind is Video),
            decreases self.tracks@.len() - i,
        {
            if self.tracks[i].id == id && self.tracks[i].info.is_video() {
                assert(self.tracks@[i as int].id == id && self.tracks@[i as int].info.kind is Video);
                return true;
            }
            i = i + 1;
        }
        proof {
            if has_video_track(self.tracks@, id) {
                let j = choose|j: int|
                    0 <= j < self.tracks@.len() && self.tracks@[j].id == id && (
                    #[trigger] self.tracks@[j]).info.kind is Video;
                assert(!(self.tracks@[j].id == id && self.tracks@[j].info.kind is Video));
            }
        }
        false
    }
}

/// One coded frame of a track. `track_id` names a track of the broadcast's
/// movie; `key` marks a frame that decodes on its own.
pub struct Packet {
    pub track_id: u32,
    pub time: MediaTime,
    pub buffer: Span,
    pub key: bool,
    pub duration: Option<MediaDuration>,
}

/// A packet with its bytes as a sequence.
pub struct PacketView {
    pub track_id: u32,
    pub time: MediaTime,
    pub data: Seq<u8>,
    pub key: bool,
    pub duration: Option<MediaDuration>,
}

impl View for Packet {
    type V = PacketView;

    open spec fn view(&self) -> PacketView {
        PacketView {
            track_id: self.track_id,
            time: self.time,
            data: self.buffer@,
            key: self.key,
            duration: self.duration,
        }
    }
}

pub open spec fn packet_views(ps: Seq<Packet>) -> Seq<PacketView> {
    ps.map_values(|p: Packet| p@)
}

impl Packet {
    /// A packet with the same fields, sharing the bytes.
    pub fn duplicate(&self) -> (r: Packet)
        ensures
            r@ == self@,
    {
        let buffer = self.buffer.share();
        Packet {
            track_id: self.track_id,
            time: self.time,
            buffer,
            key: self.key,
            duration: self.duration,
        }
    }
}

} // verus!
