//! A fragmented MP4 muxer: one initialisation segment, then one `moof` +
//! `mdat` media segment per packet.
use vstd::prelude::*;
use crate::boxes::{
    audio_trak_box, ftyp_box, mehd_box, mp4_box, mvhd_box, trex_box, video_trak_box, write_audio_trak,
    write_box, write_ftyp, write_mehd, write_mvhd, write_trex, write_video_trak, MAX_ASC_LEN, MOOV_BOX,
    MVEX_BOX,
};
use crate::fraction::{gcd, Fraction};
use crate::media::{
    decode_time_of, div_round, has_video_track, AudioCodec, MediaDuration, MediaKind, Movie, Packet, Track,
    VideoCodec,
};
use crate::nal::{converted, convert_bitstream, BitstreamError, BitstreamFraming};
use crate::span::Span;
use crate::wire::{be32, be64, push_bytes, push_u32, push_u64};

verus! {

pub const MOOF_BOX: u32 = 0x6d6f6f66;
pub const MFHD_BOX: u32 = 0x6d666864;
pub const TRAF_BOX: u32 = 0x74726166;
pub const TFHD_BOX: u32 = 0x74666864;
pub const TRUN_BOX: u32 = 0x7472756e;
pub const TFDT_BOX: u32 = 0x74666474;
pub const MDAT_BOX: u32 = 0x6d646174;

/// `tfhd` flags: the base data offset is the start of the `moof`.
pub const TFHD_DEFAULT_BASE_IS_MOOF: u32 = 0x0002_0000;

/// `trun` flags: data offset, first sample flags, sample duration and sample
/// size are present.
pub const TRUN_FLAGS: u32 = 0x0000_0305;

/// First sample flags of a sample that depends on no other.
pub const SAMPLE_DEPENDS_ON_NONE: u32 = 0x0001_0000;

/// Length of every `moof` this muxer writes.
pub const MOOF_LEN: u32 = 104;

/// The fallback length of a sample whose duration is not otherwise known.
pub const DEFAULT_SAMPLE_MILLIS: u32 = 16;

#[derive(Clone, Copy, Debug, PartialEq, Eq, Structural)]
pub enum MuxError {
    /// The packet's track is not one of the muxer's tracks.
    UnknownTrack,
    /// Width or height does not fit in 16 bits.
    DimensionsTooLarge,
    /// A timebase of zero where a tick length is needed.
    InvalidTimebase,
    /// A sample duration outside `0..=u32::MAX` or a decode time outside
    /// `0..=u64::MAX` ticks.
    TimestampOutOfRange,
    /// A sample, or the output, too large for its length field.
    TooLarge,
    /// An AudioSpecificConfig longer than the `esds` box carries.
    InvalidAudioConfig,
    Bitstream(BitstreamError),
}

/// Per-track state: the id in the source movie, the id in the output, the
/// timebase, the source framing of an H.264 track, and the decode times of the
/// first and of the latest packet written.
#[derive(Clone, Copy, Debug, PartialEq, Eq, Structural)]
pub struct MuxTrack {
    pub source_id: u32,
    pub internal_id: u32,
    pub timebase: Fraction,
    pub framing: Option<BitstreamFraming>,
    pub start: Option<i64>,
    pub prev: Option<i64>,
}

/// What the initialisation segment needs of the video track.
pub struct VideoParams {
    pub width: u32,
    pub height: u32,
    pub timebase: Fraction,
    pub profile_indication: u8,
    pub profile_compatibility: u8,
    pub level_indication: u8,
    pub sps: Vec<u8>,
    pub pps: Vec<u8>,
}

/// What the initialisation segment needs of the audio track.
pub struct AudioParams {
    pub sample_rate: u32,
    pub channels: u16,
    pub timebase: Fraction,
    pub asc: Vec<u8>,
}

/// `AudioParams` with the AudioSpecificConfig as a sequence.
pub struct AudioView {
    pub sample_rate: u32,
    pub channels: u16,
    pub timebase: Fraction,
    pub asc: Seq<u8>,
}

impl View for AudioParams {
    type V = AudioView;

    open spec fn view(&self) -> AudioView {
        AudioView {
            sample_rate: self.sample_rate,
            channels: self.channels,
            timebase: self.timebase,
            asc: self.asc@,
        }
    }
}

/// `VideoParams` with its byte fields as sequences.
pub struct VideoView {
    pub width: u32,
    pub height: u32,
    pub timebase: Fraction,
    pub profile_indication: u8,
    pub profile_compatibility: u8,
    pub level_indication: u8,
    pub sps: Seq<u8>,
    pub pps: Seq<u8>,
}

impl View for VideoParams {
    type V = VideoView;

    open spec fn view(&self) -> VideoView {
        VideoView {
            width: self.width,
            height: self.height,
            timebase: self.timebase,
            profile_indication: self.profile_indication,
            profile_compatibility: self.profile_compatibility,
            level_indication: self.level_indication,
            sps: self.sps@,
            pps: self.pps@,
        }
    }
}

pub open spec fn kind_matches(t: Track, video: bool) -> bool {
    if video {
        t.info.kind is Video
    } else {
        t.info.kind is Audio
    }
}

/// `i` is the first track of the kind.
pub open spec fn is_first_of(s: Seq<Track>, i: int, video: bool) -> bool {
    &&& 0 <= i < s.len()
    &&& kind_matches(s[i], video)
    &&& forall|j: int| 0 <= j < i ==> !kind_matches(#[trigger] s[j], video)
}

/// The position of the first video (or audio) track.
pub open spec fn first_of(s: Seq<Track>, video: bool) -> Option<int> {
    if exists|i: int| is_first_of(s, i, video) {
        Some(choose|i: int| is_first_of(s, i, video))
    } else {
        None
    }
}

pub proof fn lemma_first_unique(s: Seq<Track>, i: int, k: int, video: bool)
    requires
        is_first_of(s, i, video),
        is_first_of(s, k, video),
    ensures
        i == k,
{
    if i < k {
        assert(!kind_matches(s[i], video));
    } else if k < i {
        assert(!kind_matches(s[k], video));
    }
}

pub open spec fn h264_framing(t: Track) -> BitstreamFraming {
    match t.info.kind {
        MediaKind::Video(v) => match v.codec {
            VideoCodec::H264(c) => c.bitstream_format,
        },
        _ => BitstreamFraming::FourByteLength,
    }
}

pub open spec fn video_view_of(t: Track) -> VideoView {
    match t.info.kind {
        MediaKind::Video(v) => match v.codec {
            VideoCodec::H264(c) => VideoView {
                width: v.width,
                height: v.height,
                timebase: t.timebase,
                profile_indication: c.profile_indication,
                profile_compatibility: c.profile_compatibility,
                level_indication: c.level_indication,
                sps: c.sps@,
                pps: c.pps@,
            },
        },
        _ => arbitrary(),
    }
}

/// The muxer's tracks for a movie: its first video track as track 1, then its
/// first audio track with the next id.
pub open spec fn assigned_tracks(s: Seq<Track>) -> Seq<MuxTrack> {
    let v: Seq<MuxTrack> = match first_of(s, true) {
        Some(i) => seq![
            MuxTrack {
                source_id: s[i].id,
                internal_id: 1,
                timebase: s[i].timebase,
                framing: Some(h264_framing(s[i])),
                start: None,
                prev: None,
            },
        ],
        None => Seq::empty(),
    };
    let a: Seq<MuxTrack> = match first_of(s, false) {
        Some(j) => seq![
            MuxTrack {
                source_id: s[j].id,
                internal_id: (v.len() + 1) as u32,
                timebase: s[j].timebase,
                framing: None,
                start: None,
                prev: None,
            },
        ],
        None => Seq::empty(),
    };
    v + a
}

pub open spec fn audio_view_of(t: Track) -> AudioView {
    match t.info.kind {
        MediaKind::Audio(a) => match a.codec {
            AudioCodec::Aac(asc) => AudioView {
                sample_rate: a.sample_rate,
                channels: a.channels,
                timebase: t.timebase,
                asc: asc@,
            },
        },
        _ => arbitrary(),
    }
}

pub open spec fn assigned_audio(s: Seq<Track>) -> Option<AudioView> {
    match first_of(s, false) {
        Some(j) => Some(audio_view_of(s[j])),
        None => None,
    }
}

pub open spec fn assigned_video(s: Seq<Track>) -> Option<VideoView> {
    match first_of(s, true) {
        Some(i) => Some(video_view_of(s[i])),
        None => None,
    }
}

/// Why the initialisation segment cannot be written for the tracks, if it can't.
pub open spec fn init_error(video: Option<VideoView>, audio: Option<AudioView>) -> Option<MuxError> {
    match video {
        Some(v) if v.width > u16::MAX || v.height > u16::MAX => Some(MuxError::DimensionsTooLarge),
        Some(v) if v.sps.len() > u16::MAX || v.pps.len() > u16::MAX => Some(
            MuxError::Bitstream(BitstreamError::UnitTooLong),
        ),
        Some(v) if v.timebase.numerator == 0 && v.timebase.denominator == 0 => Some(
            MuxError::InvalidTimebase,
        ),
        _ => match audio {
            Some(a) if a.asc.len() > MAX_ASC_LEN => Some(MuxError::InvalidAudioConfig),
            Some(a) if a.timebase.numerator == 0 && a.timebase.denominator == 0 => Some(
                MuxError::InvalidTimebase,
            ),
            _ => None,
        },
    }
}

/// The `mdhd` timescale of a track: its timebase's denominator in lowest terms.
pub open spec fn timescale_of(tb: Fraction) -> u32 {
    (tb.denominator as nat / gcd(tb.numerator as nat, tb.denominator as nat)) as u32
}

/// Output track id of the audio track: after the video track, if there is one.
pub open spec fn audio_track_id(video: Option<VideoView>) -> u32 {
    if video is Some {
        2
    } else {
        1
    }
}

/// The initialisation segment: `ftyp`, then `moov` with `mvhd`, `mvex` with
/// one `trex` per track, then one `trak` per track, video first.
#[verifier::opaque]
pub open spec fn init_segment_bytes(
    tracks: Seq<MuxTrack>,
    video: Option<VideoView>,
    audio: Option<AudioView>,
) -> Seq<u8> {
    let video_trex = match video {
        Some(v) => trex_box(1),
        None => Seq::empty(),
    };
    let audio_trex = match audio {
        Some(a) => trex_box(audio_track_id(video)),
        None => Seq::empty(),
    };
    let video_trak = match video {
        Some(v) => video_trak_box(
            1,
            v.width as u16,
            v.height as u16,
            timescale_of(v.timebase),
            v.profile_indication,
            v.profile_compatibility,
            v.level_indication,
            v.sps,
            v.pps,
        ),
        None => Seq::empty(),
    };
    let audio_trak = match audio {
        Some(a) => audio_trak_box(
            audio_track_id(video),
            timescale_of(a.timebase),
            a.sample_rate,
            a.channels,
            a.asc,
        ),
        None => Seq::empty(),
    };
    ftyp_box() + mp4_box(
        MOOV_BOX,
        mvhd_box((tracks.len() + 1) as u32) + mp4_box(MVEX_BOX, mehd_box() + video_trex + audio_trex)
            + video_trak + audio_trak,
    )
}

/// The `moof` of a one-sample fragment; its data offset points just past the
/// `mdat` header that follows it.
#[verifier::opaque]
pub open spec fn moof_bytes(
    seq: u64,
    track_id: u32,
    key: bool,
    duration: u32,
    size: u32,
    base: u64,
) -> Seq<u8> {
    mp4_box(
        MOOF_BOX,
        mp4_box(MFHD_BOX, be32(0) + be64(seq)) + mp4_box(
            TRAF_BOX,
            mp4_box(TFHD_BOX, be32(TFHD_DEFAULT_BASE_IS_MOOF) + be32(track_id)) + mp4_box(
                TRUN_BOX,
                be32(TRUN_FLAGS) + be32(1) + be32((MOOF_LEN + 8) as u32) + be32(
                    if key {
                        SAMPLE_DEPENDS_ON_NONE
                    } else {
                        0
                    },
                ) + be32(duration) + be32(size),
            ) + mp4_box(TFDT_BOX, be32(0x0100_0000) + be64(base)),
        ),
    )
}

/// A media segment: the `moof`, then an `mdat` holding the sample.
/// The `mdat` length field counts its 8-byte header.
pub open spec fn media_segment_bytes(
    seq: u64,
    track_id: u32,
    key: bool,
    duration: u32,
    base: u64,
    sample: Seq<u8>,
) -> Seq<u8> {
    moof_bytes(seq, track_id, key, duration, sample.len() as u32, base) + mp4_box(
        MDAT_BOX,
        sample,
    )
}

/// The first of the muxer's tracks that stands for source track `id`.
pub open spec fn is_track_index(tracks: Seq<MuxTrack>, id: u32, i: int) -> bool {
    &&& 0 <= i < tracks.len()
    &&& tracks[i].source_id == id
    &&& forall|j: int| 0 <= j < i ==> (#[trigger] tracks[j]).source_id != id
}

pub open spec fn track_index(tracks: Seq<MuxTrack>, id: u32) -> Option<int> {
    if exists|i: int| is_track_index(tracks, id, i) {
        Some(choose|i: int| is_track_index(tracks, id, i))
    } else {
        None
    }
}

/// Decode time of the previous packet of the track, or of this one.
pub open spec fn prev_time(tr: MuxTrack, t: i64) -> int {
    match tr.prev {
        Some(p) => p as int,
        None => t as int,
    }
}

pub open spec fn start_time(tr: MuxTrack, t: i64) -> int {
    match tr.start {
        Some(s) => s as int,
        None => t as int,
    }
}

/// The sample's duration: the distance from the previous packet of the track,
/// or where that is zero the packet's own duration, or 16 ms in ticks.
pub open spec fn sample_duration(tr: MuxTrack, packet: Packet) -> int {
    let t = decode_time_of(packet.time);
    let delta = t - prev_time(tr, t);
    if delta != 0 {
        delta
    } else {
        match packet.duration {
            Some(d) => d.duration as int,
            None => div_round(
                DEFAULT_SAMPLE_MILLIS as nat * tr.timebase.denominator as nat,
                1000 * tr.timebase.numerator as nat,
            ) as int,
        }
    }
}

/// The `tfdt` decode time: from the first packet of the track to the previous one.
pub open spec fn base_decode_time(tr: MuxTrack, packet: Packet) -> int {
    let t = decode_time_of(packet.time);
    prev_time(tr, t) - start_time(tr, t)
}

pub open spec fn needs_default_duration(tr: MuxTrack, packet: Packet) -> bool {
    let t = decode_time_of(packet.time);
    t - prev_time(tr, t) == 0 && packet.duration is None
}

/// The bytes of the sample as they go into `mdat`: H.264 re-framed with
/// four-byte lengths, anything else as it is.
pub open spec fn sample_of(tr: MuxTrack, packet: Packet) -> Result<Seq<u8>, BitstreamError> {
    match tr.framing {
        Some(f) => converted(packet.buffer@, f, BitstreamFraming::FourByteLength),
        None => Ok(packet.buffer@),
    }
}

/// What `write_media_segment` returns for the packet, given the muxer's tracks
/// and sequence number.
pub open spec fn segment_outcome(tracks: Seq<MuxTrack>, seq: u64, packet: Packet) -> Result<
    Seq<u8>,
    MuxError,
> {
    match track_index(tracks, packet.track_id) {
        None => Err(MuxError::UnknownTrack),
        Some(i) => {
            let tr = tracks[i];
            let dur = sample_duration(tr, packet);
            let base = base_decode_time(tr, packet);
            if needs_default_duration(tr, packet) && tr.timebase.numerator == 0 {
                Err(MuxError::InvalidTimebase)
            } else if !(0 <= dur <= u32::MAX) || !(0 <= base <= u64::MAX) {
                Err(MuxError::TimestampOutOfRange)
            } else {
                match sample_of(tr, packet) {
                    Err(e) => Err(MuxError::Bitstream(e)),
                    Ok(sample) => if sample.len() + 8 + MOOF_LEN > u32::MAX {
                        Err(MuxError::TooLarge)
                    } else {
                        Ok(
                            media_segment_bytes(
                                seq,
                                tr.internal_id,
                                packet.key,
                                dur as u32,
                                base as u64,
                                sample,
                            ),
                        )
                    },
                }
            }
        },
    }
}

/// The tracks after a packet was written: its track remembers the packet's
/// decode time, and the first one it saw.
pub open spec fn tracks_after(tracks: Seq<MuxTrack>, packet: Packet) -> Seq<MuxTrack> {
    match track_index(tracks, packet.track_id) {
        None => tracks,
        Some(i) => {
            let t = decode_time_of(packet.time);
            tracks.update(
                i,
                MuxTrack {
                    start: Some(start_time(tracks[i], t) as i64),
                    prev: Some(t),
                    ..tracks[i]
                },
            )
        },
    }
}

/// Segments for the packets one after another, starting at sequence number
/// `seq`: their bytes and the tracks afterwards, or the first error met.
pub open spec fn run_segments(tracks: Seq<MuxTrack>, seq: u64, packets: Seq<Packet>) -> Result<
    (Seq<u8>, Seq<MuxTrack>),
    MuxError,
>
    decreases packets.len(),
{
    if packets.len() == 0 {
        Ok((Seq::empty(), tracks))
    } else {
        match run_segments(tracks, seq, packets.drop_last()) {
            Err(e) => Err(e),
            Ok((bytes, tr)) => match segment_outcome(
                tr,
                (seq + packets.len() - 1) as u64,
                packets.last(),
            ) {
                Err(e) => Err(e),
                Ok(b) => if bytes.len() + b.len() > usize::MAX {
                    Err(MuxError::TooLarge)
                } else {
                    Ok((bytes + b, tracks_after(tr, packets.last())))
                },
            },
        }
    }
}

pub proof fn lemma_run_error_persists(
    tracks: Seq<MuxTrack>,
    seq: u64,
    packets: Seq<Packet>,
    k: int,
)
    requires
        0 <= k <= packets.len(),
        run_segments(tracks, seq, packets.take(k)) is Err,
    ensures
        run_segments(tracks, seq, packets) == run_segments(tracks, seq, packets.take(k)),
    decreases packets.len() - k,
{
    if k == packets.len() {
        assert(packets.take(k) =~= packets);
    } else {
        assert(packets.take(k + 1).drop_last() =~= packets.take(k));
        lemma_run_error_persists(tracks, seq, packets, k + 1);
    }
}

pub struct FragmentedMp4Muxer {
    tracks: Vec<MuxTrack>,
    video: Option<VideoParams>,
    audio: Option<AudioParams>,
    seq: u64,
}

impl FragmentedMp4Muxer {
    pub closed spec fn tracks(&self) -> Seq<MuxTrack> {
        self.tracks@
    }

    pub closed spec fn video(&self) -> Option<VideoView> {
        match self.video {
            Some(v) => Some(v@),
            None => None,
        }
    }

    pub closed spec fn audio(&self) -> Option<AudioView> {
        match self.audio {
            Some(a) => Some(a@),
            None => None,
        }
    }

    /// The sequence number of the next media segment.
    pub closed spec fn sequence(&self) -> u64 {
        self.seq
    }

    /// The sequence number the next media segment will carry.
    pub fn next_sequence(&self) -> (r: u64)
        ensures
            r == self.sequence(),
    {
        self.seq
    }

    /// A muxer for the movie's first video track and first audio track.
    pub fn with_streams(streams: &Vec<Track>) -> (r: FragmentedMp4Muxer)
        ensures
            r.tracks() == assigned_tracks(streams@),
            r.video() == assigned_video(streams@),
            r.audio() == assigned_audio(streams@),
            r.sequence() == 0,
    {
        let mut tracks: Vec<MuxTrack> = Vec::new();
        let mut video: Option<VideoParams> = None;
        let vi = find_first(streams, true);
        if let Some(i) = vi {
            let t = &streams[i];
            match &t.info.kind {
                MediaKind::Video(v) => match &v.codec {
                    VideoCodec::H264(c) => {
                        tracks.push(
                            MuxTrack {
                                source_id: t.id,
                                internal_id: 1,
                                timebase: t.timebase,
                                framing: Some(c.bitstream_format),
                                start: None,
                                prev: None,
                            },
                        );
                        video = Some(
                            VideoParams {
                                width: v.width,
                                height: v.height,
                                timebase: t.timebase,
                                profile_indication: c.profile_indication,
                                profile_compatibility: c.profile_compatibility,
                                level_indication: c.level_indication,
                                sps: c.sps.to_vec(),
                                pps: c.pps.to_vec(),
                            },
                        );
                    },
                },
                _ => {},
            }
        }
        let mut audio: Option<AudioParams> = None;
        let ai = find_first(streams, false);
        if let Some(j) = ai {
            let t = &streams[j];
            match &t.info.kind {
                MediaKind::Audio(a) => match &a.codec {
                    AudioCodec::Aac(asc) => {
                        audio = Some(
                            AudioParams {
                                sample_rate: a.sample_rate,
                                channels: a.channels,
                                timebase: t.timebase,
                                asc: asc.to_vec(),
                            },
                        );
                    },
                },
                _ => {},
            }
            let internal_id: u32 = if tracks.len() == 0 { 1 } else { 2 };
            tracks.push(
                MuxTrack {
                    source_id: t.id,
                    internal_id,
                    timebase: t.timebase,
                    framing: None,
                    start: None,
                    prev: None,
                },
            );
        }
        let r = FragmentedMp4Muxer { tracks, video, audio, seq: 0 };
        assert(r.tracks@ =~= assigned_tracks(streams@));
        r
    }

    /// `ftyp` followed by `moov`. Calling it changes nothing, so every call on
    /// muxers with the same tracks gives the same bytes.
    pub fn initialization_segment(&self) -> (r: Result<Span, MuxError>)
        requires
            self.tracks().len() <= 2,
        ensures
            r is Ok <==> init_error(self.video(), self.audio()) is None,
            r is Ok ==> r->Ok_0@ == init_segment_bytes(self.tracks(), self.video(), self.audio()),
            r is Err ==> init_error(self.video(), self.audio()) == Some(r->Err_0),
    {
        reveal(init_segment_bytes);
        let ftyp = write_ftyp();
        let mvhd = write_mvhd((self.tracks.len() + 1) as u32);
        let mehd = write_mehd();
        let mut mvex: Vec<u8> = Vec::new();
        push_bytes(&mut mvex, mehd.as_slice());
        let mut video_trak: Vec<u8> = Vec::new();
        match &self.video {
            Some(v) => {
                if v.width > 0xffff || v.height > 0xffff {
                    return Err(MuxError::DimensionsTooLarge);
                }
                if v.sps.len() > 0xffff || v.pps.len() > 0xffff {
                    return Err(MuxError::Bitstream(BitstreamError::UnitTooLong));
                }
                if v.timebase.numerator == 0 && v.timebase.denominator == 0 {
                    return Err(MuxError::InvalidTimebase);
                }
                let trex = write_trex(1);
                push_bytes(&mut mvex, trex.as_slice());
                let timescale = v.timebase.simplify().denominator;
                video_trak = write_video_trak(
                    1,
                    v.width as u16,
                    v.height as u16,
                    timescale,
                    v.profile_indication,
                    v.profile_compatibility,
                    v.level_indication,
                    &v.sps,
                    &v.pps,
                );
            },
            None => {},
        }
        let audio_id: u32 = if self.video.is_some() { 2 } else { 1 };
        let mut audio_trak: Vec<u8> = Vec::new();
        match &self.audio {
            Some(a) => {
                if a.asc.len() > MAX_ASC_LEN {
                    return Err(MuxError::InvalidAudioConfig);
                }
                if a.timebase.numerator == 0 && a.timebase.denominator == 0 {
                    return Err(MuxError::InvalidTimebase);
                }
                let trex = write_trex(audio_id);
                push_bytes(&mut mvex, trex.as_slice());
                let timescale = a.timebase.simplify().denominator;
                audio_trak = write_audio_trak(audio_id, timescale, a.sample_rate, a.channels, &a.asc);
            },
            None => {},
        }
        let mvex_box = write_box(MVEX_BOX, &mvex);
        let mut moov: Vec<u8> = Vec::new();
        push_bytes(&mut moov, mvhd.as_slice());
        push_bytes(&mut moov, mvex_box.as_slice());
        push_bytes(&mut moov, video_trak.as_slice());
        push_bytes(&mut moov, audio_trak.as_slice());
        let moov_box = write_box(MOOV_BOX, &moov);
        let mut out: Vec<u8> = Vec::new();
        push_bytes(&mut out, ftyp.as_slice());
        push_bytes(&mut out, moov_box.as_slice());
        Ok(Span::from_vec(out))
    }

    /// The media segment of one packet. The sequence number goes up by one for
    /// every segment written, and the packet's track remembers its decode time.
    /// Where an error is returned nothing changes.
    #[verifier::rlimit(40)]
    pub fn write_media_segment(&mut self, packet: &Packet) -> (r: Result<Span, MuxError>)
        requires
            old(self).sequence() < u64::MAX,
        ensures
            r is Ok <==> segment_outcome(old(self).tracks(), old(self).sequence(), *packet) is Ok,
            r is Ok ==> r->Ok_0@ == segment_outcome(
                old(self).tracks(),
                old(self).sequence(),
                *packet,
            )->Ok_0,
            r is Ok ==> final(self).sequence() == old(self).sequence() + 1,
            r is Ok ==> final(self).tracks() == tracks_after(old(self).tracks(), *packet),
            r is Err ==> r->Err_0 == segment_outcome(
                old(self).tracks(),
                old(self).sequence(),
                *packet,
            )->Err_0,
            r is Err ==> final(self).sequence() == old(self).sequence(),
            r is Err ==> final(self).tracks() == old(self).tracks(),
            final(self).video() == old(self).video(),
            final(self).audio() == old(self).audio(),
    {
        let i = match find_track(&self.tracks, packet.track_id) {
            Some(i) => i,
            None => {
                return Err(MuxError::UnknownTrack);
            },
        };
        let tr = self.tracks[i];
        assert(tr == old(self).tracks()[i as int]);
        let t = packet.time.decode_time();
        let prev = match tr.prev {
            Some(p) => p,
            None => t,
        };
        let start = match tr.start {
            Some(s) => s,
            None => t,
        };
        let delta: i128 = t as i128 - prev as i128;
        let base: i128 = prev as i128 - start as i128;
        let dur: i128 = if delta != 0 {
            delta
        } else {
            match packet.duration {
                Some(d) => d.duration as i128,
                None => {
                    if tr.timebase.numerator == 0 {
                        return Err(MuxError::InvalidTimebase);
                    }
                    MediaDuration::from_millis(DEFAULT_SAMPLE_MILLIS, tr.timebase).duration as i128
                },
            }
        };
        assert(dur == sample_duration(tr, *packet));
        assert(base == base_decode_time(tr, *packet));
        if dur < 0 || dur > u32::MAX as i128 || base < 0 || base > u64::MAX as i128 {
            return Err(MuxError::TimestampOutOfRange);
        }
        let sample = match tr.framing {
            Some(f) => match convert_bitstream(&packet.buffer, f, BitstreamFraming::FourByteLength) {
                Ok(s) => s,
                Err(e) => {
                    return Err(MuxError::Bitstream(e));
                },
            },
            None => packet.buffer.share(),
        };
        assert(sample@ == sample_of(tr, *packet)->Ok_0);
        if sample.len() > (u32::MAX - 8 - MOOF_LEN) as usize {
            return Err(MuxError::TooLarge);
        }
        let size = sample.len() as u32;
        let moof = write_moof(self.seq, tr.internal_id, packet.key, dur as u32, size, base as u64);
        let mut mdat_header: Vec<u8> = Vec::new();
        push_u32(&mut mdat_header, size + 8);
        push_u32(&mut mdat_header, MDAT_BOX);
        let head = Span::from_vec(moof).concat(&Span::from_vec(mdat_header));
        let segment = head.concat(&sample);
        assert(segment@ =~= media_segment_bytes(
            self.seq,
            tr.internal_id,
            packet.key,
            dur as u32,
            base as u64,
            sample@,
        ));
        self.seq = self.seq + 1;
        self.tracks.set(i, MuxTrack { start: Some(start), prev: Some(t), ..tr });
        Ok(segment)
    }
    /// The media segments of the packets, one after another.
    pub fn write_many_media_segments(&mut self, packets: &Vec<Packet>) -> (r: Result<
        Span,
        MuxError,
    >)
        requires
            old(self).sequence() + packets@.len() <= u64::MAX,
        ensures
            r is Ok <==> run_segments(old(self).tracks(), old(self).sequence(), packets@) is Ok,
            r is Ok ==> r->Ok_0@ == run_segments(
                old(self).tracks(),
                old(self).sequence(),
                packets@,
            )->Ok_0.0,
            r is Ok ==> final(self).tracks() == run_segments(
                old(self).tracks(),
                old(self).sequence(),
                packets@,
            )->Ok_0.1,
            r is Ok ==> final(self).sequence() == old(self).sequence() + packets@.len(),
            r is Err ==> r->Err_0 == run_segments(
                old(self).tracks(),
                old(self).sequence(),
                packets@,
            )->Err_0,
            final(self).video() == old(self).video(),
            final(self).audio() == old(self).audio(),
    {
        let ghost tracks0 = self.tracks();
        let ghost seq0 = self.sequence();
        let mut out = Span::new();
        let mut i: usize = 0;
        assert(packets@.take(0) =~= Seq::<Packet>::empty());
        while i < packets.len()
            invariant
                i <= packets@.len(),
                seq0 + packets@.len() <= u64::MAX,
                self.sequence() == seq0 + i,
                self.video() == old(self).video(),
                self.audio() == old(self).audio(),
                tracks0 == old(self).tracks(),
                seq0 == old(self).sequence(),
                run_segments(tracks0, seq0, packets@.take(i as int)) == Ok::<
                    (Seq<u8>, Seq<MuxTrack>),
                    MuxError,
                >((out@, self.tracks())),
            decreases packets@.len() - i,
        {
            proof {
                assert(packets@.take(i + 1).drop_last() =~= packets@.take(i as int));
                assert(packets@.take(i + 1).last() == packets@[i as int]);
            }
            let seg = match self.write_media_segment(&packets[i]) {
                Ok(seg) => seg,
                Err(e) => {
                    proof {
                        lemma_run_error_persists(tracks0, seq0, packets@, i + 1);
                    }
                    return Err(e);
                },
            };
            if out.len() > usize::MAX - seg.len() {
                proof {
                    lemma_run_error_persists(tracks0, seq0, packets@, i + 1);
                }
                return Err(MuxError::TooLarge);
            }
            out = out.concat(&seg);
            i = i + 1;
        }
        assert(packets@.take(i as int) =~= packets@);
        Ok(out)
    }
}

/// The bytes of a segment result.
pub open spec fn segment_view(r: Result<Span, MuxError>) -> Result<Seq<u8>, MuxError> {
    match r {
        Ok(s) => Ok(s@),
        Err(e) => Err(e),
    }
}

/// One viewer's stream: nothing until the first video keyframe, then one media
/// segment per packet, in the order the packets come.
pub struct ViewerState {
    muxer: FragmentedMp4Muxer,
    synced: bool,
}

impl ViewerState {
    pub closed spec fn tracks(&self) -> Seq<MuxTrack> {
        self.muxer.tracks()
    }

    pub closed spec fn sequence(&self) -> u64 {
        self.muxer.sequence()
    }

    /// A video keyframe has been seen.
    pub closed spec fn synced(&self) -> bool {
        self.synced
    }

    pub closed spec fn video(&self) -> Option<VideoView> {
        self.muxer.video()
    }

    pub closed spec fn audio(&self) -> Option<AudioView> {
        self.muxer.audio()
    }

    /// The muxer carries at most a video and an audio track.
    pub open spec fn wf(&self) -> bool {
        self.tracks().len() <= 2
    }

    /// A viewer of the movie that has seen nothing yet.
    pub fn new(movie: &Movie) -> (r: ViewerState)
        ensures
            r.wf(),
            r.tracks() == assigned_tracks(movie.tracks@),
            r.video() == assigned_video(movie.tracks@),
            r.audio() == assigned_audio(movie.tracks@),
            r.sequence() == 0,
            !r.synced(),
    {
        ViewerState { muxer: FragmentedMp4Muxer::with_streams(&movie.tracks), synced: false }
    }

    /// The initialisation segment the viewer gets first.
    pub fn initialization_segment(&self) -> (r: Result<Span, MuxError>)
        requires
            self.wf(),
        ensures
            r is Ok <==> init_error(self.video(), self.audio()) is None,
            r is Ok ==> r->Ok_0@ == init_segment_bytes(self.tracks(), self.video(), self.audio()),
            r is Err ==> init_error(self.video(), self.audio()) == Some(r->Err_0),
    {
        self.muxer.initialization_segment()
    }

    pub fn next_sequence(&self) -> (r: u64)
        ensures
            r == self.sequence(),
    {
        self.muxer.next_sequence()
    }

    /// Until the first video keyframe a packet gives nothing and changes
    /// nothing; from it on, each packet gives its media segment.
    pub fn on_packet(&mut self, movie: &Movie, packet: &Packet) -> (r: Option<Result<Span, MuxError>>)
        requires
            old(self).wf(),
            old(self).sequence() < u64::MAX,
        ensures
            final(self).wf(),
            !old(self).synced() && !(packet.key && has_video_track(movie.tracks@, packet.track_id))
                ==> r is None && final(self).synced() == old(self).synced() && final(self).tracks()
                == old(self).tracks() && final(self).sequence() == old(self).sequence(),
            old(self).synced() || (packet.key && has_video_track(movie.tracks@, packet.track_id))
                ==> final(self).synced() && r is Some && segment_view(r->Some_0) == segment_outcome(
                old(self).tracks(),
                old(self).sequence(),
                *packet,
            ),
            r matches Some(Ok(_)) ==> final(self).sequence() == old(self).sequence() + 1
                && final(self).tracks() == tracks_after(old(self).tracks(), *packet),
            !(r matches Some(Ok(_))) ==> final(self).sequence() == old(self).sequence()
                && final(self).tracks() == old(self).tracks(),
            final(self).video() == old(self).video(),
            final(self).audio() == old(self).audio(),
    {
        if !self.synced {
            if !movie.is_sync_point(packet) {
                return None;
            }
            self.synced = true;
        }
        Some(self.muxer.write_media_segment(packet))
    }
}

/// What `Muxer::write` gives: nothing for a packet of a track the muxer does
/// not carry, else the media segment or its error.
pub open spec fn write_outcome(tracks: Seq<MuxTrack>, seq: u64, packet: Packet) -> Result<
    Option<Seq<u8>>,
    MuxError,
> {
    match segment_outcome(tracks, seq, packet) {
        Ok(b) => Ok(Some(b)),
        Err(MuxError::UnknownTrack) => Ok(None),
        Err(e) => Err(e),
    }
}

pub open spec fn written_view(r: Result<Option<Span>, MuxError>) -> Result<Option<Seq<u8>>, MuxError> {
    match r {
        Ok(Some(s)) => Ok(Some(s@)),
        Ok(None) => Ok(None),
        Err(e) => Err(e),
    }
}

/// Muxing packets of a movie's tracks into a container format.
pub trait Muxer {
    /// Starts the muxer with the given tracks; returns the bytes that open the
    /// output.
    fn start(&mut self, tracks: &Vec<Track>) -> Result<Span, MuxError>;

    /// Writes one packet; returns the bytes it gives, if any. Packets of tracks
    /// the muxer does not carry are dropped.
    fn write(&mut self, packet: &Packet) -> Result<Option<Span>, MuxError>;

    /// Finishes the output; returns the bytes that close it.
    fn stop(&mut self) -> Result<Span, MuxError>;
}

impl Muxer for FragmentedMp4Muxer {
    fn start(&mut self, tracks: &Vec<Track>) -> (r: Result<Span, MuxError>) {
        *self = FragmentedMp4Muxer::with_streams(tracks);
        self.initialization_segment()
    }

    /// A packet of a track the muxer does not carry is dropped, changing
    /// nothing; any other packet gives exactly what `write_media_segment` gives.
    fn write(&mut self, packet: &Packet) -> (r: Result<Option<Span>, MuxError>)
        ensures
            old(self).sequence() < u64::MAX ==> written_view(r) == write_outcome(
                old(self).tracks(),
                old(self).sequence(),
                *packet,
            ),
            (old(self).sequence() < u64::MAX && write_outcome(
                old(self).tracks(),
                old(self).sequence(),
                *packet,
            ) matches Ok(Some(_))) ==> final(self).sequence() == old(self).sequence() + 1 && final(self).tracks() == tracks_after(old(self).tracks(), *packet),
            !(old(self).sequence() < u64::MAX && write_outcome(
                old(self).tracks(),
                old(self).sequence(),
                *packet,
            ) matches Ok(Some(_))) ==> final(self).sequence() == old(self).sequence() && final(self).tracks()
                == old(self).tracks(),
    {
        if self.seq == u64::MAX {
            return Err(MuxError::TooLarge);
        }
        match self.write_media_segment(packet) {
            Ok(segment) => Ok(Some(segment)),
            Err(MuxError::UnknownTrack) => Ok(None),
            Err(e) => Err(e),
        }
    }

    fn stop(&mut self) -> (r: Result<Span, MuxError>) {
        Ok(Span::new())
    }
}

/// Position of the muxer track that stands for source track `id`.
fn find_track(tracks: &Vec<MuxTrack>, id: u32) -> (r: Option<usize>)
    ensures
        r is None ==> track_index(tracks@, id) is None,
        r is Some ==> track_index(tracks@, id) == Some(r->Some_0 as int),
{
    let mut i: usize = 0;
    while i < tracks.len()
        invariant
            i <= tracks@.len(),
            forall|j: int| 0 <= j < i ==> (#[trigger] tracks@[j]).source_id != id,
        decreases tracks@.len() - i,
    {
        if tracks[i].source_id == id {
            proof {
                assert(is_track_index(tracks@, id, i as int));
                let k = choose|k: int| is_track_index(tracks@, id, k);
                if k < i {
                    assert(tracks@[k].source_id != id);
                } else if i < k {
                    assert(tracks@[i as int].source_id != id);
                }
            }
            return Some(i);
        }
        i = i + 1;
    }
    proof {
        if exists|k: int| is_track_index(tracks@, id, k) {
            let k = choose|k: int| is_track_index(tracks@, id, k);
            assert(tracks@[k].source_id != id);
        }
    }
    None
}

fn write_moof(seq: u64, track_id: u32, key: bool, duration: u32, size: u32, base: u64) -> (r: Vec<
    u8,
>)
    ensures
        r@ == moof_bytes(seq, track_id, key, duration, size, base),
        r@.len() == MOOF_LEN,
{
    reveal(moof_bytes);
    let mut mfhd: Vec<u8> = Vec::new();
    push_u32(&mut mfhd, 0);
    push_u64(&mut mfhd, seq);
    let mfhd_box = write_box(MFHD_BOX, &mfhd);
    let mut tfhd: Vec<u8> = Vec::new();
    push_u32(&mut tfhd, TFHD_DEFAULT_BASE_IS_MOOF);
    push_u32(&mut tfhd, track_id);
    let tfhd_box = write_box(TFHD_BOX, &tfhd);
    let mut trun: Vec<u8> = Vec::new();
    push_u32(&mut trun, TRUN_FLAGS);
    push_u32(&mut trun, 1);
    push_u32(&mut trun, MOOF_LEN + 8);
    push_u32(&mut trun, if key { SAMPLE_DEPENDS_ON_NONE } else { 0 });
    push_u32(&mut trun, duration);
    push_u32(&mut trun, size);
    let trun_box = write_box(TRUN_BOX, &trun);
    let mut tfdt: Vec<u8> = Vec::new();
    push_u32(&mut tfdt, 0x0100_0000);
    push_u64(&mut tfdt, base);
    let tfdt_box = write_box(TFDT_BOX, &tfdt);
    let mut traf: Vec<u8> = Vec::new();
    push_bytes(&mut traf, tfhd_box.as_slice());
    push_bytes(&mut traf, trun_box.as_slice());
    push_bytes(&mut traf, tfdt_box.as_slice());
    let traf_box = write_box(TRAF_BOX, &traf);
    let mut moof: Vec<u8> = Vec::new();
    push_bytes(&mut moof, mfhd_box.as_slice());
    push_bytes(&mut moof, traf_box.as_slice());
    let r = write_box(MOOF_BOX, &moof);
    assert(r@ =~= moof_bytes(seq, track_id, key, duration, size, base));
    r
}

/// Position of the first video (or audio) track.
fn find_first(streams: &Vec<Track>, video: bool) -> (r: Option<usize>)
    ensures
        r is None ==> first_of(streams@, video) is None,
        r is Some ==> first_of(streams@, video) == Some(r->Some_0 as int),
{
    let mut i: usize = 0;
    while i < streams.len()
        invariant
            i <= streams@.len(),
            forall|j: int| 0 <= j < i ==> !kind_matches(#[trigger] streams@[j], video),
        decreases streams@.len() - i,
    {
        let m = if video {
            streams[i].info.is_video()
        } else {
            streams[i].info.is_audio()
        };
        if m {
            proof {
                assert(is_first_of(streams@, i as int, video));
                let k = choose|k: int| is_first_of(streams@, k, video);
                lemma_first_unique(streams@, i as int, k, video);
            }
            return Some(i);
        }
        i = i + 1;
    }
    proof {
        if exists|k: int| is_first_of(streams@, k, video) {
            let k = choose|k: int| is_first_of(streams@, k, video);
            assert(!kind_matches(streams@[k], video));
        }
    }
    None
}

/// A stand-alone MP4 of the packets: the initialisation segment for the
/// movie's tracks, then one media segment per packet, from a fresh muxer.
pub open spec fn snapshot_outcome(tracks: Seq<Track>, packets: Seq<Packet>) -> Result<
    Seq<u8>,
    MuxError,
> {
    let mt = assigned_tracks(tracks);
    let v = assigned_video(tracks);
    let a = assigned_audio(tracks);
    match init_error(v, a) {
        Some(e) => Err(e),
        None => match run_segments(mt, 0, packets) {
            Err(e) => Err(e),
            Ok(out) => if init_segment_bytes(mt, v, a).len() + out.0.len() > usize::MAX {
                Err(MuxError::TooLarge)
            } else {
                Ok(init_segment_bytes(mt, v, a) + out.0)
            },
        },
    }
}

/// Muxes the packets into a short stand-alone MP4 for the movie.
#[verifier::rlimit(40)]
pub fn snapshot_mp4(movie: &Movie, packets: &Vec<Packet>) -> (r: Result<Span, MuxError>)
    ensures
        r is Ok <==> snapshot_outcome(movie.tracks@, packets@) is Ok,
        r is Ok ==> r->Ok_0@ == snapshot_outcome(movie.tracks@, packets@)->Ok_0,
        r is Err ==> r->Err_0 == snapshot_outcome(movie.tracks@, packets@)->Err_0,
{
    let mut fragger = FragmentedMp4Muxer::with_streams(&movie.tracks);
    let init = match fragger.initialization_segment() {
        Ok(s) => s,
        Err(e) => {
            return Err(e);
        },
    };
    assert(fragger.sequence() == 0);
    let n = packets.len();
    assert(n as int == packets@.len());
    let segments = match fragger.write_many_media_segments(packets) {
        Ok(s) => s,
        Err(e) => {
            return Err(e);
        },
    };
    if init.len() > usize::MAX - segments.len() {
        return Err(MuxError::TooLarge);
    }
    Ok(init.concat(&segments))
}

/// The initialisation segment depends on nothing but the tracks the muxer was
/// made with: not on the instance, nor on the media segments it has written,
/// which change only the tracks' times. Writing it changes nothing, so muxers
/// made from the same streams give the same bytes on every call.
pub proof fn lemma_init_segment_idempotent(a: FragmentedMp4Muxer, b: FragmentedMp4Muxer)
    requires
        a.tracks().len() == b.tracks().len(),
        a.video() == b.video(),
        a.audio() == b.audio(),
    ensures
        init_segment_bytes(a.tracks(), a.video(), a.audio()) == init_segment_bytes(
            b.tracks(),
            b.video(),
            b.audio(),
        ),
{
    reveal(init_segment_bytes);
}

/// Writing packets keeps the number of tracks.
pub proof fn lemma_tracks_after_len(tracks: Seq<MuxTrack>, packet: Packet)
    ensures
        tracks_after(tracks, packet).len() == tracks.len(),
{
}

/// The sum over `j < i` of `times[j] - times[j - 1]`, where `times[-1]` is
/// taken to be `times[0]`.
pub open spec fn delta_sum(times: Seq<int>, i: int) -> int
    decreases i,
{
    if i <= 0 {
        0
    } else {
        delta_sum(times, i - 1) + times[i - 1] - (if i == 1 {
            times[0]
        } else {
            times[i - 2]
        })
    }
}

pub proof fn lemma_delta_sum(times: Seq<int>, i: int)
    requires
        1 <= i <= times.len(),
    ensures
        delta_sum(times, i) == times[i - 1] - times[0],
    decreases i,
{
    if i > 1 {
        lemma_delta_sum(times, i - 1);
    } else {
        assert(delta_sum(times, 0) == 0);
    }
}

/// Decode times of the packets.
pub open spec fn decode_times(packets: Seq<Packet>) -> Seq<int> {
    packets.map_values(|p: Packet| decode_time_of(p.time) as int)
}

proof fn lemma_track_index_unique(tracks: Seq<MuxTrack>, id: u32, i: int, k: int)
    requires
        is_track_index(tracks, id, i),
        is_track_index(tracks, id, k),
    ensures
        i == k,
{
    if i < k {
        assert(tracks[i].source_id != id);
    } else if k < i {
        assert(tracks[k].source_id != id);
    }
}

/// After the packets of one track are written in order from a fresh track, the
/// track remembers the first packet's decode time and the last one's.
pub proof fn lemma_track_times_after_run(
    tracks: Seq<MuxTrack>,
    seq: u64,
    packets: Seq<Packet>,
    id: u32,
    k: int,
)
    requires
        is_track_index(tracks, id, k),
        tracks[k].start is None,
        tracks[k].prev is None,
        forall|j: int| 0 <= j < packets.len() ==> (#[trigger] packets[j]).track_id == id,
        run_segments(tracks, seq, packets) is Ok,
    ensures
        is_track_index(run_segments(tracks, seq, packets)->Ok_0.1, id, k),
        packets.len() == 0 ==> run_segments(tracks, seq, packets)->Ok_0.1[k] == tracks[k],
        packets.len() > 0 ==> run_segments(tracks, seq, packets)->Ok_0.1[k].start == Some(
            decode_time_of(packets[0].time),
        ),
        packets.len() > 0 ==> run_segments(tracks, seq, packets)->Ok_0.1[k].prev == Some(
            decode_time_of(packets.last().time),
        ),
    decreases packets.len(),
{
    if packets.len() > 0 {
        let front = packets.drop_last();
        assert forall|j: int| 0 <= j < front.len() implies (#[trigger] front[j]).track_id == id by {
            assert(front[j] == packets[j]);
        }
        lemma_track_times_after_run(tracks, seq, front, id, k);
        let tr = run_segments(tracks, seq, front)->Ok_0.1;
        let last = packets.last();
        assert(last.track_id == id);
        let c = choose|c: int| is_track_index(tr, id, c);
        lemma_track_index_unique(tr, id, c, k);
        assert(track_index(tr, id) == Some(k));
        let after = tracks_after(tr, last);
        assert(after == run_segments(tracks, seq, packets)->Ok_0.1);
        assert forall|j: int| 0 <= j < k implies (#[trigger] after[j]).source_id != id by {
            assert(after[j] == tr[j]);
        }
        if front.len() > 0 {
            assert(front[0] == packets[0]);
        }
    }
}

/// The `tfdt` decode time of the `i`-th segment of a track's packets, written
/// in order from a fresh track, is the sum of the distances between each packet
/// and the one before it, over the packets before it (the first packet's
/// distance counting as zero).
pub proof fn lemma_base_decode_time(
    tracks: Seq<MuxTrack>,
    seq: u64,
    packets: Seq<Packet>,
    id: u32,
    k: int,
    i: int,
)
    requires
        is_track_index(tracks, id, k),
        tracks[k].start is None,
        tracks[k].prev is None,
        forall|j: int| 0 <= j < packets.len() ==> (#[trigger] packets[j]).track_id == id,
        0 <= i < packets.len(),
        run_segments(tracks, seq, packets.take(i)) is Ok,
    ensures
        base_decode_time(run_segments(tracks, seq, packets.take(i))->Ok_0.1[k], packets[i])
            == delta_sum(decode_times(packets), i),
{
    let front = packets.take(i);
    assert forall|j: int| 0 <= j < front.len() implies (#[trigger] front[j]).track_id == id by {
        assert(front[j] == packets[j]);
    }
    lemma_track_times_after_run(tracks, seq, front, id, k);
    let times = decode_times(packets);
    if i > 0 {
        lemma_delta_sum(times, i);
        assert(front[0] == packets[0]);
        assert(front.last() == packets[i - 1]);
    }
}

pub open spec fn hex_digit(n: nat) -> char {
    if n < 10 {
        (48 + n) as char
    } else {
        (97 + n - 10) as char
    }
}

/// Two lower-case hexadecimal digits.
pub open spec fn hex2(b: u8) -> Seq<char> {
    seq![hex_digit(b as nat / 16), hex_digit(b as nat % 16)]
}

/// Decimal digits of a number below 100.
pub open spec fn decimal(n: nat) -> Seq<char> {
    if n < 10 {
        seq![hex_digit(n)]
    } else {
        seq![hex_digit(n / 10), hex_digit(n % 10)]
    }
}

/// `avc1.` and the profile, compatibility and level bytes in hexadecimal.
pub open spec fn avc_codec_string(profile: u8, compat: u8, level: u8) -> Seq<char> {
    seq!['a', 'v', 'c', '1', '.'] + hex2(profile) + hex2(compat) + hex2(level)
}

/// `mp4a.40.` and the audio object type in decimal.
pub open spec fn aac_codec_string(object_type: nat) -> Seq<char> {
    seq!['m', 'p', '4', 'a', '.', '4', '0', '.'] + decimal(object_type)
}

/// The AAC audio object type: the top five bits of the AudioSpecificConfig.
pub open spec fn aac_object_type(t: Track) -> Option<nat> {
    match t.info.kind {
        MediaKind::Audio(a) => match a.codec {
            AudioCodec::Aac(asc) => if asc@.len() > 0 {
                Some(asc@[0] as nat / 8)
            } else {
                None
            },
        },
        _ => None,
    }
}

/// The MSE codecs parameter of a movie: the first video track's entry, then
/// the first audio track's, joined by a comma. `None` where there is neither,
/// or the audio track has no AudioSpecificConfig.
pub open spec fn codec_string_of(tracks: Seq<Track>) -> Option<Seq<char>> {
    let v: Seq<char> = match first_of(tracks, true) {
        Some(i) => {
            let vv = video_view_of(tracks[i]);
            avc_codec_string(vv.profile_indication, vv.profile_compatibility, vv.level_indication)
        },
        None => Seq::empty(),
    };
    match first_of(tracks, false) {
        Some(j) => match aac_object_type(tracks[j]) {
            None => None,
            Some(aot) => if v.len() > 0 {
                Some(v + seq![','] + aac_codec_string(aot))
            } else {
                Some(aac_codec_string(aot))
            },
        },
        None => if v.len() > 0 {
            Some(v)
        } else {
            None
        },
    }
}

fn push_hex2(out: &mut Vec<char>, b: u8)
    ensures
        final(out)@ == old(out)@ + hex2(b),
{
    let hi = b / 16;
    let lo = b % 16;
    let c1 = if hi < 10 { (48 + hi) as char } else { (87 + hi) as char };
    let c2 = if lo < 10 { (48 + lo) as char } else { (87 + lo) as char };
    out.push(c1);
    out.push(c2);
    assert(final(out)@ =~= old(out)@ + hex2(b));
}

fn push_chars(out: &mut Vec<char>, cs: &[char])
    ensures
        final(out)@ == old(out)@ + cs@,
{
    let mut i: usize = 0;
    while i < cs.len()
        invariant
            i <= cs@.len(),
            out@ == old(out)@ + cs@.subrange(0, i as int),
        decreases cs@.len() - i,
    {
        out.push(cs[i]);
        i = i + 1;
        assert(out@ =~= old(out)@ + cs@.subrange(0, i as int));
    }
    assert(cs@.subrange(0, i as int) =~= cs@);
}

impl Movie {
    /// The codecs parameter of the MSE content type for this movie, e.g.
    /// `avc1.64001f,mp4a.40.2`.
    pub fn codec_string(&self) -> (r: Option<Vec<char>>)
        ensures
            r is Some <==> codec_string_of(self.tracks@) is Some,
            r is Some ==> r->Some_0@ == codec_string_of(self.tracks@)->Some_0,
    {
        let mut out: Vec<char> = Vec::new();
        if let Some(i) = find_first(&self.tracks, true) {
            match &self.tracks[i].info.kind {
                MediaKind::Video(v) => match &v.codec {
                    VideoCodec::H264(c) => {
                        push_chars(&mut out, &['a', 'v', 'c', '1', '.']);
                        push_hex2(&mut out, c.profile_indication);
                        push_hex2(&mut out, c.profile_compatibility);
                        push_hex2(&mut out, c.level_indication);
                    },
                },
                _ => {},
            }
        }
        let has_video = out.len() > 0;
        match find_first(&self.tracks, false) {
            Some(j) => match &self.tracks[j].info.kind {
                MediaKind::Audio(a) => match &a.codec {
                    AudioCodec::Aac(asc) => {
                        let bytes = asc.to_vec();
                        if bytes.len() == 0 {
                            return None;
                        }
                        let aot = bytes[0] / 8;
                        if has_video {
                            out.push(',');
                        }
                        push_chars(&mut out, &['m', 'p', '4', 'a', '.', '4', '0', '.']);
                        if aot < 10 {
                            out.push((48 + aot) as char);
                        } else {
                            out.push((48 + aot / 10) as char);
                            out.push((48 + aot % 10) as char);
                        }
                        Some(out)
                    },
                },
                _ => None,
            },
            None => if has_video {
                Some(out)
            } else {
                None
            },
        }
    }
}

} // verus!
