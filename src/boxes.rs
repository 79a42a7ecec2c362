//! ISO-BMFF boxes of the initialisation segment of a fragmented MP4 file.
use vstd::prelude::*;
use crate::nal::{frame_unit, BitstreamFraming};
use crate::wire::{be16, be32, push_bytes, push_u16, push_u32, push_u8};

verus! {

pub const FTYP_BOX: u32 = 0x66747970;
pub const MOOV_BOX: u32 = 0x6d6f6f76;
pub const MVHD_BOX: u32 = 0x6d766864;
pub const MVEX_BOX: u32 = 0x6d766578;
pub const MEHD_BOX: u32 = 0x6d656864;
pub const TREX_BOX: u32 = 0x74726578;
pub const TRAK_BOX: u32 = 0x7472616b;
pub const TKHD_BOX: u32 = 0x746b6864;
pub const MDIA_BOX: u32 = 0x6d646961;
pub const MDHD_BOX: u32 = 0x6d646864;
pub const HDLR_BOX: u32 = 0x68646c72;
pub const MINF_BOX: u32 = 0x6d696e66;
pub const VMHD_BOX: u32 = 0x766d6864;
pub const DINF_BOX: u32 = 0x64696e66;
pub const DREF_BOX: u32 = 0x64726566;
pub const URL_BOX: u32 = 0x75726c20;
pub const STBL_BOX: u32 = 0x7374626c;
pub const STSD_BOX: u32 = 0x73747364;
pub const STSS_BOX: u32 = 0x73747373;
pub const STTS_BOX: u32 = 0x73747473;
pub const STSC_BOX: u32 = 0x73747363;
pub const STSZ_BOX: u32 = 0x7374737a;
pub const STCO_BOX: u32 = 0x7374636f;
pub const AVC1_BOX: u32 = 0x61766331;
pub const AVCC_BOX: u32 = 0x61766343;
pub const BRAND_ISOM: u32 = 0x69736f6d;
pub const BRAND_ISO5: u32 = 0x69736f35;
pub const BRAND_DASH: u32 = 0x64617368;
pub const HANDLER_VIDE: u32 = 0x76696465;
pub const HANDLER_SOUN: u32 = 0x736f756e;
pub const SMHD_BOX: u32 = 0x736d6864;
pub const MP4A_BOX: u32 = 0x6d703461;
pub const ESDS_BOX: u32 = 0x65736473;

/// Longest AudioSpecificConfig the `esds` descriptors carry with one-byte
/// lengths.
pub const MAX_ASC_LEN: usize = 100;

/// A box: its total length and type as big-endian words, then its payload.
pub open spec fn mp4_box(fourcc: u32, payload: Seq<u8>) -> Seq<u8> {
    be32((payload.len() + 8) as u32) + be32(fourcc) + payload
}

pub open spec fn zeros(n: nat) -> Seq<u8> {
    Seq::new(n, |i: int| 0u8)
}

/// The identity transformation matrix of `mvhd` and `tkhd`.
pub open spec fn unity_matrix() -> Seq<u8> {
    be32(0x0001_0000) + zeros(12) + be32(0x0001_0000) + zeros(12) + be32(0x4000_0000)
}

pub open spec fn ftyp_box() -> Seq<u8> {
    mp4_box(
        FTYP_BOX,
        be32(BRAND_ISOM) + be32(0) + be32(BRAND_ISOM) + be32(BRAND_ISO5) + be32(BRAND_DASH),
    )
}

/// Movie header: version 1, timescale 1000, the given next track id.
pub open spec fn mvhd_box(next_track_id: u32) -> Seq<u8> {
    mp4_box(
        MVHD_BOX,
        be32(0x0100_0000) + zeros(16) + be32(1000) + zeros(8) + be32(0x0001_0000) + be16(0x0100)
            + zeros(10) + unity_matrix() + zeros(24) + be32(next_track_id),
    )
}

/// Movie extends header with duration 0 (unknown).
pub open spec fn mehd_box() -> Seq<u8> {
    mp4_box(MEHD_BOX, be32(0x0100_0000) + zeros(8))
}

pub open spec fn trex_box(track_id: u32) -> Seq<u8> {
    mp4_box(TREX_BOX, be32(0) + be32(track_id) + be32(1) + zeros(12))
}

/// Track header: enabled, in movie and in preview; width and height in 16.16
/// fixed point.
#[verifier::opaque]
pub open spec fn tkhd_box(track_id: u32, width: u16, height: u16) -> Seq<u8> {
    mp4_box(
        TKHD_BOX,
        be32(0x0100_0007) + zeros(16) + be32(track_id) + zeros(20) + zeros(8) + unity_matrix()
            + be16(width) + be16(0) + be16(height) + be16(0),
    )
}

/// Media header with the given timescale and language `und`.
#[verifier::opaque]
pub open spec fn mdhd_box(timescale: u32) -> Seq<u8> {
    mp4_box(MDHD_BOX, be32(0x0100_0000) + zeros(16) + be32(timescale) + zeros(8) + be32(0x55c4_0000))
}

#[verifier::opaque]
pub open spec fn hdlr_box() -> Seq<u8> {
    mp4_box(HDLR_BOX, zeros(8) + be32(HANDLER_VIDE) + zeros(13))
}

#[verifier::opaque]
pub open spec fn vmhd_box() -> Seq<u8> {
    mp4_box(VMHD_BOX, be32(1) + zeros(8))
}

/// Data information: one self-contained `url ` entry.
#[verifier::opaque]
pub open spec fn dinf_box() -> Seq<u8> {
    mp4_box(DINF_BOX, mp4_box(DREF_BOX, be32(0) + be32(1) + mp4_box(URL_BOX, be32(1))))
}

/// The empty sample tables of a fragmented file.
pub open spec fn empty_sample_tables() -> Seq<u8> {
    mp4_box(STSS_BOX, zeros(8)) + mp4_box(STTS_BOX, zeros(8)) + mp4_box(STSC_BOX, zeros(8))
        + mp4_box(STSZ_BOX, zeros(12)) + mp4_box(STCO_BOX, zeros(8))
}

/// Visual sample entry fields: data reference 1, the size, 72 dpi both ways,
/// one frame per sample, an empty compressor name and depth 0x18.
pub open spec fn visual_sample_entry(width: u16, height: u16) -> Seq<u8> {
    zeros(6) + be16(1) + zeros(16) + be16(width) + be16(height) + be32(0x0048_0000) + be32(
        0x0048_0000,
    ) + zeros(4) + be16(1) + zeros(32) + be16(0x0018) + be16(0xffff)
}

/// H.264 decoder configuration with four-byte lengths, one SPS and one PPS.
pub open spec fn avcc_box(profile: u8, compat: u8, level: u8, sps: Seq<u8>, pps: Seq<u8>) -> Seq<
    u8,
> {
    mp4_box(
        AVCC_BOX,
        seq![1u8, profile, compat, level, 3u8, 1u8] + frame_unit(sps, BitstreamFraming::TwoByteLength)
            + seq![1u8] + frame_unit(pps, BitstreamFraming::TwoByteLength),
    )
}

pub open spec fn avc1_box(
    width: u16,
    height: u16,
    profile: u8,
    compat: u8,
    level: u8,
    sps: Seq<u8>,
    pps: Seq<u8>,
) -> Seq<u8> {
    mp4_box(
        AVC1_BOX,
        visual_sample_entry(width, height) + avcc_box(profile, compat, level, sps, pps),
    )
}

/// The `trak` box of an H.264 video track.
pub open spec fn video_trak_box(
    track_id: u32,
    width: u16,
    height: u16,
    timescale: u32,
    profile: u8,
    compat: u8,
    level: u8,
    sps: Seq<u8>,
    pps: Seq<u8>,
) -> Seq<u8> {
    mp4_box(
        TRAK_BOX,
        tkhd_box(track_id, width, height) + mp4_box(
            MDIA_BOX,
            mdhd_box(timescale) + hdlr_box() + mp4_box(
                MINF_BOX,
                vmhd_box() + dinf_box() + stbl_box(width, height, profile, compat, level, sps, pps),
            ),
        ),
    )
}

pub fn write_box(fourcc: u32, payload: &Vec<u8>) -> (r: Vec<u8>)
    requires
        payload@.len() + 8 <= u32::MAX,
    ensures
        r@ == mp4_box(fourcc, payload@),
        r@.len() == payload@.len() + 8,
{
    let mut out: Vec<u8> = Vec::new();
    push_u32(&mut out, (payload.len() + 8) as u32);
    push_u32(&mut out, fourcc);
    push_bytes(&mut out, payload.as_slice());
    assert(out@ =~= mp4_box(fourcc, payload@));
    out
}

pub fn push_zeros(buf: &mut Vec<u8>, n: usize)
    ensures
        final(buf)@ == old(buf)@ + zeros(n as nat),
{
    let mut i: usize = 0;
    while i < n
        invariant
            i <= n,
            buf@ == old(buf)@ + zeros(i as nat),
        decreases n - i,
    {
        buf.push(0u8);
        i = i + 1;
        assert(buf@ =~= old(buf)@ + zeros(i as nat));
    }
}

fn push_matrix(buf: &mut Vec<u8>)
    ensures
        final(buf)@ == old(buf)@ + unity_matrix(),
{
    push_u32(buf, 0x0001_0000);
    push_zeros(buf, 12);
    push_u32(buf, 0x0001_0000);
    push_zeros(buf, 12);
    push_u32(buf, 0x4000_0000);
    assert(final(buf)@ =~= old(buf)@ + unity_matrix());
}

pub fn write_ftyp() -> (r: Vec<u8>)
    ensures
        r@ == ftyp_box(),
{
    let mut p: Vec<u8> = Vec::new();
    push_u32(&mut p, BRAND_ISOM);
    push_u32(&mut p, 0);
    push_u32(&mut p, BRAND_ISOM);
    push_u32(&mut p, BRAND_ISO5);
    push_u32(&mut p, BRAND_DASH);
    assert(p@ =~= be32(BRAND_ISOM) + be32(0) + be32(BRAND_ISOM) + be32(BRAND_ISO5) + be32(
        BRAND_DASH,
    ));
    write_box(FTYP_BOX, &p)
}

pub fn write_mvhd(next_track_id: u32) -> (r: Vec<u8>)
    ensures
        r@ == mvhd_box(next_track_id),
{
    let mut p: Vec<u8> = Vec::new();
    push_u32(&mut p, 0x0100_0000);
    push_zeros(&mut p, 16);
    push_u32(&mut p, 1000);
    push_zeros(&mut p, 8);
    push_u32(&mut p, 0x0001_0000);
    push_u16(&mut p, 0x0100);
    push_zeros(&mut p, 10);
    push_matrix(&mut p);
    push_zeros(&mut p, 24);
    push_u32(&mut p, next_track_id);
    assert(p@ =~= be32(0x0100_0000) + zeros(16) + be32(1000) + zeros(8) + be32(0x0001_0000)
        + be16(0x0100) + zeros(10) + unity_matrix() + zeros(24) + be32(next_track_id));
    write_box(MVHD_BOX, &p)
}

pub fn write_mehd() -> (r: Vec<u8>)
    ensures
        r@ == mehd_box(),
{
    let mut p: Vec<u8> = Vec::new();
    push_u32(&mut p, 0x0100_0000);
    push_zeros(&mut p, 8);
    assert(p@ =~= be32(0x0100_0000) + zeros(8));
    write_box(MEHD_BOX, &p)
}

pub fn write_trex(track_id: u32) -> (r: Vec<u8>)
    ensures
        r@ == trex_box(track_id),
{
    let mut p: Vec<u8> = Vec::new();
    push_u32(&mut p, 0);
    push_u32(&mut p, track_id);
    push_u32(&mut p, 1);
    push_zeros(&mut p, 12);
    assert(p@ =~= be32(0) + be32(track_id) + be32(1) + zeros(12));
    write_box(TREX_BOX, &p)
}

fn write_tkhd(track_id: u32, width: u16, height: u16) -> (r: Vec<u8>)
    ensures
        r@ == tkhd_box(track_id, width, height),
        r@.len() == 104,
{
    reveal(tkhd_box);
    let mut p: Vec<u8> = Vec::new();
    push_u32(&mut p, 0x0100_0007);
    push_zeros(&mut p, 16);
    push_u32(&mut p, track_id);
    push_zeros(&mut p, 20);
    push_zeros(&mut p, 8);
    push_matrix(&mut p);
    push_u16(&mut p, width);
    push_u16(&mut p, 0);
    push_u16(&mut p, height);
    push_u16(&mut p, 0);
    assert(p@ =~= be32(0x0100_0007) + zeros(16) + be32(track_id) + zeros(20) + zeros(8)
        + unity_matrix() + be16(width) + be16(0) + be16(height) + be16(0));
    write_box(TKHD_BOX, &p)
}

fn write_mdhd(timescale: u32) -> (r: Vec<u8>)
    ensures
        r@ == mdhd_box(timescale),
        r@.len() == 44,
{
    reveal(mdhd_box);
    let mut p: Vec<u8> = Vec::new();
    push_u32(&mut p, 0x0100_0000);
    push_zeros(&mut p, 16);
    push_u32(&mut p, timescale);
    push_zeros(&mut p, 8);
    push_u32(&mut p, 0x55c4_0000);
    assert(p@ =~= be32(0x0100_0000) + zeros(16) + be32(timescale) + zeros(8) + be32(0x55c4_0000));
    write_box(MDHD_BOX, &p)
}

fn write_hdlr() -> (r: Vec<u8>)
    ensures
        r@ == hdlr_box(),
        r@.len() == 33,
{
    reveal(hdlr_box);
    let mut p: Vec<u8> = Vec::new();
    push_zeros(&mut p, 8);
    push_u32(&mut p, HANDLER_VIDE);
    push_zeros(&mut p, 13);
    assert(p@ =~= zeros(8) + be32(HANDLER_VIDE) + zeros(13));
    write_box(HDLR_BOX, &p)
}

fn write_vmhd() -> (r: Vec<u8>)
    ensures
        r@ == vmhd_box(),
        r@.len() == 20,
{
    reveal(vmhd_box);
    let mut p: Vec<u8> = Vec::new();
    push_u32(&mut p, 1);
    push_zeros(&mut p, 8);
    assert(p@ =~= be32(1) + zeros(8));
    write_box(VMHD_BOX, &p)
}

fn write_dinf() -> (r: Vec<u8>)
    ensures
        r@ == dinf_box(),
        r@.len() == 36,
{
    reveal(dinf_box);
    let mut url: Vec<u8> = Vec::new();
    push_u32(&mut url, 1);
    let url_box = write_box(URL_BOX, &url);
    let mut dref: Vec<u8> = Vec::new();
    push_u32(&mut dref, 0);
    push_u32(&mut dref, 1);
    push_bytes(&mut dref, url_box.as_slice());
    assert(dref@ =~= be32(0) + be32(1) + mp4_box(URL_BOX, be32(1)));
    let dref_box = write_box(DREF_BOX, &dref);
    write_box(DINF_BOX, &dref_box)
}

fn write_empty_sample_tables(buf: &mut Vec<u8>)
    ensures
        final(buf)@ == old(buf)@ + empty_sample_tables(),
{
    let mut z8: Vec<u8> = Vec::new();
    push_zeros(&mut z8, 8);
    let mut z12: Vec<u8> = Vec::new();
    push_zeros(&mut z12, 12);
    let stss = write_box(STSS_BOX, &z8);
    let stts = write_box(STTS_BOX, &z8);
    let stsc = write_box(STSC_BOX, &z8);
    let stsz = write_box(STSZ_BOX, &z12);
    let stco = write_box(STCO_BOX, &z8);
    push_bytes(buf, stss.as_slice());
    push_bytes(buf, stts.as_slice());
    push_bytes(buf, stsc.as_slice());
    push_bytes(buf, stsz.as_slice());
    push_bytes(buf, stco.as_slice());
    assert(final(buf)@ =~= old(buf)@ + empty_sample_tables());
}

fn write_avcc(profile: u8, compat: u8, level: u8, sps: &Vec<u8>, pps: &Vec<u8>) -> (r: Vec<u8>)
    requires
        sps@.len() <= u16::MAX,
        pps@.len() <= u16::MAX,
    ensures
        r@ == avcc_box(profile, compat, level, sps@, pps@),
        r@.len() == 19 + sps@.len() + pps@.len(),
{
    let mut p: Vec<u8> = Vec::new();
    push_u8(&mut p, 1);
    push_u8(&mut p, profile);
    push_u8(&mut p, compat);
    push_u8(&mut p, level);
    push_u8(&mut p, 3);
    push_u8(&mut p, 1);
    push_u16(&mut p, sps.len() as u16);
    push_bytes(&mut p, sps.as_slice());
    push_u8(&mut p, 1);
    push_u16(&mut p, pps.len() as u16);
    push_bytes(&mut p, pps.as_slice());
    assert(p@ =~= seq![1u8, profile, compat, level, 3u8, 1u8] + frame_unit(
        sps@,
        BitstreamFraming::TwoByteLength,
    ) + seq![1u8] + frame_unit(pps@, BitstreamFraming::TwoByteLength));
    write_box(AVCC_BOX, &p)
}

fn write_avc1(
    width: u16,
    height: u16,
    profile: u8,
    compat: u8,
    level: u8,
    sps: &Vec<u8>,
    pps: &Vec<u8>,
) -> (r: Vec<u8>)
    requires
        sps@.len() <= u16::MAX,
        pps@.len() <= u16::MAX,
    ensures
        r@ == avc1_box(width, height, profile, compat, level, sps@, pps@),
        r@.len() == 19 + 78 + 8 + sps@.len() + pps@.len(),
{
    let mut p: Vec<u8> = Vec::new();
    push_zeros(&mut p, 6);
    push_u16(&mut p, 1);
    push_zeros(&mut p, 16);
    push_u16(&mut p, width);
    push_u16(&mut p, height);
    push_u32(&mut p, 0x0048_0000);
    push_u32(&mut p, 0x0048_0000);
    push_zeros(&mut p, 4);
    push_u16(&mut p, 1);
    push_zeros(&mut p, 32);
    push_u16(&mut p, 0x0018);
    push_u16(&mut p, 0xffff);
    assert(p@ =~= visual_sample_entry(width, height));
    let avcc = write_avcc(profile, compat, level, sps, pps);
    push_bytes(&mut p, avcc.as_slice());
    write_box(AVC1_BOX, &p)
}

#[verifier::opaque]
pub open spec fn stbl_box(
    width: u16,
    height: u16,
    profile: u8,
    compat: u8,
    level: u8,
    sps: Seq<u8>,
    pps: Seq<u8>,
) -> Seq<u8> {
    mp4_box(
        STBL_BOX,
        mp4_box(STSD_BOX, be32(0) + be32(1) + avc1_box(width, height, profile, compat, level, sps, pps))
            + empty_sample_tables(),
    )
}

fn write_stbl(
    width: u16,
    height: u16,
    profile: u8,
    compat: u8,
    level: u8,
    sps: &Vec<u8>,
    pps: &Vec<u8>,
) -> (r: Vec<u8>)
    requires
        sps@.len() <= u16::MAX,
        pps@.len() <= u16::MAX,
    ensures
        r@ == stbl_box(width, height, profile, compat, level, sps@, pps@),
        r@.len() <= 0x2_1000,
{
    reveal(stbl_box);
    let ghost avc1_spec = avc1_box(width, height, profile, compat, level, sps@, pps@);
    let avc1 = write_avc1(width, height, profile, compat, level, sps, pps);
    let mut stsd: Vec<u8> = Vec::new();
    push_u32(&mut stsd, 0);
    push_u32(&mut stsd, 1);
    push_bytes(&mut stsd, avc1.as_slice());
    assert(stsd@ =~= be32(0) + be32(1) + avc1_spec);
    let stsd_box = write_box(STSD_BOX, &stsd);
    let mut stbl: Vec<u8> = Vec::new();
    push_bytes(&mut stbl, stsd_box.as_slice());
    assert(stbl@ =~= stsd_box@);
    write_empty_sample_tables(&mut stbl);
    assert(empty_sample_tables().len() == 84);
    write_box(STBL_BOX, &stbl)
}

/// Writes the `trak` box of an H.264 video track.
pub fn write_video_trak(
    track_id: u32,
    width: u16,
    height: u16,
    timescale: u32,
    profile: u8,
    compat: u8,
    level: u8,
    sps: &Vec<u8>,
    pps: &Vec<u8>,
) -> (r: Vec<u8>)
    requires
        sps@.len() <= u16::MAX,
        pps@.len() <= u16::MAX,
    ensures
        r@ == video_trak_box(track_id, width, height, timescale, profile, compat, level, sps@, pps@),
        r@.len() <= 0x4_0000,
{
    let ghost stbl_spec = stbl_box(width, height, profile, compat, level, sps@, pps@);
    let stbl_box = write_stbl(width, height, profile, compat, level, sps, pps);
    let mut minf: Vec<u8> = Vec::new();
    let vmhd = write_vmhd();
    let dinf = write_dinf();
    push_bytes(&mut minf, vmhd.as_slice());
    push_bytes(&mut minf, dinf.as_slice());
    push_bytes(&mut minf, stbl_box.as_slice());
    let ghost minf_spec = vmhd_box() + dinf_box() + stbl_spec;
    assert(minf@ =~= minf_spec);
    let minf_box = write_box(MINF_BOX, &minf);
    let mut mdia: Vec<u8> = Vec::new();
    let mdhd = write_mdhd(timescale);
    let hdlr = write_hdlr();
    push_bytes(&mut mdia, mdhd.as_slice());
    push_bytes(&mut mdia, hdlr.as_slice());
    push_bytes(&mut mdia, minf_box.as_slice());
    let ghost mdia_spec = mdhd_box(timescale) + hdlr_box() + mp4_box(MINF_BOX, minf_spec);
    assert(mdia@ =~= mdia_spec);
    let mdia_box = write_box(MDIA_BOX, &mdia);
    let mut trak: Vec<u8> = Vec::new();
    let tkhd = write_tkhd(track_id, width, height);
    push_bytes(&mut trak, tkhd.as_slice());
    push_bytes(&mut trak, mdia_box.as_slice());
    assert(trak@ =~= tkhd_box(track_id, width, height) + mp4_box(MDIA_BOX, mdia_spec));
    write_box(TRAK_BOX, &trak)
}

/// Track header of a sound track: enabled, in movie and in preview, full
/// volume, no width or height.
#[verifier::opaque]
pub open spec fn audio_tkhd_box(track_id: u32) -> Seq<u8> {
    mp4_box(
        TKHD_BOX,
        be32(0x0100_0007) + zeros(16) + be32(track_id) + zeros(20) + zeros(4) + be16(0x0100)
            + zeros(2) + unity_matrix() + zeros(8),
    )
}

#[verifier::opaque]
pub open spec fn soun_hdlr_box() -> Seq<u8> {
    mp4_box(HDLR_BOX, zeros(8) + be32(HANDLER_SOUN) + zeros(13))
}

/// Sound media header with balance 0.
#[verifier::opaque]
pub open spec fn smhd_box() -> Seq<u8> {
    mp4_box(SMHD_BOX, zeros(8))
}

/// The sample rate as the 16.16 field of an audio sample entry; 0 where it
/// does not fit.
pub open spec fn rate_field(sample_rate: u32) -> u32 {
    if sample_rate <= 0xffff {
        (sample_rate * 0x1_0000) as u32
    } else {
        0
    }
}

/// Elementary stream descriptor of AAC: object type 0x40, audio stream, the
/// AudioSpecificConfig as decoder specific info, and the MP4 sync layer.
pub open spec fn esds_box(asc: Seq<u8>) -> Seq<u8> {
    mp4_box(
        ESDS_BOX,
        be32(0) + seq![3u8, (23 + asc.len()) as u8, 0u8, 0u8, 0u8] + seq![
            4u8,
            (15 + asc.len()) as u8,
            0x40u8,
            0x15u8,
        ] + zeros(11) + seq![5u8, asc.len() as u8] + asc + seq![6u8, 1u8, 2u8],
    )
}

/// AAC sample entry: data reference 1, the channel count, 16-bit samples, the
/// sample rate, then the `esds`.
pub open spec fn mp4a_box(sample_rate: u32, channels: u16, asc: Seq<u8>) -> Seq<u8> {
    mp4_box(
        MP4A_BOX,
        zeros(6) + be16(1) + zeros(8) + be16(channels) + be16(16) + zeros(4) + be32(
            rate_field(sample_rate),
        ) + esds_box(asc),
    )
}

#[verifier::opaque]
pub open spec fn audio_stbl_box(sample_rate: u32, channels: u16, asc: Seq<u8>) -> Seq<u8> {
    mp4_box(
        STBL_BOX,
        mp4_box(STSD_BOX, be32(0) + be32(1) + mp4a_box(sample_rate, channels, asc))
            + empty_sample_tables(),
    )
}

/// The `trak` box of an AAC audio track.
pub open spec fn audio_trak_box(
    track_id: u32,
    timescale: u32,
    sample_rate: u32,
    channels: u16,
    asc: Seq<u8>,
) -> Seq<u8> {
    mp4_box(
        TRAK_BOX,
        audio_tkhd_box(track_id) + mp4_box(
            MDIA_BOX,
            mdhd_box(timescale) + soun_hdlr_box() + mp4_box(
                MINF_BOX,
                smhd_box() + dinf_box() + audio_stbl_box(sample_rate, channels, asc),
            ),
        ),
    )
}

fn write_audio_tkhd(track_id: u32) -> (r: Vec<u8>)
    ensures
        r@ == audio_tkhd_box(track_id),
        r@.len() == 104,
{
    reveal(audio_tkhd_box);
    let mut p: Vec<u8> = Vec::new();
    push_u32(&mut p, 0x0100_0007);
    push_zeros(&mut p, 16);
    push_u32(&mut p, track_id);
    push_zeros(&mut p, 20);
    push_zeros(&mut p, 4);
    push_u16(&mut p, 0x0100);
    push_zeros(&mut p, 2);
    push_matrix(&mut p);
    push_zeros(&mut p, 8);
    assert(p@ =~= be32(0x0100_0007) + zeros(16) + be32(track_id) + zeros(20) + zeros(4) + be16(
        0x0100,
    ) + zeros(2) + unity_matrix() + zeros(8));
    write_box(TKHD_BOX, &p)
}

fn write_soun_hdlr() -> (r: Vec<u8>)
    ensures
        r@ == soun_hdlr_box(),
        r@.len() == 33,
{
    reveal(soun_hdlr_box);
    let mut p: Vec<u8> = Vec::new();
    push_zeros(&mut p, 8);
    push_u32(&mut p, HANDLER_SOUN);
    push_zeros(&mut p, 13);
    assert(p@ =~= zeros(8) + be32(HANDLER_SOUN) + zeros(13));
    write_box(HDLR_BOX, &p)
}

fn write_smhd() -> (r: Vec<u8>)
    ensures
        r@ == smhd_box(),
        r@.len() == 16,
{
    reveal(smhd_box);
    let mut p: Vec<u8> = Vec::new();
    push_zeros(&mut p, 8);
    write_box(SMHD_BOX, &p)
}

fn write_esds(asc: &Vec<u8>) -> (r: Vec<u8>)
    requires
        asc@.len() <= MAX_ASC_LEN,
    ensures
        r@ == esds_box(asc@),
        r@.len() == 37 + asc@.len(),
{
    let a = asc.len() as u8;
    let mut p: Vec<u8> = Vec::new();
    push_u32(&mut p, 0);
    push_u8(&mut p, 3);
    push_u8(&mut p, 23 + a);
    push_u8(&mut p, 0);
    push_u8(&mut p, 0);
    push_u8(&mut p, 0);
    push_u8(&mut p, 4);
    push_u8(&mut p, 15 + a);
    push_u8(&mut p, 0x40);
    push_u8(&mut p, 0x15);
    push_zeros(&mut p, 11);
    push_u8(&mut p, 5);
    push_u8(&mut p, a);
    push_bytes(&mut p, asc.as_slice());
    push_u8(&mut p, 6);
    push_u8(&mut p, 1);
    push_u8(&mut p, 2);
    assert(p@ =~= be32(0) + seq![3u8, (23 + asc@.len()) as u8, 0u8, 0u8, 0u8] + seq![
        4u8,
        (15 + asc@.len()) as u8,
        0x40u8,
        0x15u8,
    ] + zeros(11) + seq![5u8, asc@.len() as u8] + asc@ + seq![6u8, 1u8, 2u8]);
    write_box(ESDS_BOX, &p)
}

fn write_audio_stbl(sample_rate: u32, channels: u16, asc: &Vec<u8>) -> (r: Vec<u8>)
    requires
        asc@.len() <= MAX_ASC_LEN,
    ensures
        r@ == audio_stbl_box(sample_rate, channels, asc@),
        r@.len() <= 0x1000,
{
    reveal(audio_stbl_box);
    let esds = write_esds(asc);
    let rate: u32 = if sample_rate <= 0xffff {
        sample_rate * 0x1_0000
    } else {
        0
    };
    let mut entry: Vec<u8> = Vec::new();
    push_zeros(&mut entry, 6);
    push_u16(&mut entry, 1);
    push_zeros(&mut entry, 8);
    push_u16(&mut entry, channels);
    push_u16(&mut entry, 16);
    push_zeros(&mut entry, 4);
    push_u32(&mut entry, rate);
    push_bytes(&mut entry, esds.as_slice());
    assert(entry@ =~= zeros(6) + be16(1) + zeros(8) + be16(channels) + be16(16) + zeros(4) + be32(
        rate_field(sample_rate),
    ) + esds_box(asc@));
    let mp4a = write_box(MP4A_BOX, &entry);
    let mut stsd: Vec<u8> = Vec::new();
    push_u32(&mut stsd, 0);
    push_u32(&mut stsd, 1);
    push_bytes(&mut stsd, mp4a.as_slice());
    assert(stsd@ =~= be32(0) + be32(1) + mp4a_box(sample_rate, channels, asc@));
    let stsd_box = write_box(STSD_BOX, &stsd);
    let mut stbl: Vec<u8> = Vec::new();
    push_bytes(&mut stbl, stsd_box.as_slice());
    assert(stbl@ =~= stsd_box@);
    write_empty_sample_tables(&mut stbl);
    assert(empty_sample_tables().len() == 84);
    write_box(STBL_BOX, &stbl)
}

/// Writes the `trak` box of an AAC audio track.
pub fn write_audio_trak(
    track_id: u32,
    timescale: u32,
    sample_rate: u32,
    channels: u16,
    asc: &Vec<u8>,
) -> (r: Vec<u8>)
    requires
        asc@.len() <= MAX_ASC_LEN,
    ensures
        r@ == audio_trak_box(track_id, timescale, sample_rate, channels, asc@),
        r@.len() <= 0x2000,
{
    let ghost stbl_spec = audio_stbl_box(sample_rate, channels, asc@);
    let stbl_box = write_audio_stbl(sample_rate, channels, asc);
    let mut minf: Vec<u8> = Vec::new();
    let smhd = write_smhd();
    let dinf = write_dinf();
    push_bytes(&mut minf, smhd.as_slice());
    push_bytes(&mut minf, dinf.as_slice());
    push_bytes(&mut minf, stbl_box.as_slice());
    let ghost minf_spec = smhd_box() + dinf_box() + stbl_spec;
    assert(minf@ =~= minf_spec);
    let minf_box = write_box(MINF_BOX, &minf);
    let mut mdia: Vec<u8> = Vec::new();
    let mdhd = write_mdhd(timescale);
    let hdlr = write_soun_hdlr();
    push_bytes(&mut mdia, mdhd.as_slice());
    push_bytes(&mut mdia, hdlr.as_slice());
    push_bytes(&mut mdia, minf_box.as_slice());
    let ghost mdia_spec = mdhd_box(timescale) + soun_hdlr_box() + mp4_box(MINF_BOX, minf_spec);
    assert(mdia@ =~= mdia_spec);
    let mdia_box = write_box(MDIA_BOX, &mdia);
    let mut trak: Vec<u8> = Vec::new();
    let tkhd = write_audio_tkhd(track_id);
    push_bytes(&mut trak, tkhd.as_slice());
    push_bytes(&mut trak, mdia_box.as_slice());
    assert(trak@ =~= audio_tkhd_box(track_id) + mp4_box(MDIA_BOX, mdia_spec));
    write_box(TRAK_BOX, &trak)
}

} // verus!
