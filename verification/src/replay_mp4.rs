//! Fragmented MP4 from a bounded packet history.
use crate::replay_media::{
    validate_packet, EncodedOpusPacket, OpusPacketView, ReplayAudioSnapshot, ReplayVideoCodec,
    ReplayVideoStream,
};
use crate::replay_media;
use crate::replay_ring;
use crate::replay_ring::{EncodedReplayPacket, PacketView, ReplayRing};
use crate::wire;
use vstd::prelude::*;
use vstd::string::*;

verus! {

broadcast use vstd::string::group_string_axioms;

pub const TIMESCALE: u32 = 1_000_000;

pub const AUDIO_TIMESCALE: u64 = 48_000;

pub const NANOSECONDS: u64 = 1_000_000_000;

pub const TRACK_ID: u32 = 1;

pub const AUDIO_TRACK_ID: u32 = 2;

pub const MAX_FRAGMENT_DURATION_NS: u64 = 30_000_000_000;

pub const MAX_AUDIO_PACKET_BYTES: usize = 4_096;

pub const AUDIO_FRAGMENT_PACKETS: usize = 1_500;

/// Samples of one twenty-millisecond Opus packet.
pub const AUDIO_PACKET_SAMPLES: u32 = 960;

pub const FTYP: u32 = 0x6674_7970;

pub const ISOM: u32 = 0x6973_6f6d;

pub const ISO6: u32 = 0x6973_6f36;

pub const AVC1: u32 = 0x6176_6331;

pub const MP41: u32 = 0x6d70_3431;

pub const MOOV: u32 = 0x6d6f_6f76;

pub const MVHD: u32 = 0x6d76_6864;

pub const TRAK: u32 = 0x7472_616b;

pub const TKHD: u32 = 0x746b_6864;

pub const MDIA: u32 = 0x6d64_6961;

pub const MDHD: u32 = 0x6d64_6864;

pub const HDLR: u32 = 0x6864_6c72;

pub const VIDE: u32 = 0x7669_6465;

pub const SOUN: u32 = 0x736f_756e;

pub const MINF: u32 = 0x6d69_6e66;

pub const VMHD: u32 = 0x766d_6864;

pub const SMHD: u32 = 0x736d_6864;

pub const DINF: u32 = 0x6469_6e66;

pub const DREF: u32 = 0x6472_6566;

pub const URL: u32 = 0x7572_6c20;

pub const STBL: u32 = 0x7374_626c;

pub const STSD: u32 = 0x7374_7364;

pub const STTS: u32 = 0x7374_7473;

pub const STSC: u32 = 0x7374_7363;

pub const STSZ: u32 = 0x7374_737a;

pub const STCO: u32 = 0x7374_636f;

pub const AVCC: u32 = 0x6176_6343;

pub const OPUS: u32 = 0x4f70_7573;

pub const DOPS: u32 = 0x644f_7073;

pub const MVEX: u32 = 0x6d76_6578;

pub const TREX: u32 = 0x7472_6578;

pub const MOOF: u32 = 0x6d6f_6f66;

pub const MFHD: u32 = 0x6d66_6864;

pub const TRAF: u32 = 0x7472_6166;

pub const TFHD: u32 = 0x7466_6864;

pub const TFDT: u32 = 0x7466_6474;

pub const TRUN: u32 = 0x7472_756e;

pub const MDAT: u32 = 0x6d64_6174;

pub const VIDEO_HANDLER: &'static str = "Redunar Video\0";

pub const AUDIO_HANDLER: &'static str = "Redunar Audio\0";

/// What one container holds.
#[derive(Clone, Copy, Debug, PartialEq, Eq, Structural)]
pub struct Mp4VideoSummary {
    pub packets: u32,
    pub fragments: u32,
    pub duration_ns: u64,
    pub bytes_written: u64,
}

/// Why a history has no container.
#[derive(Clone, Copy, Debug, PartialEq, Eq, Structural)]
pub enum Mp4VideoError {
    EmptyRing,
    MissingInitialKeyframe,
    UnsupportedCodec,
    InvalidPacket,
    TimestampOverflow,
    ContainerTooLarge,
}

impl Mp4VideoError {
    /// The user-facing sentence for this error.
    pub fn message(&self) -> (result: &'static str)
        ensures
            result@ == (match *self {
                Mp4VideoError::EmptyRing => "replay ring contains no encoded video"@,
                Mp4VideoError::MissingInitialKeyframe => "replay clip does not start at a keyframe"@,
                Mp4VideoError::UnsupportedCodec => "MP4 Replay currently requires H.264"@,
                Mp4VideoError::InvalidPacket => "replay packet cannot be muxed"@,
                Mp4VideoError::TimestampOverflow => "replay clip timestamp overflows"@,
                Mp4VideoError::ContainerTooLarge => "replay container exceeds MP4 limits"@,
            }),
    {
        match self {
            Mp4VideoError::EmptyRing => "replay ring contains no encoded video",
            Mp4VideoError::MissingInitialKeyframe => "replay clip does not start at a keyframe",
            Mp4VideoError::UnsupportedCodec => "MP4 Replay currently requires H.264",
            Mp4VideoError::InvalidPacket => "replay packet cannot be muxed",
            Mp4VideoError::TimestampOverflow => "replay clip timestamp overflows",
            Mp4VideoError::ContainerTooLarge => "replay container exceeds MP4 limits",
        }
    }
}

/// A box: its size, its kind, its contents.
pub open spec fn boxed(kind: u32, contents: Seq<u8>) -> Seq<u8> {
    wire::be32((contents.len() + 8) as u32) + wire::be32(kind) + contents
}

/// The version and the flags of a full box.
pub open spec fn full(version: u8, flags: u32) -> Seq<u8> {
    seq![
        version,
        (flags / 0x1_0000 % 0x100) as u8,
        (flags / 0x100 % 0x100) as u8,
        (flags % 0x100) as u8,
    ]
}

/// The unity transformation.
pub open spec fn unity_matrix() -> Seq<u8> {
    wire::be32(0x1_0000) + wire::zeros(12) + wire::be32(0x1_0000) + wire::zeros(12) + wire::be32(
        0x4000_0000,
    )
}

#[verifier::opaque]
pub open spec fn movie_header(next_track: u32) -> Seq<u8> {
    full(0, 0) + wire::zeros(8) + wire::be32(TIMESCALE) + wire::zeros(4) + wire::be32(0x1_0000)
        + wire::be16(0x0100) + wire::zeros(10) + unity_matrix() + wire::zeros(24) + wire::be32(
        next_track,
    )
}

/// A pixel count as a 16.16 fixed-point number.
pub open spec fn fixed_point(value: u32) -> u32 {
    (value * 0x1_0000 % 0x1_0000_0000) as u32
}

pub open spec fn video_track_header(stream: ReplayVideoStream) -> Seq<u8> {
    full(0, 7) + wire::zeros(8) + wire::be32(TRACK_ID) + wire::zeros(24) + unity_matrix()
        + wire::be32(fixed_point(stream.width)) + wire::be32(fixed_point(stream.height))
}

pub open spec fn media_header(timescale: u32) -> Seq<u8> {
    full(0, 0) + wire::zeros(8) + wire::be32(timescale) + wire::zeros(4) + wire::be16(0x55c4)
        + wire::zeros(2)
}

pub open spec fn handler(kind: u32, name: Seq<u8>) -> Seq<u8> {
    full(0, 0) + wire::zeros(4) + wire::be32(kind) + wire::zeros(12) + name
}

pub open spec fn data_information() -> Seq<u8> {
    boxed(DREF, full(0, 0) + wire::be32(1) + boxed(URL, full(0, 1)))
}

/// A sample table with one sample entry: fragments hold the samples.
pub open spec fn sample_table(kind: u32, entry: Seq<u8>) -> Seq<u8> {
    boxed(STSD, full(0, 0) + wire::be32(1) + boxed(kind, entry)) + boxed(
        STTS,
        full(0, 0) + wire::zeros(4),
    ) + boxed(STSC, full(0, 0) + wire::zeros(4)) + boxed(STSZ, full(0, 0) + wire::zeros(8))
        + boxed(STCO, full(0, 0) + wire::zeros(4))
}

pub open spec fn avc_entry(stream: ReplayVideoStream) -> Seq<u8> {
    wire::zeros(6) + wire::be16(1) + wire::zeros(16) + wire::be16(stream.width as u16)
        + wire::be16(stream.height as u16) + wire::be32(0x0048_0000) + wire::be32(0x0048_0000)
        + wire::zeros(4) + wire::be16(1) + wire::zeros(32) + wire::be16(0x0018) + wire::be16(0xffff)
        + boxed(AVCC, stream.codec_private@)
}

pub open spec fn video_information(stream: ReplayVideoStream) -> Seq<u8> {
    boxed(VMHD, full(0, 1) + wire::zeros(8)) + boxed(DINF, data_information()) + boxed(
        STBL,
        sample_table(AVC1, avc_entry(stream)),
    )
}

pub open spec fn video_media(stream: ReplayVideoStream) -> Seq<u8> {
    boxed(MDHD, media_header(TIMESCALE)) + boxed(HDLR, handler(VIDE, VIDEO_HANDLER.spec_bytes()))
        + boxed(MINF, video_information(stream))
}

#[verifier::opaque]
pub open spec fn video_track(stream: ReplayVideoStream) -> Seq<u8> {
    boxed(TKHD, video_track_header(stream)) + boxed(MDIA, video_media(stream))
}

pub open spec fn track_defaults(track: u32) -> Seq<u8> {
    full(0, 0) + wire::be32(track) + wire::be32(1) + wire::zeros(12)
}

/// The file type of every container.
#[verifier::opaque]
pub open spec fn file_type() -> Seq<u8> {
    boxed(
        FTYP,
        wire::be32(ISOM) + wire::be32(0x200) + wire::be32(ISOM) + wire::be32(ISO6) + wire::be32(
            AVC1,
        ) + wire::be32(MP41),
    )
}

/// The initialization of a container with video only.
#[verifier::opaque]
pub open spec fn video_movie(stream: ReplayVideoStream) -> Seq<u8> {
    boxed(
        MOOV,
        boxed(MVHD, movie_header(2)) + boxed(TRAK, video_track(stream)) + boxed(
            MVEX,
            boxed(TREX, track_defaults(TRACK_ID)),
        ),
    )
}

pub open spec fn opus_entry(audio: ReplayAudioSnapshot) -> Seq<u8> {
    wire::zeros(6) + wire::be16(1) + wire::zeros(8) + wire::be16(audio.stream.channels as u16)
        + wire::be16(16) + wire::zeros(4) + wire::be32(fixed_point(audio.stream.sample_rate))
        + boxed(
        DOPS,
        seq![0u8, audio.stream.channels] + wire::be16(312) + wire::be32(audio.stream.sample_rate)
            + wire::zeros(3),
    )
}

#[verifier::opaque]
pub open spec fn audio_information(audio: ReplayAudioSnapshot) -> Seq<u8> {
    boxed(SMHD, full(0, 0) + wire::zeros(4)) + boxed(DINF, data_information()) + boxed(
        STBL,
        sample_table(OPUS, opus_entry(audio)),
    )
}

pub open spec fn audio_track_header() -> Seq<u8> {
    full(0, 7) + wire::zeros(8) + wire::be32(AUDIO_TRACK_ID) + wire::zeros(16) + wire::be16(0x0100)
        + wire::zeros(2) + unity_matrix() + wire::zeros(8)
}

#[verifier::opaque]
pub open spec fn audio_media(audio: ReplayAudioSnapshot) -> Seq<u8> {
    boxed(MDHD, media_header(audio.stream.sample_rate)) + boxed(
        HDLR,
        handler(SOUN, AUDIO_HANDLER.spec_bytes()),
    ) + boxed(MINF, audio_information(audio))
}

#[verifier::opaque]
pub open spec fn audio_track(audio: ReplayAudioSnapshot) -> Seq<u8> {
    boxed(TKHD, audio_track_header()) + boxed(MDIA, audio_media(audio))
}

/// The initialization of a container with video and audio.
#[verifier::opaque]
pub open spec fn audio_video_movie(stream: ReplayVideoStream, audio: ReplayAudioSnapshot) -> Seq<u8> {
    boxed(
        MOOV,
        boxed(MVHD, movie_header(3)) + boxed(TRAK, video_track(stream)) + boxed(
            TRAK,
            audio_track(audio),
        ) + boxed(
            MVEX,
            boxed(TREX, track_defaults(TRACK_ID)) + boxed(TREX, track_defaults(AUDIO_TRACK_ID)),
        ),
    )
}

/// Whether the dimensions of a stream fit a sample entry.
pub open spec fn dimensions_fit(stream: ReplayVideoStream) -> bool {
    stream.width <= u16::MAX && stream.height <= u16::MAX
}

fn full_box(version: u8, flags: u32) -> (result: Vec<u8>)
    ensures
        result@ == full(version, flags),
{
    let mut result: Vec<u8> = Vec::new();
    result.push(version);
    result.push((flags / 0x1_0000 % 0x100) as u8);
    result.push((flags / 0x100 % 0x100) as u8);
    result.push((flags % 0x100) as u8);
    assert(result@ =~= full(version, flags));
    result
}

fn push_box(destination: &mut Vec<u8>, kind: u32, contents: &[u8]) -> (result: Result<
    (),
    Mp4VideoError,
>)
    ensures
        match result {
            Ok(()) => contents@.len() + 8 <= u32::MAX && final(destination)@ == old(destination)@
                + boxed(kind, contents@),
            Err(error) => contents@.len() + 8 > u32::MAX && error
                == Mp4VideoError::ContainerTooLarge && final(destination)@ == old(destination)@,
        },
{
    if contents.len() as u64 > u32::MAX as u64 - 8 {
        return Err(Mp4VideoError::ContainerTooLarge);
    }
    wire::put_u32(destination, contents.len() as u32 + 8);
    wire::put_u32(destination, kind);
    destination.extend_from_slice(contents);
    assert(destination@ =~= old(destination)@ + boxed(kind, contents@));
    Ok(())
}

fn make_box(kind: u32, contents: &[u8]) -> (result: Result<Vec<u8>, Mp4VideoError>)
    ensures
        match result {
            Ok(bytes) => contents@.len() + 8 <= u32::MAX && bytes@ == boxed(kind, contents@),
            Err(error) => contents@.len() + 8 > u32::MAX && error
                == Mp4VideoError::ContainerTooLarge,
        },
{
    let mut result: Vec<u8> = Vec::new();
    match push_box(&mut result, kind, contents) {
        Err(error) => Err(error),
        Ok(()) => {
            assert(result@ =~= boxed(kind, contents@));
            Ok(result)
        },
    }
}

fn put_matrix(bytes: &mut Vec<u8>)
    ensures
        final(bytes)@ == old(bytes)@ + unity_matrix(),
{
    wire::put_u32(bytes, 0x1_0000);
    wire::put_zeros(bytes, 12);
    wire::put_u32(bytes, 0x1_0000);
    wire::put_zeros(bytes, 12);
    wire::put_u32(bytes, 0x4000_0000);
    assert(bytes@ =~= old(bytes)@ + unity_matrix());
}

fn to_fixed_point(value: u32) -> (result: u32)
    ensures
        result == fixed_point(value),
{
    (value as u64 * 0x1_0000 % 0x1_0000_0000) as u32
}

fn mvhd_for_next_track(next_track: u32) -> (result: Vec<u8>)
    ensures
        result@ == movie_header(next_track),
        result@.len() == 100,
{
    reveal(movie_header);
    let mut value = full_box(0, 0);
    wire::put_zeros(&mut value, 8);
    wire::put_u32(&mut value, TIMESCALE);
    wire::put_zeros(&mut value, 4);
    wire::put_u32(&mut value, 0x1_0000);
    wire::put_u16(&mut value, 0x0100);
    wire::put_zeros(&mut value, 10);
    put_matrix(&mut value);
    wire::put_zeros(&mut value, 24);
    wire::put_u32(&mut value, next_track);
    value
}

fn tkhd(stream: &ReplayVideoStream) -> (result: Vec<u8>)
    ensures
        result@ == video_track_header(*stream),
        result@.len() == 84,
{
    let mut value = full_box(0, 7);
    wire::put_zeros(&mut value, 8);
    wire::put_u32(&mut value, TRACK_ID);
    wire::put_zeros(&mut value, 24);
    put_matrix(&mut value);
    wire::put_u32(&mut value, to_fixed_point(stream.width));
    wire::put_u32(&mut value, to_fixed_point(stream.height));
    value
}

fn mdhd(timescale: u32) -> (result: Vec<u8>)
    ensures
        result@ == media_header(timescale),
        result@.len() == 24,
{
    let mut value = full_box(0, 0);
    wire::put_zeros(&mut value, 8);
    wire::put_u32(&mut value, timescale);
    wire::put_zeros(&mut value, 4);
    wire::put_u16(&mut value, 0x55c4);
    wire::put_zeros(&mut value, 2);
    value
}

fn hdlr(kind: u32, name: &str) -> (result: Vec<u8>)
    ensures
        result@ == handler(kind, name.spec_bytes()),
        result@.len() == 24 + name.spec_bytes().len(),
{
    let mut value = full_box(0, 0);
    wire::put_zeros(&mut value, 4);
    wire::put_u32(&mut value, kind);
    wire::put_zeros(&mut value, 12);
    value.extend_from_slice(name.as_bytes());
    assert(value@ =~= handler(kind, name.spec_bytes()));
    value
}

fn trex_for(track: u32) -> (result: Vec<u8>)
    ensures
        result@ == track_defaults(track),
        result@.len() == 24,
{
    let mut value = full_box(0, 0);
    wire::put_u32(&mut value, track);
    wire::put_u32(&mut value, 1);
    wire::put_zeros(&mut value, 12);
    value
}

fn dinf() -> (result: Result<Vec<u8>, Mp4VideoError>)
    ensures
        result matches Ok(value) && value@ == data_information() && value@.len() == 28,
{
    let mut dref = full_box(0, 0);
    wire::put_u32(&mut dref, 1);
    match push_box(&mut dref, URL, full_box(0, 1).as_slice()) {
        Err(error) => Err(error),
        Ok(()) => make_box(DREF, dref.as_slice()),
    }
}

/// One of the tables that fragments leave empty.
fn empty_table(counters: usize) -> (result: Vec<u8>)
    requires
        counters <= 8,
    ensures
        result@ == full(0, 0) + wire::zeros(counters as nat),
{
    let mut value = full_box(0, 0);
    wire::put_zeros(&mut value, counters);
    value
}

fn stbl(kind: u32, entry: &[u8]) -> (result: Result<Vec<u8>, Mp4VideoError>)
    ensures
        match result {
            Ok(value) => value@ == sample_table(kind, entry@),
            Err(error) => error == Mp4VideoError::ContainerTooLarge && sample_table(
                kind,
                entry@,
            ).len() > u32::MAX,
        },
{
    let mut stsd = full_box(0, 0);
    wire::put_u32(&mut stsd, 1);
    if let Err(error) = push_box(&mut stsd, kind, entry) {
        return Err(error);
    }
    let mut value = match make_box(STSD, stsd.as_slice()) {
        Err(error) => {
            return Err(error);
        },
        Ok(value) => value,
    };
    if let Err(error) = push_box(&mut value, STTS, empty_table(4).as_slice()) {
        return Err(error);
    }
    if let Err(error) = push_box(&mut value, STSC, empty_table(4).as_slice()) {
        return Err(error);
    }
    if let Err(error) = push_box(&mut value, STSZ, empty_table(8).as_slice()) {
        return Err(error);
    }
    if let Err(error) = push_box(&mut value, STCO, empty_table(4).as_slice()) {
        return Err(error);
    }
    Ok(value)
}

fn avc1(stream: &ReplayVideoStream) -> (result: Result<Vec<u8>, Mp4VideoError>)
    ensures
        match result {
            Ok(value) => dimensions_fit(*stream) && value@ == avc_entry(*stream),
            Err(error) => error == Mp4VideoError::ContainerTooLarge && (!dimensions_fit(*stream)
                || avc_entry(*stream).len() > u32::MAX),
        },
{
    let mut value: Vec<u8> = Vec::new();
    wire::put_zeros(&mut value, 6);
    assert(value@ =~= wire::zeros(6));
    wire::put_u16(&mut value, 1);
    wire::put_zeros(&mut value, 16);
    if stream.width > u16::MAX as u32 || stream.height > u16::MAX as u32 {
        return Err(Mp4VideoError::ContainerTooLarge);
    }
    wire::put_u16(&mut value, stream.width as u16);
    wire::put_u16(&mut value, stream.height as u16);
    wire::put_u32(&mut value, 0x0048_0000);
    wire::put_u32(&mut value, 0x0048_0000);
    wire::put_zeros(&mut value, 4);
    wire::put_u16(&mut value, 1);
    wire::put_zeros(&mut value, 32);
    wire::put_u16(&mut value, 0x0018);
    wire::put_u16(&mut value, 0xffff);
    match push_box(&mut value, AVCC, stream.codec_private.as_slice()) {
        Err(error) => Err(error),
        Ok(()) => Ok(value),
    }
}

fn minf(stream: &ReplayVideoStream) -> (result: Result<Vec<u8>, Mp4VideoError>)
    ensures
        match result {
            Ok(value) => dimensions_fit(*stream) && value@ == video_information(*stream),
            Err(error) => error == Mp4VideoError::ContainerTooLarge && (!dimensions_fit(*stream)
                || video_information(*stream).len() > u32::MAX),
        },
{
    let mut vmhd = full_box(0, 1);
    wire::put_zeros(&mut vmhd, 8);
    let mut value = match make_box(VMHD, vmhd.as_slice()) {
        Err(error) => {
            return Err(error);
        },
        Ok(value) => value,
    };
    let dinf = match dinf() {
        Err(error) => {
            return Err(error);
        },
        Ok(dinf) => dinf,
    };
    if let Err(error) = push_box(&mut value, DINF, dinf.as_slice()) {
        return Err(error);
    }
    let entry = match avc1(stream) {
        Err(error) => {
            return Err(error);
        },
        Ok(entry) => entry,
    };
    let table = match stbl(AVC1, entry.as_slice()) {
        Err(error) => {
            return Err(error);
        },
        Ok(table) => table,
    };
    match push_box(&mut value, STBL, table.as_slice()) {
        Err(error) => Err(error),
        Ok(()) => Ok(value),
    }
}

proof fn lemma_handler_names()
    ensures
        VIDEO_HANDLER.spec_bytes().len() == 14,
        AUDIO_HANDLER.spec_bytes().len() == 14,
{
    reveal_strlit("Redunar Video\0");
    reveal_strlit("Redunar Audio\0");
    assert(VIDEO_HANDLER.is_ascii());
    assert(AUDIO_HANDLER.is_ascii());
}

fn mdia(stream: &ReplayVideoStream) -> (result: Result<Vec<u8>, Mp4VideoError>)
    ensures
        match result {
            Ok(value) => dimensions_fit(*stream) && value@ == video_media(*stream),
            Err(error) => error == Mp4VideoError::ContainerTooLarge && (!dimensions_fit(*stream)
                || video_media(*stream).len() > u32::MAX),
        },
{
    proof {
        lemma_handler_names();
    }
    let mut value = match make_box(MDHD, mdhd(TIMESCALE).as_slice()) {
        Err(error) => {
            return Err(error);
        },
        Ok(value) => value,
    };
    if let Err(error) = push_box(&mut value, HDLR, hdlr(VIDE, VIDEO_HANDLER).as_slice()) {
        return Err(error);
    }
    let information = match minf(stream) {
        Err(error) => {
            return Err(error);
        },
        Ok(information) => information,
    };
    match push_box(&mut value, MINF, information.as_slice()) {
        Err(error) => Err(error),
        Ok(()) => Ok(value),
    }
}

fn trak(stream: &ReplayVideoStream) -> (result: Result<Vec<u8>, Mp4VideoError>)
    ensures
        match result {
            Ok(value) => dimensions_fit(*stream) && value@ == video_track(*stream),
            Err(error) => error == Mp4VideoError::ContainerTooLarge && (!dimensions_fit(*stream)
                || video_track(*stream).len() > u32::MAX),
        },
{
    reveal(video_track);
    let mut value = match make_box(TKHD, tkhd(stream).as_slice()) {
        Err(error) => {
            return Err(error);
        },
        Ok(value) => value,
    };
    let media = match mdia(stream) {
        Err(error) => {
            return Err(error);
        },
        Ok(media) => media,
    };
    match push_box(&mut value, MDIA, media.as_slice()) {
        Err(error) => Err(error),
        Ok(()) => Ok(value),
    }
}

fn moov(stream: &ReplayVideoStream) -> (result: Result<Vec<u8>, Mp4VideoError>)
    ensures
        match result {
            Ok(value) => dimensions_fit(*stream) && value@ == video_movie(*stream) && value@.len()
                <= u32::MAX,
            Err(error) => error == Mp4VideoError::ContainerTooLarge && (!dimensions_fit(*stream)
                || video_movie(*stream).len() > u32::MAX),
        },
{
    reveal(video_movie);
    let mut contents = match make_box(MVHD, mvhd_for_next_track(TRACK_ID + 1).as_slice()) {
        Err(error) => {
            return Err(error);
        },
        Ok(contents) => contents,
    };
    let track = match trak(stream) {
        Err(error) => {
            return Err(error);
        },
        Ok(track) => track,
    };
    if let Err(error) = push_box(&mut contents, TRAK, track.as_slice()) {
        return Err(error);
    }
    let mvex = match make_box(TREX, trex_for(TRACK_ID).as_slice()) {
        Err(error) => {
            return Err(error);
        },
        Ok(mvex) => mvex,
    };
    if let Err(error) = push_box(&mut contents, MVEX, mvex.as_slice()) {
        return Err(error);
    }
    make_box(MOOV, contents.as_slice())
}

fn ftyp() -> (result: Result<Vec<u8>, Mp4VideoError>)
    ensures
        result matches Ok(value) && value@ == file_type() && value@.len() == 32,
{
    reveal(file_type);
    let mut brands: Vec<u8> = Vec::new();
    wire::put_u32(&mut brands, ISOM);
    assert(brands@ =~= wire::be32(ISOM));
    wire::put_u32(&mut brands, 0x200);
    wire::put_u32(&mut brands, ISOM);
    wire::put_u32(&mut brands, ISO6);
    wire::put_u32(&mut brands, AVC1);
    wire::put_u32(&mut brands, MP41);
    make_box(FTYP, brands.as_slice())
}

/// Nanoseconds in units of the video timescale, where the product fits.
pub open spec fn in_timescale(nanoseconds: int) -> Option<int> {
    if nanoseconds * TIMESCALE <= u64::MAX {
        Some(nanoseconds * TIMESCALE / NANOSECONDS as int)
    } else {
        None
    }
}

fn to_timescale(nanoseconds: u64) -> (result: Result<u64, Mp4VideoError>)
    ensures
        match result {
            Ok(value) => in_timescale(nanoseconds as int) == Some(value as int),
            Err(error) => error == Mp4VideoError::TimestampOverflow && in_timescale(
                nanoseconds as int,
            ) is None,
        },
{
    match nanoseconds.checked_mul(TIMESCALE as u64) {
        Some(product) => Ok(product / NANOSECONDS),
        None => Err(Mp4VideoError::TimestampOverflow),
    }
}

/// What a list of borrowed packets holds.
pub open spec fn packet_views(packets: Seq<&EncodedReplayPacket>) -> Seq<PacketView> {
    packets.map_values(|packet: &EncodedReplayPacket| packet@)
}

/// What a list of borrowed Opus packets holds.
pub open spec fn borrowed_opus(packets: Seq<&EncodedOpusPacket>) -> Seq<OpusPacketView> {
    packets.map_values(|packet: &EncodedOpusPacket| packet@)
}

/// How long a packet of a fragment is shown: until the next one starts.
pub open spec fn shown_ns(packets: Seq<PacketView>, index: int) -> int {
    if index + 1 < packets.len() {
        let gap = packets[index + 1].timestamp_ns - packets[index].timestamp_ns;
        if gap < 0 {
            0
        } else {
            gap
        }
    } else {
        packets[index].duration_ns as int
    }
}

/// The run entry of one packet: duration, size, dependency flags.
pub open spec fn sample_entry(packets: Seq<PacketView>, index: int) -> Result<
    Seq<u8>,
    Mp4VideoError,
> {
    match in_timescale(shown_ns(packets, index)) {
        None => Err(Mp4VideoError::TimestampOverflow),
        Some(duration) => if duration > u32::MAX {
            Err(Mp4VideoError::TimestampOverflow)
        } else if packets[index].bytes.len() > u32::MAX {
            Err(Mp4VideoError::ContainerTooLarge)
        } else {
            Ok(
                wire::be32(duration as u32) + wire::be32(packets[index].bytes.len() as u32)
                    + wire::be32(
                    if packets[index].keyframe {
                        0x0200_0000
                    } else {
                        0x0101_0000
                    },
                ),
            )
        },
    }
}

/// The run entries of the first `count` packets.
pub open spec fn sample_entries(packets: Seq<PacketView>, count: int) -> Result<
    Seq<u8>,
    Mp4VideoError,
>
    decreases count,
{
    if count <= 0 {
        Ok(Seq::empty())
    } else {
        match sample_entries(packets, count - 1) {
            Err(error) => Err(error),
            Ok(entries) => match sample_entry(packets, count - 1) {
                Err(error) => Err(error),
                Ok(entry) => Ok(entries + entry),
            },
        }
    }
}

proof fn lemma_entries_error_stays(packets: Seq<PacketView>, early: int, late: int)
    requires
        0 <= early <= late,
        sample_entries(packets, early) is Err,
    ensures
        sample_entries(packets, late) == sample_entries(packets, early),
    decreases late,
{
    if early < late {
        lemma_entries_error_stays(packets, early, late - 1);
    }
}

/// A fragment header for one track run.
#[verifier::opaque]
pub open spec fn fragment_box(
    sequence: u32,
    track: u32,
    base_time: u64,
    run_flags: u32,
    samples: u32,
    data_offset: u32,
    entries: Seq<u8>,
) -> Seq<u8> {
    boxed(
        MOOF,
        boxed(MFHD, full(0, 0) + wire::be32(sequence)) + boxed(
            TRAF,
            boxed(TFHD, full(0, 0x0002_0000) + wire::be32(track)) + boxed(
                TFDT,
                full(1, 0) + wire::be64(base_time),
            ) + boxed(
                TRUN,
                full(0, run_flags) + wire::be32(samples) + wire::be32(data_offset) + entries,
            ),
        ),
    )
}

/// The header of a video fragment.
#[verifier::opaque]
pub open spec fn video_header(
    sequence: u32,
    base_time: u64,
    packets: Seq<PacketView>,
    data_offset: u32,
) -> Result<Seq<u8>, Mp4VideoError> {
    if packets.len() > u32::MAX {
        Err(Mp4VideoError::ContainerTooLarge)
    } else {
        match sample_entries(packets, packets.len() as int) {
            Err(error) => Err(error),
            Ok(entries) => {
                let header = fragment_box(
                    sequence,
                    TRACK_ID,
                    base_time,
                    0x0701,
                    packets.len() as u32,
                    data_offset,
                    entries,
                );
                if header.len() > u32::MAX {
                    Err(Mp4VideoError::ContainerTooLarge)
                } else {
                    Ok(header)
                }
            },
        }
    }
}

fn header_box(
    sequence: u32,
    track: u32,
    base_time: u64,
    run: &[u8],
) -> (result: Result<Vec<u8>, Mp4VideoError>)
    ensures
        ({
            let header = boxed(
                MOOF,
                boxed(MFHD, full(0, 0) + wire::be32(sequence)) + boxed(
                    TRAF,
                    boxed(TFHD, full(0, 0x0002_0000) + wire::be32(track)) + boxed(
                        TFDT,
                        full(1, 0) + wire::be64(base_time),
                    ) + boxed(TRUN, run@),
                ),
            );
            match result {
                Ok(value) => value@ == header && header.len() <= u32::MAX,
                Err(error) => error == Mp4VideoError::ContainerTooLarge && header.len() > u32::MAX,
            }
        }),
{
    let mut mfhd = full_box(0, 0);
    wire::put_u32(&mut mfhd, sequence);
    let mut tfhd = full_box(0, 0x0002_0000);
    wire::put_u32(&mut tfhd, track);
    let mut tfdt = full_box(1, 0);
    wire::put_u64(&mut tfdt, base_time);
    let mut traf = match make_box(TFHD, tfhd.as_slice()) {
        Err(error) => {
            return Err(error);
        },
        Ok(traf) => traf,
    };
    if let Err(error) = push_box(&mut traf, TFDT, tfdt.as_slice()) {
        return Err(error);
    }
    if let Err(error) = push_box(&mut traf, TRUN, run) {
        return Err(error);
    }
    let mut contents = match make_box(MFHD, mfhd.as_slice()) {
        Err(error) => {
            return Err(error);
        },
        Ok(contents) => contents,
    };
    if let Err(error) = push_box(&mut contents, TRAF, traf.as_slice()) {
        return Err(error);
    }
    make_box(MOOF, contents.as_slice())
}

fn put_sample_entry(run: &mut Vec<u8>, packets: &[&EncodedReplayPacket], index: usize) -> (result:
    Result<(), Mp4VideoError>)
    requires
        index < packets@.len(),
    ensures
        match result {
            Ok(()) => sample_entry(packet_views(packets@), index as int) matches Ok(entry)
                && final(run)@ == old(run)@ + entry,
            Err(error) => sample_entry(packet_views(packets@), index as int) == Err::<
                Seq<u8>,
                Mp4VideoError,
            >(error),
        },
{
    let ghost views = packet_views(packets@);
    let packet = packets[index];
    assert(views[index as int] == packet@);
    let shown: u64 = if index + 1 < packets.len() {
        assert(views[index + 1] == packets@[index + 1]@);
        packets[index + 1].timestamp_ns().saturating_sub(packet.timestamp_ns())
    } else {
        packet.duration_ns()
    };
    let duration: u64 = match to_timescale(shown) {
        Err(error) => {
            return Err(error);
        },
        Ok(duration) => duration,
    };
    if duration > u32::MAX as u64 {
        return Err(Mp4VideoError::TimestampOverflow);
    }
    let size: usize = packet.bytes().len();
    if size as u64 > u32::MAX as u64 {
        return Err(Mp4VideoError::ContainerTooLarge);
    }
    wire::put_u32(run, duration as u32);
    wire::put_u32(run, size as u32);
    wire::put_u32(
        run,
        if packet.is_keyframe() {
            0x0200_0000
        } else {
            0x0101_0000
        },
    );
    assert(run@ =~= old(run)@ + sample_entry(views, index as int)->Ok_0);
    Ok(())
}

fn moof(sequence: u32, base_time: u64, packets: &[&EncodedReplayPacket], data_offset: u32) -> (result:
    Result<Vec<u8>, Mp4VideoError>)
    ensures
        match result {
            Ok(value) => video_header(sequence, base_time, packet_views(packets@), data_offset)
                == Ok::<Seq<u8>, Mp4VideoError>(value@),
            Err(error) => video_header(sequence, base_time, packet_views(packets@), data_offset)
                == Err::<Seq<u8>, Mp4VideoError>(error),
        },
{
    reveal(video_header);
    reveal(fragment_box);
    let ghost views = packet_views(packets@);
    if packets.len() as u64 > u32::MAX as u64 {
        return Err(Mp4VideoError::ContainerTooLarge);
    }
    let mut run = full_box(0, 0x0701);
    wire::put_u32(&mut run, packets.len() as u32);
    wire::put_u32(&mut run, data_offset);
    let ghost start = run@;
    let mut index: usize = 0;
    assert(run@ =~= start + Seq::<u8>::empty());
    while index < packets.len()
        invariant
            index <= packets@.len() <= u32::MAX,
            views == packet_views(packets@),
            sample_entries(views, index as int) matches Ok(entries) && run@ == start + entries,
        decreases packets@.len() - index,
    {
        let ghost before = sample_entries(views, index as int)->Ok_0;
        match put_sample_entry(&mut run, packets, index) {
            Err(error) => {
                proof {
                    reveal(video_header);
                    lemma_entries_error_stays(views, index + 1, views.len() as int);
                }
                return Err(error);
            },
            Ok(()) => {
                assert(run@ =~= start + (before + sample_entry(views, index as int)->Ok_0));
            },
        }
        index = index + 1;
    }
    header_box(sequence, TRACK_ID, base_time, run.as_slice())
}

/// The payloads of packets, one after the other.
pub open spec fn payload(packets: Seq<PacketView>) -> Seq<u8>
    decreases packets.len(),
{
    if packets.len() == 0 {
        Seq::empty()
    } else {
        payload(packets.drop_last()) + packets.last().bytes
    }
}

/// A fragment: its header and its media data.
pub open spec fn with_media(header: Seq<u8>, media: Seq<u8>) -> Result<Seq<u8>, Mp4VideoError> {
    if media.len() + 8 > u32::MAX {
        Err(Mp4VideoError::ContainerTooLarge)
    } else {
        Ok(header + boxed(MDAT, media))
    }
}

/// The header of one video fragment, with the offset of its media data.
#[verifier::opaque]
pub open spec fn video_fragment_header(
    sequence: u32,
    origin_ns: u64,
    packets: Seq<PacketView>,
) -> Result<Seq<u8>, Mp4VideoError> {
    if packets[0].timestamp_ns < origin_ns {
        Err(Mp4VideoError::TimestampOverflow)
    } else {
        match in_timescale(packets[0].timestamp_ns - origin_ns) {
            None => Err(Mp4VideoError::TimestampOverflow),
            Some(base_time) => match video_header(sequence, base_time as u64, packets, 0) {
                Err(error) => Err(error),
                Ok(provisional) => if provisional.len() + 8 > i32::MAX {
                    Err(Mp4VideoError::ContainerTooLarge)
                } else {
                    video_header(
                        sequence,
                        base_time as u64,
                        packets,
                        (provisional.len() + 8) as u32,
                    )
                },
            },
        }
    }
}

/// One video fragment.
pub open spec fn video_fragment(sequence: u32, origin_ns: u64, packets: Seq<PacketView>) -> Result<
    Seq<u8>,
    Mp4VideoError,
> {
    match video_fragment_header(sequence, origin_ns, packets) {
        Err(error) => Err(error),
        Ok(header) => with_media(header, payload(packets)),
    }
}

/// What is written of one video fragment: all of it, or its header alone
/// where its media data is too large, or nothing.
pub open spec fn video_fragment_written(
    sequence: u32,
    origin_ns: u64,
    packets: Seq<PacketView>,
) -> Seq<u8> {
    match video_fragment_header(sequence, origin_ns, packets) {
        Err(_) => Seq::empty(),
        Ok(header) => match with_media(header, payload(packets)) {
            Err(_) => header,
            Ok(fragment) => fragment,
        },
    }
}

/// The offset of media data behind a header of this length.
fn media_offset(header_bytes: usize) -> (result: Result<u32, Mp4VideoError>)
    ensures
        match result {
            Ok(offset) => header_bytes + 8 <= i32::MAX && offset == header_bytes + 8,
            Err(error) => header_bytes + 8 > i32::MAX && error == Mp4VideoError::ContainerTooLarge,
        },
{
    if header_bytes as u64 > i32::MAX as u64 - 8 {
        Err(Mp4VideoError::ContainerTooLarge)
    } else {
        Ok(header_bytes as u32 + 8)
    }
}

fn write_box_header(output: &mut Vec<u8>, kind: u32, size: u64) -> (result: Result<
    (),
    Mp4VideoError,
>)
    ensures
        match result {
            Ok(()) => size + 8 <= u32::MAX && final(output)@ == old(output)@ + wire::be32(
                (size + 8) as u32,
            ) + wire::be32(kind),
            Err(error) => size + 8 > u32::MAX && error == Mp4VideoError::ContainerTooLarge
                && final(output)@ == old(output)@,
        },
{
    if size > u32::MAX as u64 - 8 {
        return Err(Mp4VideoError::ContainerTooLarge);
    }
    wire::put_u32(output, size as u32 + 8);
    wire::put_u32(output, kind);
    Ok(())
}

proof fn lemma_payload_step(packets: Seq<PacketView>, index: int)
    requires
        0 <= index < packets.len(),
    ensures
        payload(packets.take(index + 1)) == payload(packets.take(index)) + packets[index].bytes,
{
    assert(packets.take(index + 1).drop_last() =~= packets.take(index));
}

proof fn lemma_payload_grows(packets: Seq<PacketView>, index: int)
    requires
        0 <= index <= packets.len(),
    ensures
        payload(packets.take(index)).len() <= payload(packets).len(),
    decreases packets.len() - index,
{
    if index == packets.len() {
        assert(packets.take(index) =~= packets);
    } else {
        lemma_payload_step(packets, index);
        lemma_payload_grows(packets, index + 1);
    }
}

fn write_fragment(
    output: &mut Vec<u8>,
    sequence: u32,
    origin_ns: u64,
    packets: &[&EncodedReplayPacket],
) -> (result: Result<(), Mp4VideoError>)
    requires
        packets@.len() > 0,
    ensures
        final(output)@ == old(output)@ + video_fragment_written(
            sequence,
            origin_ns,
            packet_views(packets@),
        ),
        match result {
            Ok(()) => video_fragment(sequence, origin_ns, packet_views(packets@)) matches Ok(bytes)
                && final(output)@ == old(output)@ + bytes,
            Err(error) => video_fragment(sequence, origin_ns, packet_views(packets@)) == Err::<
                Seq<u8>,
                Mp4VideoError,
            >(error),
        },
{
    reveal(video_fragment_header);
    assert(output@ =~= output@ + Seq::<u8>::empty());
    let ghost views = packet_views(packets@);
    assert(views[0] == packets@[0]@);
    let first: u64 = packets[0].timestamp_ns();
    if first < origin_ns {
        return Err(Mp4VideoError::TimestampOverflow);
    }
    let base_time: u64 = match to_timescale(first - origin_ns) {
        Err(error) => {
            return Err(error);
        },
        Ok(base_time) => base_time,
    };
    let provisional = match moof(sequence, base_time, packets, 0) {
        Err(error) => {
            return Err(error);
        },
        Ok(provisional) => provisional,
    };
    let data_offset: u32 = match media_offset(provisional.len()) {
        Err(error) => {
            return Err(error);
        },
        Ok(data_offset) => data_offset,
    };
    let header = match moof(sequence, base_time, packets, data_offset) {
        Err(error) => {
            return Err(error);
        },
        Ok(header) => header,
    };
    let ghost before = output@;
    output.extend_from_slice(header.as_slice());
    assert(output@ =~= before + header@);
    let mut size: u64 = 0;
    let mut index: usize = 0;
    assert(views.take(0) =~= Seq::<PacketView>::empty());
    while index < packets.len()
        invariant
            index <= packets@.len(),
            views == packet_views(packets@),
            size == payload(views.take(index as int)).len(),
            output@ == before + header@,
            video_fragment_header(sequence, origin_ns, views) == Ok::<Seq<u8>, Mp4VideoError>(
                header@,
            ),
            before == old(output)@,
        decreases packets@.len() - index,
    {
        proof {
            assert(views[index as int] == packets@[index as int]@);
            lemma_payload_step(views, index as int);
            lemma_payload_grows(views, index + 1);
        }
        match size.checked_add(packets[index].bytes().len() as u64) {
            None => {
                return Err(Mp4VideoError::ContainerTooLarge);
            },
            Some(sum) => {
                size = sum;
            },
        }
        index = index + 1;
    }
    assert(views.take(index as int) =~= views);
    if let Err(error) = write_box_header(output, MDAT, size) {
        return Err(error);
    }
    let ghost headed = output@;
    let mut written: usize = 0;
    assert(output@ =~= headed + payload(views.take(0)));
    while written < packets.len()
        invariant
            written <= packets@.len(),
            views == packet_views(packets@),
            output@ == headed + payload(views.take(written as int)),
        decreases packets@.len() - written,
    {
        proof {
            assert(views[written as int] == packets@[written as int]@);
            lemma_payload_step(views, written as int);
        }
        let ghost so_far = payload(views.take(written as int));
        output.extend_from_slice(packets[written].bytes());
        assert(output@ =~= headed + (so_far + views[written as int].bytes));
        written = written + 1;
    }
    assert(views.take(written as int) =~= views);
    assert(output@ =~= before + (header@ + boxed(MDAT, payload(views))));
    Ok(())
}

/// The first packet from `at` on that starts a new fragment: a keyframe, or
/// one that is thirty seconds or more after the fragment's first packet.
pub open spec fn next_boundary(packets: Seq<PacketView>, start: int, at: int) -> int
    decreases packets.len() - at,
{
    if at >= packets.len() {
        packets.len() as int
    } else if packets[at].keyframe || packets[at].timestamp_ns - packets[start].timestamp_ns
        >= MAX_FRAGMENT_DURATION_NS {
        at
    } else {
        next_boundary(packets, start, at + 1)
    }
}

/// A boundary lies at or after the place from which it is sought.
pub proof fn lemma_boundary_range(packets: Seq<PacketView>, start: int, at: int)
    requires
        0 <= at <= packets.len(),
    ensures
        at <= next_boundary(packets, start, at) <= packets.len(),
    decreases packets.len() - at,
{
    if at < packets.len() {
        lemma_boundary_range(packets, start, at + 1);
    }
}

/// The number after `sequence`, as far as the field can count.
pub open spec fn next_sequence(sequence: u32) -> u32 {
    if sequence == u32::MAX {
        u32::MAX
    } else {
        (sequence + 1) as u32
    }
}

/// The fragments of the packets from `start` on, numbered after `sequence`,
/// and the last number.
pub open spec fn video_fragments(
    packets: Seq<PacketView>,
    origin_ns: u64,
    start: int,
    sequence: u32,
) -> Result<(Seq<u8>, u32), Mp4VideoError>
    decreases packets.len() - start,
{
    proof {
        if 0 <= start < packets.len() {
            lemma_boundary_range(packets, start, start + 1);
        }
    }
    if start < 0 || start >= packets.len() {
        Ok((Seq::empty(), sequence))
    } else {
        let end = next_boundary(packets, start, start + 1);
        match video_fragment(next_sequence(sequence), origin_ns, packets.subrange(start, end)) {
            Err(error) => Err(error),
            Ok(fragment) => match video_fragments(packets, origin_ns, end, next_sequence(sequence)) {
                Err(error) => Err(error),
                Ok((rest, last)) => Ok((fragment + rest, last)),
            },
        }
    }
}

/// What is written of the fragments from `start` on, up to the first that
/// fails.
pub open spec fn video_fragments_written(
    packets: Seq<PacketView>,
    origin_ns: u64,
    start: int,
    sequence: u32,
) -> Seq<u8>
    decreases packets.len() - start,
{
    proof {
        if 0 <= start < packets.len() {
            lemma_boundary_range(packets, start, start + 1);
        }
    }
    if start < 0 || start >= packets.len() {
        Seq::empty()
    } else {
        let end = next_boundary(packets, start, start + 1);
        let number = next_sequence(sequence);
        let part = packets.subrange(start, end);
        let written = video_fragment_written(number, origin_ns, part);
        if video_fragment(number, origin_ns, part) is Ok {
            written + video_fragments_written(packets, origin_ns, end, number)
        } else {
            written
        }
    }
}

fn fragment_end(packets: &[&EncodedReplayPacket], start: usize) -> (end: usize)
    requires
        start < packets@.len(),
    ensures
        end == next_boundary(packet_views(packets@), start as int, start + 1),
        start < end <= packets@.len(),
{
    let ghost views = packet_views(packets@);
    assert(start < packets.len());
    let mut end: usize = start + 1;
    while end < packets.len()
        invariant
            start < end <= packets@.len(),
            views == packet_views(packets@),
            next_boundary(views, start as int, end as int) == next_boundary(
                views,
                start as int,
                start + 1,
            ),
        ensures
            start < end <= packets@.len(),
            end == next_boundary(views, start as int, start + 1),
        decreases packets@.len() - end,
    {
        proof {
            assert(views[end as int] == packets@[end as int]@);
            assert(views[start as int] == packets@[start as int]@);
        }
        let elapsed: u64 = packets[end].timestamp_ns().saturating_sub(packets[start].timestamp_ns());
        if packets[end].is_keyframe() || elapsed >= MAX_FRAGMENT_DURATION_NS {
            break;
        }
        end = end + 1;
    }
    end
}

fn write_video_fragments(
    output: &mut Vec<u8>,
    packets: &[&EncodedReplayPacket],
    origin_ns: u64,
) -> (result: Result<u32, Mp4VideoError>)
    ensures
        final(output)@ == old(output)@ + video_fragments_written(
            packet_views(packets@),
            origin_ns,
            0,
            0,
        ),
        match result {
            Ok(last) => video_fragments(packet_views(packets@), origin_ns, 0, 0) matches Ok(all)
                && final(output)@ == old(output)@ + all.0 && last == all.1,
            Err(error) => video_fragments(packet_views(packets@), origin_ns, 0, 0) == Err::<
                (Seq<u8>, u32),
                Mp4VideoError,
            >(error),
        },
{
    let ghost views = packet_views(packets@);
    let ghost all = video_fragments(views, origin_ns, 0, 0);
    let ghost written = video_fragments_written(views, origin_ns, 0, 0);
    let mut fragments: u32 = 0;
    let mut start: usize = 0;
    let ghost mut done = Seq::<u8>::empty();
    proof {
        assert(output@ =~= old(output)@ + done);
        assert(done + written =~= written);
        if let Ok(rest) = all {
            assert(done + rest.0 =~= rest.0);
        }
    }
    while start < packets.len()
        invariant
            start <= packets@.len(),
            views == packet_views(packets@),
            all == video_fragments(views, origin_ns, 0, 0),
            written == video_fragments_written(views, origin_ns, 0, 0),
            written == done + video_fragments_written(views, origin_ns, start as int, fragments),
            output@ == old(output)@ + done,
            match video_fragments(views, origin_ns, start as int, fragments) {
                Ok(rest) => all == Ok::<(Seq<u8>, u32), Mp4VideoError>((done + rest.0, rest.1)),
                Err(error) => all == Err::<(Seq<u8>, u32), Mp4VideoError>(error),
            },
        decreases packets@.len() - start,
    {
        let end: usize = fragment_end(packets, start);
        let part = vstd::slice::slice_subrange(packets, start, end);
        assert(packet_views(part@) =~= views.subrange(start as int, end as int));
        let ghost rest = video_fragments(views, origin_ns, start as int, fragments);
        let ghost before = done;
        fragments = fragments.saturating_add(1);
        match write_fragment(output, fragments, origin_ns, part) {
            Err(error) => {
                assert(output@ =~= old(output)@ + written);
                return Err(error);
            },
            Ok(()) => {},
        }
        proof {
            let fragment = video_fragment(
                fragments,
                origin_ns,
                views.subrange(start as int, end as int),
            )->Ok_0;
            done = before + fragment;
            assert(output@ =~= old(output)@ + done);
            assert(written =~= done + video_fragments_written(
                views,
                origin_ns,
                end as int,
                fragments,
            ));
            if let Ok(later) = video_fragments(views, origin_ns, end as int, fragments) {
                assert(before + (fragment + later.0) =~= done + later.0);
            }
        }
        start = end;
    }
    proof {
        assert(done + Seq::<u8>::empty() =~= done);
    }
    Ok(fragments)
}

/// Whether some packet of a history is not a run of length-prefixed units.
pub open spec fn has_invalid_packet(packets: Seq<PacketView>) -> bool {
    exists|i: int|
        0 <= i < packets.len() && !replay_media::is_length_prefixed((#[trigger] packets[i]).bytes)
}

/// The reason to refuse a history before anything is written.
pub open spec fn history_fault(stream: ReplayVideoStream, packets: Seq<PacketView>) -> Option<
    Mp4VideoError,
> {
    if stream.codec != ReplayVideoCodec::H264 {
        Some(Mp4VideoError::UnsupportedCodec)
    } else if packets.len() == 0 {
        Some(Mp4VideoError::EmptyRing)
    } else if !packets[0].keyframe {
        Some(Mp4VideoError::MissingInitialKeyframe)
    } else if has_invalid_packet(packets) {
        Some(Mp4VideoError::InvalidPacket)
    } else {
        None
    }
}

/// The container of a history with video only, and its number of fragments.
pub open spec fn video_container(stream: ReplayVideoStream, packets: Seq<PacketView>) -> Result<
    (Seq<u8>, u32),
    Mp4VideoError,
> {
    match history_fault(stream, packets) {
        Some(error) => Err(error),
        None => if !dimensions_fit(stream) || video_movie(stream).len() > u32::MAX {
            Err(Mp4VideoError::ContainerTooLarge)
        } else {
            match video_fragments(packets, packets[0].timestamp_ns, 0, 0) {
                Err(error) => Err(error),
                Ok((fragments, count)) => Ok(
                    (file_type() + video_movie(stream) + fragments, count),
                ),
            }
        },
    }
}

/// What is written of the container of a history, up to where it fails. A
/// history that is refused leaves nothing.
pub open spec fn video_written(stream: ReplayVideoStream, packets: Seq<PacketView>) -> Seq<u8> {
    if history_fault(stream, packets) is Some {
        Seq::empty()
    } else if !dimensions_fit(stream) || video_movie(stream).len() > u32::MAX {
        file_type()
    } else {
        file_type() + video_movie(stream) + video_fragments_written(
            packets,
            packets[0].timestamp_ns,
            0,
            0,
        )
    }
}

fn check_history(stream: &ReplayVideoStream, packets: &[&EncodedReplayPacket]) -> (result: Result<
    (),
    Mp4VideoError,
>)
    ensures
        match result {
            Ok(()) => history_fault(*stream, packet_views(packets@)) is None,
            Err(error) => history_fault(*stream, packet_views(packets@)) == Some(error),
        },
{
    let ghost views = packet_views(packets@);
    if stream.codec != ReplayVideoCodec::H264 {
        return Err(Mp4VideoError::UnsupportedCodec);
    }
    if packets.len() == 0 {
        return Err(Mp4VideoError::EmptyRing);
    }
    assert(views[0] == packets@[0]@);
    if !packets[0].is_keyframe() {
        return Err(Mp4VideoError::MissingInitialKeyframe);
    }
    let mut index: usize = 0;
    while index < packets.len()
        invariant
            index <= packets@.len(),
            views == packet_views(packets@),
            stream.codec == ReplayVideoCodec::H264,
            views.len() > 0 && views[0].keyframe,
            forall|i: int|
                0 <= i < index ==> replay_media::is_length_prefixed((#[trigger] views[i]).bytes),
        decreases packets@.len() - index,
    {
        assert(views[index as int] == packets@[index as int]@);
        if !validate_packet(packets[index].bytes()) {
            assert(has_invalid_packet(views));
            return Err(Mp4VideoError::InvalidPacket);
        }
        index = index + 1;
    }
    Ok(())
}

/// Writes one seek-free fragmented MP4 of a history.
///
/// What was written before a failure stays behind what `destination` held;
/// a history that is refused leaves nothing there.
pub fn write_video_only_mp4(
    destination: &mut Vec<u8>,
    stream: &ReplayVideoStream,
    ring: &ReplayRing,
) -> (result: Result<Mp4VideoSummary, Mp4VideoError>)
    requires
        ring.wf(),
    ensures
        final(destination)@ == old(destination)@ + video_written(*stream, ring.history()),
        history_fault(*stream, ring.history()) is Some ==> final(destination)@ == old(
            destination,
        )@,
        match result {
            Ok(summary) => {
                &&& video_container(*stream, ring.history()) matches Ok((container, fragments))
                &&& final(destination)@ == old(destination)@ + container
                &&& summary.packets == ring.history().len()
                &&& summary.fragments == fragments
                &&& summary.duration_ns == replay_ring::span_ns(ring.history())
                &&& summary.bytes_written == container.len()
            },
            Err(error) => video_container(*stream, ring.history()) == Err::<
                (Seq<u8>, u32),
                Mp4VideoError,
            >(error),
        },
{
    let packets = ring.packets();
    let ghost views = ring.history();
    assert(packet_views(packets@) =~= views);
    if let Err(error) = check_history(stream, packets.as_slice()) {
        return Err(error);
    }
    let start: usize = destination.len();
    match ftyp() {
        Err(error) => {
            return Err(error);
        },
        Ok(bytes) => destination.extend_from_slice(bytes.as_slice()),
    }
    match moov(stream) {
        Err(error) => {
            return Err(error);
        },
        Ok(bytes) => destination.extend_from_slice(bytes.as_slice()),
    }
    assert(destination@ =~= old(destination)@ + (file_type() + video_movie(*stream)));
    let origin: u64 = packets[0].timestamp_ns();
    assert(views[0] == packets@[0]@);
    let fragments: u32 = match write_video_fragments(destination, packets.as_slice(), origin) {
        Err(error) => {
            return Err(error);
        },
        Ok(fragments) => fragments,
    };
    let last = packets[packets.len() - 1];
    proof {
        let container = video_container(*stream, views)->Ok_0.0;
        assert(destination@ =~= old(destination)@ + container);
        assert(views[views.len() - 1] == last@);
        assert(replay_ring::packet_error(views[views.len() - 1]) is None);
        assert(views.len() > 1 ==> views[0].timestamp_ns < views[views.len() - 1].timestamp_ns);
    }
    Ok(
        Mp4VideoSummary {
            packets: packets.len() as u32,
            fragments,
            duration_ns: last.timestamp_ns() + last.duration_ns() - origin,
            bytes_written: (destination.len() - start) as u64,
        },
    )
}

fn opus_sample_entry(audio: &ReplayAudioSnapshot) -> (result: Result<Vec<u8>, Mp4VideoError>)
    ensures
        result matches Ok(value) && value@ == opus_entry(*audio) && value@.len() == 47,
{
    let mut dops: Vec<u8> = Vec::new();
    dops.push(0);
    dops.push(audio.stream.channels);
    assert(dops@ =~= seq![0u8, audio.stream.channels]);
    wire::put_u16(&mut dops, 312);
    wire::put_u32(&mut dops, audio.stream.sample_rate);
    wire::put_zeros(&mut dops, 3);
    let mut value: Vec<u8> = Vec::new();
    wire::put_zeros(&mut value, 6);
    assert(value@ =~= wire::zeros(6));
    wire::put_u16(&mut value, 1);
    wire::put_zeros(&mut value, 8);
    wire::put_u16(&mut value, audio.stream.channels as u16);
    wire::put_u16(&mut value, 16);
    wire::put_zeros(&mut value, 4);
    wire::put_u32(&mut value, to_fixed_point(audio.stream.sample_rate));
    match push_box(&mut value, DOPS, dops.as_slice()) {
        Err(error) => Err(error),
        Ok(()) => Ok(value),
    }
}

fn audio_minf(audio: &ReplayAudioSnapshot) -> (result: Result<Vec<u8>, Mp4VideoError>)
    ensures
        result matches Ok(value) && value@ == audio_information(*audio) && value@.len() < 1000,
{
    reveal(audio_information);
    let mut value = match make_box(SMHD, empty_table(4).as_slice()) {
        Err(error) => {
            return Err(error);
        },
        Ok(value) => value,
    };
    let dinf = match dinf() {
        Err(error) => {
            return Err(error);
        },
        Ok(dinf) => dinf,
    };
    if let Err(error) = push_box(&mut value, DINF, dinf.as_slice()) {
        return Err(error);
    }
    let entry = match opus_sample_entry(audio) {
        Err(error) => {
            return Err(error);
        },
        Ok(entry) => entry,
    };
    let table = match stbl(OPUS, entry.as_slice()) {
        Err(error) => {
            return Err(error);
        },
        Ok(table) => table,
    };
    match push_box(&mut value, STBL, table.as_slice()) {
        Err(error) => Err(error),
        Ok(()) => Ok(value),
    }
}

fn audio_tkhd() -> (result: Vec<u8>)
    ensures
        result@ == audio_track_header(),
        result@.len() == 80,
{
    let mut value = full_box(0, 7);
    wire::put_zeros(&mut value, 8);
    wire::put_u32(&mut value, AUDIO_TRACK_ID);
    wire::put_zeros(&mut value, 16);
    wire::put_u16(&mut value, 0x0100);
    wire::put_zeros(&mut value, 2);
    put_matrix(&mut value);
    wire::put_zeros(&mut value, 8);
    value
}

fn audio_mdia(audio: &ReplayAudioSnapshot) -> (result: Result<Vec<u8>, Mp4VideoError>)
    ensures
        result matches Ok(value) && value@ == audio_media(*audio) && value@.len() < 1500,
{
    reveal(audio_media);
    proof {
        lemma_handler_names();
    }
    let mut value = match make_box(MDHD, mdhd(audio.stream.sample_rate).as_slice()) {
        Err(error) => {
            return Err(error);
        },
        Ok(value) => value,
    };
    if let Err(error) = push_box(&mut value, HDLR, hdlr(SOUN, AUDIO_HANDLER).as_slice()) {
        return Err(error);
    }
    let information = match audio_minf(audio) {
        Err(error) => {
            return Err(error);
        },
        Ok(information) => information,
    };
    match push_box(&mut value, MINF, information.as_slice()) {
        Err(error) => Err(error),
        Ok(()) => Ok(value),
    }
}

fn audio_trak(audio: &ReplayAudioSnapshot) -> (result: Result<Vec<u8>, Mp4VideoError>)
    ensures
        result matches Ok(value) && value@ == audio_track(*audio) && value@.len() < 2000,
{
    reveal(audio_track);
    let mut contents = match make_box(TKHD, audio_tkhd().as_slice()) {
        Err(error) => {
            return Err(error);
        },
        Ok(contents) => contents,
    };
    let media = match audio_mdia(audio) {
        Err(error) => {
            return Err(error);
        },
        Ok(media) => media,
    };
    match push_box(&mut contents, MDIA, media.as_slice()) {
        Err(error) => Err(error),
        Ok(()) => Ok(contents),
    }
}

fn moov_with_audio(stream: &ReplayVideoStream, audio: &ReplayAudioSnapshot) -> (result: Result<
    Vec<u8>,
    Mp4VideoError,
>)
    ensures
        match result {
            Ok(value) => dimensions_fit(*stream) && value@ == audio_video_movie(*stream, *audio)
                && value@.len() <= u32::MAX,
            Err(error) => error == Mp4VideoError::ContainerTooLarge && (!dimensions_fit(*stream)
                || audio_video_movie(*stream, *audio).len() > u32::MAX),
        },
{
    reveal(audio_video_movie);
    let mut contents = match make_box(MVHD, mvhd_for_next_track(3).as_slice()) {
        Err(error) => {
            return Err(error);
        },
        Ok(contents) => contents,
    };
    let track = match trak(stream) {
        Err(error) => {
            return Err(error);
        },
        Ok(track) => track,
    };
    if let Err(error) = push_box(&mut contents, TRAK, track.as_slice()) {
        return Err(error);
    }
    let audio_track = match audio_trak(audio) {
        Err(error) => {
            return Err(error);
        },
        Ok(track) => track,
    };
    if let Err(error) = push_box(&mut contents, TRAK, audio_track.as_slice()) {
        return Err(error);
    }
    let mut mvex = match make_box(TREX, trex_for(TRACK_ID).as_slice()) {
        Err(error) => {
            return Err(error);
        },
        Ok(mvex) => mvex,
    };
    if let Err(error) = push_box(&mut mvex, TREX, trex_for(AUDIO_TRACK_ID).as_slice()) {
        return Err(error);
    }
    if let Err(error) = push_box(&mut contents, MVEX, mvex.as_slice()) {
        return Err(error);
    }
    make_box(MOOV, contents.as_slice())
}

/// The run entries of the first `count` Opus packets.
pub open spec fn opus_entries(packets: Seq<OpusPacketView>, count: int) -> Seq<u8>
    decreases count,
{
    if count <= 0 {
        Seq::empty()
    } else {
        opus_entries(packets, count - 1) + wire::be32(AUDIO_PACKET_SAMPLES) + wire::be32(
            packets[count - 1].bytes.len() as u32,
        )
    }
}

/// The header of an audio fragment.
#[verifier::opaque]
pub open spec fn audio_header(
    sequence: u32,
    base_time: u64,
    packets: Seq<OpusPacketView>,
    data_offset: u32,
) -> Seq<u8> {
    fragment_box(
        sequence,
        AUDIO_TRACK_ID,
        base_time,
        0x0301,
        packets.len() as u32,
        data_offset,
        opus_entries(packets, packets.len() as int),
    )
}

/// The payloads of Opus packets, one after the other.
pub open spec fn opus_payload(packets: Seq<OpusPacketView>) -> Seq<u8>
    decreases packets.len(),
{
    if packets.len() == 0 {
        Seq::empty()
    } else {
        opus_payload(packets.drop_last()) + packets.last().bytes
    }
}

/// One audio fragment.
#[verifier::opaque]
pub open spec fn audio_fragment(sequence: u32, origin_ns: u64, packets: Seq<OpusPacketView>) -> Result<
    Seq<u8>,
    Mp4VideoError,
> {
    let samples = (packets[0].timestamp_ns - origin_ns) * AUDIO_TIMESCALE;
    if samples < 0 || samples > u64::MAX {
        Err(Mp4VideoError::TimestampOverflow)
    } else {
        let base_time = (samples / NANOSECONDS as int) as u64;
        let length = audio_header(sequence, base_time, packets, 0).len();
        Ok(
            audio_header(sequence, base_time, packets, (length + 8) as u32) + boxed(
                MDAT,
                opus_payload(packets),
            ),
        )
    }
}

/// Whether an Opus packet can stand in a container.
pub open spec fn opus_packet_fits(packet: OpusPacketView) -> bool {
    0 < packet.bytes.len() <= MAX_AUDIO_PACKET_BYTES
}

pub open spec fn all_opus_fit(packets: Seq<OpusPacketView>) -> bool {
    forall|i: int| 0 <= i < packets.len() ==> opus_packet_fits(#[trigger] packets[i])
}

/// The run entries of Opus packets have a fixed length.
pub proof fn lemma_opus_entries_length(packets: Seq<OpusPacketView>, count: int)
    requires
        0 <= count,
    ensures
        opus_entries(packets, count).len() == 8 * count,
    decreases count,
{
    if count > 0 {
        lemma_opus_entries_length(packets, count - 1);
    }
}

proof fn lemma_opus_payload_step(packets: Seq<OpusPacketView>, index: int)
    requires
        0 <= index < packets.len(),
    ensures
        opus_payload(packets.take(index + 1)) == opus_payload(packets.take(index))
            + packets[index].bytes,
{
    assert(packets.take(index + 1).drop_last() =~= packets.take(index));
}

fn audio_moof(
    sequence: u32,
    base_time: u64,
    packets: &[&EncodedOpusPacket],
    data_offset: u32,
) -> (result: Result<Vec<u8>, Mp4VideoError>)
    requires
        packets@.len() <= AUDIO_FRAGMENT_PACKETS,
        all_opus_fit(borrowed_opus(packets@)),
    ensures
        result matches Ok(value) && value@ == audio_header(
            sequence,
            base_time,
            borrowed_opus(packets@),
            data_offset,
        ) && value@.len() < 20_000,
{
    reveal(audio_header);
    reveal(fragment_box);
    let ghost views = borrowed_opus(packets@);
    let mut run = full_box(0, 0x0301);
    wire::put_u32(&mut run, packets.len() as u32);
    wire::put_u32(&mut run, data_offset);
    let ghost start = run@;
    let mut index: usize = 0;
    assert(run@ =~= start + opus_entries(views, 0));
    while index < packets.len()
        invariant
            index <= packets@.len(),
            views == borrowed_opus(packets@),
            all_opus_fit(views),
            run@ == start + opus_entries(views, index as int),
        decreases packets@.len() - index,
    {
        let ghost before = opus_entries(views, index as int);
        assert(views[index as int] == packets@[index as int]@);
        assert(opus_packet_fits(views[index as int]));
        wire::put_u32(&mut run, AUDIO_PACKET_SAMPLES);
        wire::put_u32(&mut run, packets[index].bytes.len() as u32);
        assert(run@ =~= start + opus_entries(views, index + 1));
        index = index + 1;
    }
    proof {
        lemma_opus_entries_length(views, views.len() as int);
    }
    header_box(sequence, AUDIO_TRACK_ID, base_time, run.as_slice())
}

fn write_audio_fragment(
    output: &mut Vec<u8>,
    sequence: u32,
    origin_ns: u64,
    packets: &[&EncodedOpusPacket],
) -> (result: Result<(), Mp4VideoError>)
    requires
        0 < packets@.len() <= AUDIO_FRAGMENT_PACKETS,
        all_opus_fit(borrowed_opus(packets@)),
    ensures
        result is Err ==> final(output)@ == old(output)@,
        match result {
            Ok(()) => audio_fragment(sequence, origin_ns, borrowed_opus(packets@)) matches Ok(bytes)
                && final(output)@ == old(output)@ + bytes,
            Err(error) => audio_fragment(sequence, origin_ns, borrowed_opus(packets@)) == Err::<
                Seq<u8>,
                Mp4VideoError,
            >(error),
        },
{
    reveal(audio_fragment);
    let ghost views = borrowed_opus(packets@);
    assert(views[0] == packets@[0]@);
    let first: u64 = packets[0].timestamp_ns;
    if first < origin_ns {
        assert((first - origin_ns) * AUDIO_TIMESCALE < 0);
        return Err(Mp4VideoError::TimestampOverflow);
    }
    let base_time: u64 = match (first - origin_ns).checked_mul(AUDIO_TIMESCALE) {
        None => {
            return Err(Mp4VideoError::TimestampOverflow);
        },
        Some(samples) => samples / NANOSECONDS,
    };
    let provisional = match audio_moof(sequence, base_time, packets, 0) {
        Err(error) => {
            return Err(error);
        },
        Ok(provisional) => provisional,
    };
    let offset: u32 = match media_offset(provisional.len()) {
        Err(error) => {
            return Err(error);
        },
        Ok(offset) => offset,
    };
    let header = match audio_moof(sequence, base_time, packets, offset) {
        Err(error) => {
            return Err(error);
        },
        Ok(header) => header,
    };
    let ghost before = output@;
    output.extend_from_slice(header.as_slice());
    assert(output@ =~= before + header@);
    let mut size: u64 = 0;
    let mut index: usize = 0;
    assert(views.take(0) =~= Seq::<OpusPacketView>::empty());
    while index < packets.len()
        invariant
            index <= packets@.len() <= AUDIO_FRAGMENT_PACKETS,
            views == borrowed_opus(packets@),
            all_opus_fit(views),
            size == opus_payload(views.take(index as int)).len(),
            size <= index * MAX_AUDIO_PACKET_BYTES,
        decreases packets@.len() - index,
    {
        proof {
            assert(views[index as int] == packets@[index as int]@);
            assert(opus_packet_fits(views[index as int]));
            lemma_opus_payload_step(views, index as int);
        }
        size = size + packets[index].bytes.len() as u64;
        index = index + 1;
    }
    assert(views.take(index as int) =~= views);
    if let Err(error) = write_box_header(output, MDAT, size) {
        return Err(error);
    }
    let ghost headed = output@;
    let mut written: usize = 0;
    assert(output@ =~= headed + opus_payload(views.take(0)));
    while written < packets.len()
        invariant
            written <= packets@.len(),
            views == borrowed_opus(packets@),
            output@ == headed + opus_payload(views.take(written as int)),
        decreases packets@.len() - written,
    {
        proof {
            assert(views[written as int] == packets@[written as int]@);
            lemma_opus_payload_step(views, written as int);
        }
        let ghost so_far = opus_payload(views.take(written as int));
        output.extend_from_slice(packets[written].bytes.as_slice());
        assert(output@ =~= headed + (so_far + views[written as int].bytes));
        written = written + 1;
    }
    assert(views.take(written as int) =~= views);
    assert(output@ =~= before + (header@ + boxed(MDAT, opus_payload(views))));
    Ok(())
}

/// The fragments of the Opus packets from `start` on.
pub open spec fn audio_fragments(
    packets: Seq<OpusPacketView>,
    origin_ns: u64,
    start: int,
    sequence: u32,
) -> Result<(Seq<u8>, u32), Mp4VideoError>
    decreases packets.len() - start,
{
    if start < 0 || start >= packets.len() {
        Ok((Seq::empty(), sequence))
    } else {
        let end = if start + AUDIO_FRAGMENT_PACKETS < packets.len() {
            start + AUDIO_FRAGMENT_PACKETS
        } else {
            packets.len() as int
        };
        match audio_fragment(next_sequence(sequence), origin_ns, packets.subrange(start, end)) {
            Err(error) => Err(error),
            Ok(fragment) => match audio_fragments(packets, origin_ns, end, next_sequence(sequence)) {
                Err(error) => Err(error),
                Ok((rest, last)) => Ok((fragment + rest, last)),
            },
        }
    }
}

/// What is written of the audio fragments from `start` on, up to the first
/// that fails.
pub open spec fn audio_fragments_written(
    packets: Seq<OpusPacketView>,
    origin_ns: u64,
    start: int,
    sequence: u32,
) -> Seq<u8>
    decreases packets.len() - start,
{
    if start < 0 || start >= packets.len() {
        Seq::empty()
    } else {
        let end = if start + AUDIO_FRAGMENT_PACKETS < packets.len() {
            start + AUDIO_FRAGMENT_PACKETS
        } else {
            packets.len() as int
        };
        let number = next_sequence(sequence);
        match audio_fragment(number, origin_ns, packets.subrange(start, end)) {
            Err(_) => Seq::empty(),
            Ok(fragment) => fragment + audio_fragments_written(packets, origin_ns, end, number),
        }
    }
}

fn write_audio_fragments(
    output: &mut Vec<u8>,
    packets: &[&EncodedOpusPacket],
    origin_ns: u64,
    sequence: u32,
) -> (result: Result<u32, Mp4VideoError>)
    requires
        all_opus_fit(borrowed_opus(packets@)),
    ensures
        final(output)@ == old(output)@ + audio_fragments_written(
            borrowed_opus(packets@),
            origin_ns,
            0,
            sequence,
        ),
        match result {
            Ok(last) => audio_fragments(borrowed_opus(packets@), origin_ns, 0, sequence) matches Ok(all)
                && final(output)@ == old(output)@ + all.0 && last == all.1,
            Err(error) => audio_fragments(borrowed_opus(packets@), origin_ns, 0, sequence)
                == Err::<(Seq<u8>, u32), Mp4VideoError>(error),
        },
{
    let ghost views = borrowed_opus(packets@);
    let ghost all = audio_fragments(views, origin_ns, 0, sequence);
    let ghost written = audio_fragments_written(views, origin_ns, 0, sequence);
    let mut fragments: u32 = sequence;
    let mut start: usize = 0;
    let ghost mut done = Seq::<u8>::empty();
    proof {
        assert(output@ =~= old(output)@ + done);
        assert(done + written =~= written);
        if let Ok(rest) = all {
            assert(done + rest.0 =~= rest.0);
        }
    }
    while start < packets.len()
        invariant
            start <= packets@.len(),
            views == borrowed_opus(packets@),
            all_opus_fit(views),
            all == audio_fragments(views, origin_ns, 0, sequence),
            written == audio_fragments_written(views, origin_ns, 0, sequence),
            written == done + audio_fragments_written(views, origin_ns, start as int, fragments),
            output@ == old(output)@ + done,
            match audio_fragments(views, origin_ns, start as int, fragments) {
                Ok(rest) => all == Ok::<(Seq<u8>, u32), Mp4VideoError>((done + rest.0, rest.1)),
                Err(error) => all == Err::<(Seq<u8>, u32), Mp4VideoError>(error),
            },
        decreases packets@.len() - start,
    {
        let end: usize = if packets.len() - start > AUDIO_FRAGMENT_PACKETS {
            start + AUDIO_FRAGMENT_PACKETS
        } else {
            packets.len()
        };
        let part = vstd::slice::slice_subrange(packets, start, end);
        proof {
            assert(borrowed_opus(part@) =~= views.subrange(start as int, end as int));
            assert forall|i: int| 0 <= i < end - start implies opus_packet_fits(
                #[trigger] borrowed_opus(part@)[i],
            ) by {
                assert(opus_packet_fits(views[start + i]));
            }
        }
        let ghost before = done;
        fragments = fragments.saturating_add(1);
        match write_audio_fragment(output, fragments, origin_ns, part) {
            Err(error) => {
                assert(output@ =~= old(output)@ + written);
                return Err(error);
            },
            Ok(()) => {},
        }
        proof {
            let fragment = audio_fragment(
                fragments,
                origin_ns,
                views.subrange(start as int, end as int),
            )->Ok_0;
            done = before + fragment;
            assert(output@ =~= old(output)@ + done);
            assert(written =~= done + audio_fragments_written(
                views,
                origin_ns,
                end as int,
                fragments,
            ));
            if let Ok(later) = audio_fragments(views, origin_ns, end as int, fragments) {
                assert(before + (fragment + later.0) =~= done + later.0);
            }
        }
        start = end;
    }
    proof {
        assert(done + Seq::<u8>::empty() =~= done);
    }
    Ok(fragments)
}

/// The Opus packets among the first `count` that start within the video.
pub open spec fn audible(
    packets: Seq<OpusPacketView>,
    count: int,
    origin_ns: int,
    end_ns: int,
) -> Seq<OpusPacketView>
    decreases count,
{
    if count <= 0 {
        Seq::empty()
    } else {
        let packet = packets[count - 1];
        let before = audible(packets, count - 1, origin_ns, end_ns);
        if origin_ns <= packet.timestamp_ns < end_ns {
            before.push(packet)
        } else {
            before
        }
    }
}

/// The Opus packets that belong to a nonempty history.
pub open spec fn history_audio(
    packets: Seq<PacketView>,
    audio: Seq<OpusPacketView>,
) -> Seq<OpusPacketView> {
    audible(
        audio,
        audio.len() as int,
        packets[0].timestamp_ns as int,
        packets.last().timestamp_ns + packets.last().duration_ns,
    )
}

/// The container of a history with its audio, and its number of fragments.
pub open spec fn audio_video_container(
    stream: ReplayVideoStream,
    packets: Seq<PacketView>,
    audio: ReplayAudioSnapshot,
) -> Result<(Seq<u8>, u32), Mp4VideoError> {
    match history_fault(stream, packets) {
        Some(error) => Err(error),
        None => {
            let heard = history_audio(packets, replay_media::opus_views(audio.packets@));
            if !all_opus_fit(heard) {
                Err(Mp4VideoError::InvalidPacket)
            } else if !dimensions_fit(stream) || audio_video_movie(stream, audio).len() > u32::MAX {
                Err(Mp4VideoError::ContainerTooLarge)
            } else {
                match video_fragments(packets, packets[0].timestamp_ns, 0, 0) {
                    Err(error) => Err(error),
                    Ok((video, count)) => match audio_fragments(
                        heard,
                        packets[0].timestamp_ns,
                        0,
                        count,
                    ) {
                        Err(error) => Err(error),
                        Ok((sound, last)) => Ok(
                            (file_type() + audio_video_movie(stream, audio) + video + sound, last),
                        ),
                    },
                }
            }
        },
    }
}

/// The reason to refuse a history or its audio before anything is written.
pub open spec fn audio_history_fault(
    stream: ReplayVideoStream,
    packets: Seq<PacketView>,
    audio: ReplayAudioSnapshot,
) -> Option<Mp4VideoError> {
    match history_fault(stream, packets) {
        Some(error) => Some(error),
        None => if !all_opus_fit(
            history_audio(packets, replay_media::opus_views(audio.packets@)),
        ) {
            Some(Mp4VideoError::InvalidPacket)
        } else {
            None
        },
    }
}

/// What is written of the container of a history with its audio, up to where
/// it fails. A history or an audio packet that is refused leaves nothing.
pub open spec fn audio_video_written(
    stream: ReplayVideoStream,
    packets: Seq<PacketView>,
    audio: ReplayAudioSnapshot,
) -> Seq<u8> {
    if audio_history_fault(stream, packets, audio) is Some {
        Seq::empty()
    } else if !dimensions_fit(stream) || audio_video_movie(stream, audio).len() > u32::MAX {
        file_type()
    } else {
        let origin_ns = packets[0].timestamp_ns;
        let heard = history_audio(packets, replay_media::opus_views(audio.packets@));
        let front = file_type() + audio_video_movie(stream, audio) + video_fragments_written(
            packets,
            origin_ns,
            0,
            0,
        );
        match video_fragments(packets, origin_ns, 0, 0) {
            Err(_) => front,
            Ok((_, count)) => front + audio_fragments_written(heard, origin_ns, 0, count),
        }
    }
}

fn select_audio<'a>(audio: &'a ReplayAudioSnapshot, origin_ns: u64, end_ns: u64) -> (result: Vec<
    &'a EncodedOpusPacket,
>)
    ensures
        borrowed_opus(result@) == audible(
            replay_media::opus_views(audio.packets@),
            audio.packets@.len() as int,
            origin_ns as int,
            end_ns as int,
        ),
{
    let ghost views = replay_media::opus_views(audio.packets@);
    let mut result: Vec<&'a EncodedOpusPacket> = Vec::new();
    let mut index: usize = 0;
    assert(borrowed_opus(result@) =~= Seq::<OpusPacketView>::empty());
    while index < audio.packets.len()
        invariant
            index <= audio.packets@.len(),
            views == replay_media::opus_views(audio.packets@),
            borrowed_opus(result@) == audible(
                views,
                index as int,
                origin_ns as int,
                end_ns as int,
            ),
        decreases audio.packets@.len() - index,
    {
        let packet = &audio.packets[index];
        assert(views[index as int] == packet@);
        if packet.timestamp_ns >= origin_ns && packet.timestamp_ns < end_ns {
            let ghost before = borrowed_opus(result@);
            result.push(packet);
            assert(borrowed_opus(result@) =~= before.push(packet@));
        }
        index = index + 1;
    }
    result
}

fn check_audio(packets: &[&EncodedOpusPacket]) -> (result: bool)
    ensures
        result == all_opus_fit(borrowed_opus(packets@)),
{
    let ghost views = borrowed_opus(packets@);
    let mut index: usize = 0;
    while index < packets.len()
        invariant
            index <= packets@.len(),
            views == borrowed_opus(packets@),
            forall|i: int| 0 <= i < index ==> opus_packet_fits(#[trigger] views[i]),
        decreases packets@.len() - index,
    {
        assert(views[index as int] == packets@[index as int]@);
        if packets[index].bytes.len() == 0 || packets[index].bytes.len() > MAX_AUDIO_PACKET_BYTES {
            assert(!opus_packet_fits(views[index as int]));
            return false;
        }
        index = index + 1;
    }
    true
}

/// Writes one fragmented MP4 of a history with the audio that belongs to it.
///
/// What was written before a failure stays behind what `destination` held;
/// a history or an audio packet that is refused leaves nothing there.
pub fn write_audio_video_mp4(
    destination: &mut Vec<u8>,
    stream: &ReplayVideoStream,
    ring: &ReplayRing,
    audio: &ReplayAudioSnapshot,
) -> (result: Result<Mp4VideoSummary, Mp4VideoError>)
    requires
        ring.wf(),
    ensures
        final(destination)@ == old(destination)@ + audio_video_written(
            *stream,
            ring.history(),
            *audio,
        ),
        audio_history_fault(*stream, ring.history(), *audio) is Some ==> final(destination)@
            == old(destination)@,
        match result {
            Ok(summary) => {
                &&& audio_video_container(*stream, ring.history(), *audio) matches Ok(
                    (container, fragments),
                )
                &&& final(destination)@ == old(destination)@ + container
                &&& summary.packets == ring.history().len()
                &&& summary.fragments == fragments
                &&& summary.duration_ns == replay_ring::span_ns(ring.history())
                &&& summary.bytes_written == container.len()
            },
            Err(error) => audio_video_container(*stream, ring.history(), *audio) == Err::<
                (Seq<u8>, u32),
                Mp4VideoError,
            >(error),
        },
{
    let packets = ring.packets();
    let ghost views = ring.history();
    assert(packet_views(packets@) =~= views);
    if let Err(error) = check_history(stream, packets.as_slice()) {
        return Err(error);
    }
    let origin: u64 = packets[0].timestamp_ns();
    let last = packets[packets.len() - 1];
    proof {
        assert(views[0] == packets@[0]@);
        assert(views[views.len() - 1] == last@);
        assert(replay_ring::packet_error(views[views.len() - 1]) is None);
        assert(views.len() > 1 ==> views[0].timestamp_ns < views[views.len() - 1].timestamp_ns);
    }
    let video_end: u64 = last.timestamp_ns() + last.duration_ns();
    let heard = select_audio(audio, origin, video_end);
    if !check_audio(heard.as_slice()) {
        return Err(Mp4VideoError::InvalidPacket);
    }
    let start: usize = destination.len();
    match ftyp() {
        Err(error) => {
            return Err(error);
        },
        Ok(bytes) => destination.extend_from_slice(bytes.as_slice()),
    }
    match moov_with_audio(stream, audio) {
        Err(error) => {
            return Err(error);
        },
        Ok(bytes) => destination.extend_from_slice(bytes.as_slice()),
    }
    assert(destination@ =~= old(destination)@ + (file_type() + audio_video_movie(*stream, *audio)));
    let video_fragments: u32 = match write_video_fragments(
        destination,
        packets.as_slice(),
        origin,
    ) {
        Err(error) => {
            return Err(error);
        },
        Ok(count) => count,
    };
    let fragments: u32 = match write_audio_fragments(
        destination,
        heard.as_slice(),
        origin,
        video_fragments,
    ) {
        Err(error) => {
            return Err(error);
        },
        Ok(count) => count,
    };
    proof {
        let container = audio_video_container(*stream, views, *audio)->Ok_0.0;
        assert(destination@ =~= old(destination)@ + container);
    }
    Ok(
        Mp4VideoSummary {
            packets: packets.len() as u32,
            fragments,
            duration_ns: video_end - origin,
            bytes_written: (destination.len() - start) as u64,
        },
    )
}

proof fn lemma_video_written_whole(
    packets: Seq<PacketView>,
    origin_ns: u64,
    start: int,
    sequence: u32,
)
    requires
        0 <= start <= packets.len(),
        video_fragments(packets, origin_ns, start, sequence) is Ok,
    ensures
        video_fragments_written(packets, origin_ns, start, sequence) == video_fragments(
            packets,
            origin_ns,
            start,
            sequence,
        )->Ok_0.0,
    decreases packets.len() - start,
{
    if start < packets.len() {
        lemma_boundary_range(packets, start, start + 1);
        lemma_video_written_whole(
            packets,
            origin_ns,
            next_boundary(packets, start, start + 1),
            next_sequence(sequence),
        );
    }
}

proof fn lemma_audio_written_whole(
    packets: Seq<OpusPacketView>,
    origin_ns: u64,
    start: int,
    sequence: u32,
)
    requires
        0 <= start <= packets.len(),
        audio_fragments(packets, origin_ns, start, sequence) is Ok,
    ensures
        audio_fragments_written(packets, origin_ns, start, sequence) == audio_fragments(
            packets,
            origin_ns,
            start,
            sequence,
        )->Ok_0.0,
    decreases packets.len() - start,
{
    if start < packets.len() {
        let end = if start + AUDIO_FRAGMENT_PACKETS < packets.len() {
            start + AUDIO_FRAGMENT_PACKETS
        } else {
            packets.len() as int
        };
        lemma_audio_written_whole(packets, origin_ns, end, next_sequence(sequence));
    }
}

/// Where a history has a container, what is written is that container.
pub proof fn containers_are_written_whole(
    stream: ReplayVideoStream,
    packets: Seq<PacketView>,
    audio: ReplayAudioSnapshot,
)
    ensures
        video_container(stream, packets) matches Ok((container, _)) ==> video_written(
            stream,
            packets,
        ) == container,
        audio_video_container(stream, packets, audio) matches Ok((container, _))
            ==> audio_video_written(stream, packets, audio) == container,
{
    if video_container(stream, packets) is Ok {
        lemma_video_written_whole(packets, packets[0].timestamp_ns, 0, 0);
    }
    if let Ok((container, last)) = audio_video_container(stream, packets, audio) {
        let origin_ns = packets[0].timestamp_ns;
        let heard = history_audio(packets, replay_media::opus_views(audio.packets@));
        lemma_video_written_whole(packets, origin_ns, 0, 0);
        lemma_audio_written_whole(
            heard,
            origin_ns,
            0,
            video_fragments(packets, origin_ns, 0, 0)->Ok_0.1,
        );
    }
}

} // verus!
