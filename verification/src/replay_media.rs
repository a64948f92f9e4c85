//! Encoded streams as the recorder and its containers see them.
use crate::wire;
use vstd::prelude::*;

verus! {

/// Video codecs of a recording.
#[derive(Clone, Copy, Debug, PartialEq, Eq, Structural)]
pub enum ReplayVideoCodec {
    H264,
    Hevc,
    Av1,
}

/// Properties of one encoded video stream.
#[derive(Clone, Debug, PartialEq, Eq)]
pub struct ReplayVideoStream {
    pub codec: ReplayVideoCodec,
    pub width: u32,
    pub height: u32,
    pub frames_per_second: u8,
    pub codec_private: Vec<u8>,
}

/// Whether bytes are a nonempty run of nonempty units, each behind its length
/// in four big-endian bytes. This is the library's own definition of the
/// packet format that it accepts.
pub open spec fn is_length_prefixed(bytes: Seq<u8>) -> bool
    decreases bytes.len(),
{
    if bytes.len() < 4 {
        false
    } else {
        let unit = wire::from_be32(bytes);
        if unit == 0 || 4 + unit > bytes.len() {
            false
        } else if 4 + unit == bytes.len() {
            true
        } else {
            is_length_prefixed(bytes.skip(4 + unit as int))
        }
    }
}

/// Whether a packet is a run of length-prefixed units, by the library's own
/// definition of the format.
pub fn validate_packet(bytes: &[u8]) -> (result: bool)
    ensures
        result == is_length_prefixed(bytes@),
{
    let mut start: usize = 0;
    assert(bytes@.skip(0) =~= bytes@);
    loop
        invariant
            start <= bytes@.len(),
            is_length_prefixed(bytes@.skip(start as int)) == is_length_prefixed(bytes@),
        decreases bytes@.len() - start,
    {
        if bytes.len() - start < 4 {
            return false;
        }
        let unit: u32 = wire::get_u32(bytes, start);
        let left: u64 = (bytes.len() - start - 4) as u64;
        if unit == 0 || unit as u64 > left {
            return false;
        }
        if unit as u64 == left {
            return true;
        }
        assert(bytes@.skip(start as int).skip(4 + unit) =~= bytes@.skip(start + 4 + unit));
        start = start + 4 + unit as usize;
    }
}

/// Properties of one Opus stream.
#[derive(Clone, Copy, Debug, PartialEq, Eq, Structural)]
pub struct OpusStreamDescription {
    pub sample_rate: u32,
    pub channels: u8,
}

/// One encoded Opus packet.
#[derive(Clone, Debug, PartialEq, Eq)]
pub struct EncodedOpusPacket {
    pub timestamp_ns: u64,
    pub duration_ns: u64,
    pub bytes: Vec<u8>,
}

/// What an [`EncodedOpusPacket`] holds.
#[verifier::ext_equal]
pub ghost struct OpusPacketView {
    pub timestamp_ns: u64,
    pub duration_ns: u64,
    pub bytes: Seq<u8>,
}

impl View for EncodedOpusPacket {
    type V = OpusPacketView;

    open spec fn view(&self) -> OpusPacketView {
        OpusPacketView {
            timestamp_ns: self.timestamp_ns,
            duration_ns: self.duration_ns,
            bytes: self.bytes@,
        }
    }
}

/// The audio that belongs to one saved history.
#[derive(Clone, Debug, PartialEq, Eq)]
pub struct ReplayAudioSnapshot {
    pub stream: OpusStreamDescription,
    pub packets: Vec<EncodedOpusPacket>,
}

/// What a list of Opus packets holds.
pub open spec fn opus_views(packets: Seq<EncodedOpusPacket>) -> Seq<OpusPacketView> {
    packets.map_values(|packet: EncodedOpusPacket| packet@)
}

} // verus!
