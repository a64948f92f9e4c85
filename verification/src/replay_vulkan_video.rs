//! The Vulkan Video backend: what it imports, and what it makes of the
//! encoder's access units.
use crate::replay_media;
use crate::replay_media::ReplayVideoStream;
use crate::replay_pipeline;
use crate::replay_pipeline::MAX_TRACKED_INPUTS;
use crate::replay_ring;
use crate::replay_ring::{EncodedReplayPacket, PacketView, ReplayPacketError};
use crate::wire;
use vstd::prelude::*;

verus! {

/// `RA24`
pub const DRM_FORMAT_R8G8B8A8: u32 = 0x3432_4152;

/// `BA24`
pub const DRM_FORMAT_B8G8R8A8: u32 = 0x3432_4142;

/// `AB30`
pub const DRM_FORMAT_A2B10G10R10: u32 = 0x3033_4241;

/// `AR30`
pub const DRM_FORMAT_A2R10G10B10: u32 = 0x3033_5241;

/// `XR24`
pub const DRM_FORMAT_XRGB8888: u32 = 0x3432_5258;

/// `AR24`
pub const DRM_FORMAT_ARGB8888: u32 = 0x3432_5241;

/// `XB24`
pub const DRM_FORMAT_XBGR8888: u32 = 0x3432_4258;

/// `AB24`
pub const DRM_FORMAT_ABGR8888: u32 = 0x3432_4241;

/// What stopped the encoder.
#[derive(Clone, Copy, Debug, PartialEq, Eq, Structural)]
pub enum VulkanVideoFault {
    FailedState,
    ShutDown,
    FrameSubmission,
    Drain,
    ShutdownDrain,
    MissingKeyframe,
}

impl VulkanVideoFault {
    /// The sentence for this fault. For an operation that the device refused
    /// it is the start, which the device's own error completes.
    pub fn message(&self) -> (result: &'static str)
        ensures
            result@ == (match *self {
                VulkanVideoFault::FailedState => "Vulkan Video encoder is in a failed state"@,
                VulkanVideoFault::ShutDown => "Vulkan Video encoder is shut down"@,
                VulkanVideoFault::FrameSubmission => "Vulkan Video frame submission failed: "@,
                VulkanVideoFault::Drain => "Vulkan Video drain failed: "@,
                VulkanVideoFault::ShutdownDrain => "Vulkan Video shutdown drain failed: "@,
                VulkanVideoFault::MissingKeyframe => "Vulkan Video did not produce an IDR for a requested keyframe"@,
            }),
    {
        match self {
            VulkanVideoFault::FailedState => "Vulkan Video encoder is in a failed state",
            VulkanVideoFault::ShutDown => "Vulkan Video encoder is shut down",
            VulkanVideoFault::FrameSubmission => "Vulkan Video frame submission failed: ",
            VulkanVideoFault::Drain => "Vulkan Video drain failed: ",
            VulkanVideoFault::ShutdownDrain => "Vulkan Video shutdown drain failed: ",
            VulkanVideoFault::MissingKeyframe => "Vulkan Video did not produce an IDR for a requested keyframe",
        }
    }
}

#[derive(Clone, Copy, Debug, PartialEq, Eq, Structural)]
pub enum ReplayEncoderError {
    InvalidDmaBufFrame,
    InvalidInputCompletion,
    /// Bytes that are no access unit.
    InvalidAccessUnit,
    Packet(ReplayPacketError),
    BackendFailed(VulkanVideoFault),
}

/// One plane of a shared image.
#[derive(Clone, Copy, Debug, PartialEq, Eq, Structural)]
pub struct DmaBufImagePlane {
    pub object_index: u32,
    pub offset: u32,
    pub stride: u32,
}

/// A captured frame without its file descriptors.
#[derive(Clone, Debug)]
pub struct DmaBufReplayFrame {
    pub width: u32,
    pub height: u32,
    pub drm_fourcc: u32,
    pub modifier: u64,
    pub timestamp_ns: u64,
    pub duration_ns: u64,
    /// How many objects hold the image.
    pub objects: usize,
    pub image_planes: Vec<DmaBufImagePlane>,
}

#[derive(Clone, Copy, Debug, PartialEq, Eq, Structural)]
pub enum VulkanPackedPixelFormat {
    Rgba8,
    Bgra8,
    A2b10g10r10,
    A2r10g10b10,
}

/// How the encoder imports a frame.
#[derive(Clone, Copy, Debug, PartialEq, Eq, Structural)]
pub enum VulkanVideoInput {
    DrmImage { plane: DmaBufImagePlane },
    Buffer { format: VulkanPackedPixelFormat, plane: DmaBufImagePlane },
}

/// Whether a format is imported as an image with a modifier.
pub open spec fn is_image_format(drm_fourcc: u32) -> bool {
    drm_fourcc == DRM_FORMAT_XRGB8888 || drm_fourcc == DRM_FORMAT_ARGB8888 || drm_fourcc
        == DRM_FORMAT_XBGR8888 || drm_fourcc == DRM_FORMAT_ABGR8888
}

/// The pixel format of a packed buffer.
pub open spec fn packed_format(drm_fourcc: u32) -> Option<VulkanPackedPixelFormat> {
    if drm_fourcc == DRM_FORMAT_R8G8B8A8 {
        Some(VulkanPackedPixelFormat::Rgba8)
    } else if drm_fourcc == DRM_FORMAT_B8G8R8A8 {
        Some(VulkanPackedPixelFormat::Bgra8)
    } else if drm_fourcc == DRM_FORMAT_A2B10G10R10 {
        Some(VulkanPackedPixelFormat::A2b10g10r10)
    } else if drm_fourcc == DRM_FORMAT_A2R10G10B10 {
        Some(VulkanPackedPixelFormat::A2r10g10b10)
    } else {
        None
    }
}

/// How a frame is imported, if it can be.
pub open spec fn frame_input(frame: DmaBufReplayFrame) -> Option<VulkanVideoInput> {
    let planes = frame.image_planes@;
    if planes.len() != 1 || frame.objects != 1 {
        None
    } else if is_image_format(frame.drm_fourcc) {
        if planes[0].object_index == 0 {
            Some(VulkanVideoInput::DrmImage { plane: planes[0] })
        } else {
            None
        }
    } else if frame.modifier != 0 {
        None
    } else {
        match packed_format(frame.drm_fourcc) {
            Some(format) => Some(VulkanVideoInput::Buffer { format, plane: planes[0] }),
            None => None,
        }
    }
}

/// Decides how the encoder imports a frame.
pub fn vulkan_frame(frame: &DmaBufReplayFrame) -> (result: Result<
    VulkanVideoInput,
    ReplayEncoderError,
>)
    ensures
        result == (match frame_input(*frame) {
            Some(input) => Ok::<VulkanVideoInput, ReplayEncoderError>(input),
            None => Err(ReplayEncoderError::InvalidDmaBufFrame),
        }),
{
    if frame.image_planes.len() != 1 || frame.objects != 1 {
        return Err(ReplayEncoderError::InvalidDmaBufFrame);
    }
    let plane = frame.image_planes[0];
    let fourcc: u32 = frame.drm_fourcc;
    if fourcc == DRM_FORMAT_XRGB8888 || fourcc == DRM_FORMAT_ARGB8888 || fourcc
        == DRM_FORMAT_XBGR8888 || fourcc == DRM_FORMAT_ABGR8888 {
        if plane.object_index != 0 {
            return Err(ReplayEncoderError::InvalidDmaBufFrame);
        }
        return Ok(VulkanVideoInput::DrmImage { plane });
    }
    let format = if fourcc == DRM_FORMAT_R8G8B8A8 {
        VulkanPackedPixelFormat::Rgba8
    } else if fourcc == DRM_FORMAT_B8G8R8A8 {
        VulkanPackedPixelFormat::Bgra8
    } else if fourcc == DRM_FORMAT_A2B10G10R10 {
        VulkanPackedPixelFormat::A2b10g10r10
    } else if fourcc == DRM_FORMAT_A2R10G10B10 {
        VulkanPackedPixelFormat::A2r10g10b10
    } else {
        return Err(ReplayEncoderError::InvalidDmaBufFrame);
    };
    if frame.modifier != 0 {
        return Err(ReplayEncoderError::InvalidDmaBufFrame);
    }
    Ok(VulkanVideoInput::Buffer { format, plane })
}

/// Whether a start code begins at a place.
pub open spec fn start_code_at(bytes: Seq<u8>, at: int) -> bool {
    0 <= at && at + 3 <= bytes.len() && bytes[at] == 0 && bytes[at + 1] == 0 && bytes[at + 2] == 1
}

/// The first start code from a place on, or the end.
pub open spec fn next_start_code(bytes: Seq<u8>, from: int) -> int
    decreases bytes.len() - from,
{
    if from + 3 > bytes.len() {
        bytes.len() as int
    } else if start_code_at(bytes, from) {
        from
    } else {
        next_start_code(bytes, from + 1)
    }
}

/// A unit without the zeros behind it.
pub open spec fn without_trailing_zeros(unit: Seq<u8>) -> Seq<u8>
    decreases unit.len(),
{
    if unit.len() > 0 && unit.last() == 0 {
        without_trailing_zeros(unit.drop_last())
    } else {
        unit
    }
}

proof fn lemma_next_start_code(bytes: Seq<u8>, from: int)
    requires
        0 <= from <= bytes.len(),
    ensures
        from <= next_start_code(bytes, from) <= bytes.len(),
        next_start_code(bytes, from) < bytes.len() ==> start_code_at(
            bytes,
            next_start_code(bytes, from),
        ),
    decreases bytes.len() - from,
{
    if from + 3 <= bytes.len() && !start_code_at(bytes, from) {
        lemma_next_start_code(bytes, from + 1);
    }
}

/// The units behind the start codes, from the start code at a place on.
pub open spec fn units_from(bytes: Seq<u8>, at: int) -> Seq<Seq<u8>>
    decreases bytes.len() - at,
{
    if at + 3 > bytes.len() {
        Seq::empty()
    } else {
        let end = next_start_code(bytes, at + 3);
        if end <= at || end > bytes.len() {
            Seq::empty()
        } else {
            seq![without_trailing_zeros(bytes.subrange(at + 3, end))] + units_from(bytes, end)
        }
    }
}

pub open spec fn none_empty(units: Seq<Seq<u8>>) -> bool {
    forall|i: int| 0 <= i < units.len() ==> (#[trigger] units[i]).len() > 0
}

/// The units of an access unit: behind optional zeros, each with a start code
/// before it and none of them empty. This is the library's own definition of
/// the byte-stream format that it converts.
pub open spec fn access_unit(bytes: Seq<u8>) -> Option<Seq<Seq<u8>>> {
    let first = next_start_code(bytes, 0);
    if first < bytes.len() && bytes.take(first) == wire::zeros(first as nat) && none_empty(
        units_from(bytes, first),
    ) {
        Some(units_from(bytes, first))
    } else {
        None
    }
}

/// Units, each behind its length.
pub open spec fn length_prefixed(units: Seq<Seq<u8>>) -> Seq<u8>
    decreases units.len(),
{
    if units.len() == 0 {
        Seq::empty()
    } else {
        wire::be32(units[0].len() as u32) + units[0] + length_prefixed(units.skip(1))
    }
}

/// Whether a unit is a slice of a picture that needs no other.
pub open spec fn is_idr(unit: Seq<u8>) -> bool {
    unit.len() > 0 && unit[0] % 32 == 5
}

pub open spec fn has_idr(units: Seq<Seq<u8>>) -> bool {
    exists|i: int| 0 <= i < units.len() && is_idr(#[trigger] units[i])
}

/// What an access unit becomes, or why it becomes nothing.
pub open spec fn converted(
    timestamp_ns: u64,
    duration_ns: u64,
    requested_keyframe: bool,
    annex_b: Seq<u8>,
) -> Result<PacketView, ReplayEncoderError> {
    match access_unit(annex_b) {
        None => Err(ReplayEncoderError::InvalidAccessUnit),
        Some(units) => {
            let packet = PacketView {
                timestamp_ns,
                duration_ns,
                keyframe: has_idr(units),
                bytes: length_prefixed(units),
            };
            match replay_ring::packet_error(packet) {
                Some(error) => Err(ReplayEncoderError::Packet(error)),
                None => if requested_keyframe && !packet.keyframe {
                    Err(ReplayEncoderError::BackendFailed(VulkanVideoFault::MissingKeyframe))
                } else {
                    Ok(packet)
                },
            }
        },
    }
}

fn find_start_code(bytes: &[u8], from: usize) -> (result: usize)
    requires
        from <= bytes@.len(),
    ensures
        result == next_start_code(bytes@, from as int),
        from <= result <= bytes@.len(),
        result < bytes@.len() ==> start_code_at(bytes@, result as int),
{
    let mut at: usize = from;
    while bytes.len() - at >= 3
        invariant
            from <= at <= bytes@.len(),
            next_start_code(bytes@, at as int) == next_start_code(bytes@, from as int),
        decreases bytes@.len() - at,
    {
        if bytes[at] == 0 && bytes[at + 1] == 0 && bytes[at + 2] == 1 {
            return at;
        }
        at = at + 1;
    }
    bytes.len()
}

proof fn lemma_trimmed_prefix(bytes: Seq<u8>, start: int, end: int, kept: int)
    requires
        0 <= start <= kept <= end <= bytes.len(),
        forall|i: int| kept <= i < end ==> bytes[i] == 0,
        kept > start ==> bytes[kept - 1] != 0,
    ensures
        without_trailing_zeros(bytes.subrange(start, end)) == bytes.subrange(start, kept),
    decreases end - kept,
{
    if kept < end {
        assert(bytes.subrange(start, end).drop_last() =~= bytes.subrange(start, end - 1));
        lemma_trimmed_prefix(bytes, start, end - 1, kept);
    }
}

fn trimmed_end(bytes: &[u8], start: usize, end: usize) -> (result: usize)
    requires
        start <= end <= bytes@.len(),
    ensures
        start <= result <= end,
        without_trailing_zeros(bytes@.subrange(start as int, end as int)) == bytes@.subrange(
            start as int,
            result as int,
        ),
{
    let mut kept: usize = end;
    while kept > start && bytes[kept - 1] == 0
        invariant
            start <= kept <= end <= bytes@.len(),
            forall|i: int| kept <= i < end ==> bytes@[i] == 0,
        decreases kept,
    {
        kept = kept - 1;
    }
    proof {
        lemma_trimmed_prefix(bytes@, start as int, end as int, kept as int);
    }
    kept
}

proof fn lemma_units_ahead(unit: Seq<u8>, rest: Seq<Seq<u8>>)
    ensures
        ({
            let all = seq![unit] + rest;
            &&& none_empty(all) == (unit.len() > 0 && none_empty(rest))
            &&& has_idr(all) == (is_idr(unit) || has_idr(rest))
            &&& length_prefixed(all) == wire::be32(unit.len() as u32) + unit + length_prefixed(
                rest,
            )
        }),
{
    let all = seq![unit] + rest;
    assert(all.skip(1) =~= rest);
    assert(all[0] == unit);
    if none_empty(all) {
        assert forall|i: int| 0 <= i < rest.len() implies (#[trigger] rest[i]).len() > 0 by {
            assert(all[i + 1] == rest[i]);
        }
    }
    if unit.len() > 0 && none_empty(rest) {
        assert forall|i: int| 0 <= i < all.len() implies (#[trigger] all[i]).len() > 0 by {
            if i > 0 {
                assert(all[i] == rest[i - 1]);
            }
        }
    }
    if has_idr(all) {
        let i = choose|i: int| 0 <= i < all.len() && is_idr(#[trigger] all[i]);
        if i > 0 {
            assert(all[i] == rest[i - 1]);
        }
    }
    if has_idr(rest) {
        let i = choose|i: int| 0 <= i < rest.len() && is_idr(#[trigger] rest[i]);
        assert(all[i + 1] == rest[i]);
    }
}

/// The packet of an access unit in the byte stream format, in which units
/// stand behind start codes; the format is the one that this library defines.
pub fn packet_from_annex_b(
    timestamp_ns: u64,
    duration_ns: u64,
    requested_keyframe: bool,
    annex_b: &[u8],
) -> (result: Result<EncodedReplayPacket, ReplayEncoderError>)
    ensures
        match converted(timestamp_ns, duration_ns, requested_keyframe, annex_b@) {
            Ok(packet) => result matches Ok(made) && made@ == packet,
            Err(error) => result == Err::<EncodedReplayPacket, ReplayEncoderError>(error),
        },
{
    let first: usize = find_start_code(annex_b, 0);
    if first == annex_b.len() {
        return Err(ReplayEncoderError::InvalidAccessUnit);
    }
    let mut ahead: usize = 0;
    while ahead < first
        invariant
            ahead <= first <= annex_b@.len(),
            first == next_start_code(annex_b@, 0),
            forall|i: int| 0 <= i < ahead ==> annex_b@[i] == 0,
        decreases first - ahead,
    {
        if annex_b[ahead] != 0 {
            assert(annex_b@.take(first as int)[ahead as int] != wire::zeros(
                first as nat,
            )[ahead as int]);
            return Err(ReplayEncoderError::InvalidAccessUnit);
        }
        ahead = ahead + 1;
    }
    assert(annex_b@.take(first as int) =~= wire::zeros(first as nat));
    let ghost units = units_from(annex_b@, first as int);
    let mut bytes: Vec<u8> = Vec::new();
    let mut keyframe = false;
    let mut at: usize = first;
    assert(bytes@ + length_prefixed(units) =~= length_prefixed(units));
    while at < annex_b.len()
        invariant
            at <= annex_b@.len(),
            at < annex_b@.len() ==> start_code_at(annex_b@, at as int),
            first == next_start_code(annex_b@, 0),
            first < annex_b@.len(),
            units == units_from(annex_b@, first as int),
            none_empty(units) == none_empty(units_from(annex_b@, at as int)),
            has_idr(units) == (keyframe || has_idr(units_from(annex_b@, at as int))),
            length_prefixed(units) == bytes@ + length_prefixed(units_from(annex_b@, at as int)),
        decreases annex_b@.len() - at,
    {
        let start: usize = at + 3;
        let next: usize = find_start_code(annex_b, start);
        let end: usize = trimmed_end(annex_b, start, next);
        let ghost unit = annex_b@.subrange(start as int, end as int);
        proof {
            lemma_units_ahead(unit, units_from(annex_b@, next as int));
        }
        if end == start {
            return Err(ReplayEncoderError::InvalidAccessUnit);
        }
        if annex_b[start] % 32 == 5 {
            keyframe = true;
        }
        let ghost before = bytes@;
        wire::put_u32(&mut bytes, #[verifier::truncate]
        ((end - start) as u32));
        let ghost prefixed = bytes@;
        let mut index: usize = start;
        while index < end
            invariant
                start <= index <= end <= annex_b@.len(),
                bytes@ == prefixed + annex_b@.subrange(start as int, index as int),
            decreases end - index,
        {
            bytes.push(annex_b[index]);
            index = index + 1;
            assert(bytes@ =~= prefixed + annex_b@.subrange(start as int, index as int));
        }
        proof {
            let rest = length_prefixed(units_from(annex_b@, next as int));
            assert(before + (wire::be32(unit.len() as u32) + unit + rest) =~= bytes@ + rest);
        }
        at = next;
    }
    assert(units_from(annex_b@, at as int) =~= Seq::<Seq<u8>>::empty());
    assert(bytes@ + Seq::<u8>::empty() =~= bytes@);
    match EncodedReplayPacket::new(timestamp_ns, duration_ns, keyframe, bytes) {
        Err(error) => Err(ReplayEncoderError::Packet(error)),
        Ok(packet) => {
            if requested_keyframe && !keyframe {
                return Err(ReplayEncoderError::BackendFailed(VulkanVideoFault::MissingKeyframe));
            }
            Ok(packet)
        },
    }
}

proof fn lemma_length_prefixed(units: Seq<Seq<u8>>)
    requires
        units.len() > 0,
        none_empty(units),
        length_prefixed(units).len() <= u32::MAX,
    ensures
        replay_media::is_length_prefixed(length_prefixed(units)),
    decreases units.len(),
{
    let unit = units[0];
    let rest = units.skip(1);
    let tail = length_prefixed(rest);
    let whole = length_prefixed(units);
    let size = unit.len() as u32;
    assert(unit.len() <= whole.len());
    assert(size == unit.len());
    assert(unit.len() > 0);
    wire::big_endian_round_trip(size);
    assert(wire::from_be32(whole) == wire::from_be32(wire::be32(size)));
    assert(whole.skip(4 + size as int) =~= tail);
    if rest.len() == 0 {
        assert(tail.len() == 0);
    } else {
        assert forall|i: int| 0 <= i < rest.len() implies (#[trigger] rest[i]).len() > 0 by {
            assert(units[i + 1] == rest[i]);
        }
        assert(rest[0].len() > 0);
        assert(tail.len() > 0);
        lemma_length_prefixed(rest);
    }
}

/// Every packet made of an access unit is one that a recording accepts: a run
/// of units behind their lengths.
pub proof fn converted_packets_are_accepted(
    timestamp_ns: u64,
    duration_ns: u64,
    requested_keyframe: bool,
    annex_b: Seq<u8>,
)
    requires
        converted(timestamp_ns, duration_ns, requested_keyframe, annex_b) is Ok,
    ensures
        ({
            let packet = converted(timestamp_ns, duration_ns, requested_keyframe, annex_b)->Ok_0;
            &&& replay_media::is_length_prefixed(packet.bytes)
            &&& replay_ring::packet_error(packet) is None
            &&& requested_keyframe ==> packet.keyframe
        }),
{
    let first = next_start_code(annex_b, 0);
    lemma_next_start_code(annex_b, 0);
    lemma_next_start_code(annex_b, first + 3);
    let units = units_from(annex_b, first);
    assert(units.len() > 0);
    lemma_length_prefixed(units);
}

/// One access unit as the encoder hands it out.
#[derive(Clone, Debug)]
pub struct VulkanVideoEncodedAccessUnit {
    pub timestamp_ns: u64,
    pub duration_ns: u64,
    pub requested_keyframe: bool,
    pub annex_b: Vec<u8>,
}

/// The packets of access units, or the first error.
pub open spec fn batch(units: Seq<VulkanVideoEncodedAccessUnit>) -> Result<
    Seq<PacketView>,
    ReplayEncoderError,
>
    decreases units.len(),
{
    if units.len() == 0 {
        Ok(Seq::empty())
    } else {
        match batch(units.drop_last()) {
            Err(error) => Err(error),
            Ok(packets) => {
                let unit = units.last();
                match converted(
                    unit.timestamp_ns,
                    unit.duration_ns,
                    unit.requested_keyframe,
                    unit.annex_b@,
                ) {
                    Err(error) => Err(error),
                    Ok(packet) => Ok(packets.push(packet)),
                }
            },
        }
    }
}

proof fn lemma_batch_error(units: Seq<VulkanVideoEncodedAccessUnit>, count: int)
    requires
        0 <= count <= units.len(),
        batch(units.take(count)) is Err,
    ensures
        batch(units) == batch(units.take(count)),
    decreases units.len() - count,
{
    if count == units.len() {
        assert(units.take(count) =~= units);
    } else {
        assert(units.take(count + 1).drop_last() =~= units.take(count));
        lemma_batch_error(units, count + 1);
    }
}

/// The packets of access units.
pub fn encoded_batch(units: &[VulkanVideoEncodedAccessUnit]) -> (result: Result<
    Vec<EncodedReplayPacket>,
    ReplayEncoderError,
>)
    ensures
        match result {
            Ok(packets) => batch(units@) == Ok::<Seq<PacketView>, ReplayEncoderError>(
                replay_pipeline::packet_views(packets@),
            ),
            Err(error) => batch(units@) == Err::<Seq<PacketView>, ReplayEncoderError>(error),
        },
{
    let mut packets: Vec<EncodedReplayPacket> = Vec::new();
    let mut index: usize = 0;
    assert(replay_pipeline::packet_views(packets@) =~= Seq::<PacketView>::empty());
    while index < units.len()
        invariant
            index <= units@.len(),
            batch(units@.take(index as int)) == Ok::<Seq<PacketView>, ReplayEncoderError>(
                replay_pipeline::packet_views(packets@),
            ),
        decreases units@.len() - index,
    {
        assert(units@.take(index + 1).drop_last() =~= units@.take(index as int));
        let unit = &units[index];
        match packet_from_annex_b(
            unit.timestamp_ns,
            unit.duration_ns,
            unit.requested_keyframe,
            unit.annex_b.as_slice(),
        ) {
            Err(error) => {
                proof {
                    lemma_batch_error(units@, index + 1);
                }
                return Err(error);
            },
            Ok(packet) => {
                let ghost before = replay_pipeline::packet_views(packets@);
                packets.push(packet);
                assert(replay_pipeline::packet_views(packets@) =~= before.push(packet@));
            },
        }
        index = index + 1;
    }
    assert(units@.take(index as int) =~= units@);
    Ok(packets)
}

/// The first frame with a timestamp.
pub open spec fn first_at(pending: Seq<(u64, u64)>, timestamp_ns: u64) -> Option<int>
    decreases pending.len(),
{
    if pending.len() == 0 {
        None
    } else if pending[0].0 == timestamp_ns {
        Some(0)
    } else {
        match first_at(pending.skip(1), timestamp_ns) {
            Some(index) => Some(index + 1),
            None => None,
        }
    }
}

/// The frames that wait, and those that are complete, after access units came
/// out; and whether each unit belonged to a frame.
pub open spec fn resolved(
    pending: Seq<(u64, u64)>,
    completed: Seq<u64>,
    units: Seq<VulkanVideoEncodedAccessUnit>,
) -> (Seq<(u64, u64)>, Seq<u64>, bool)
    decreases units.len(),
{
    if units.len() == 0 {
        (pending, completed, true)
    } else {
        match first_at(pending, units[0].timestamp_ns) {
            None => (pending, completed, false),
            Some(index) => resolved(
                pending.remove(index),
                completed.push(pending[index].1),
                units.skip(1),
            ),
        }
    }
}

fn find_pending(pending: &Vec<(u64, u64)>, timestamp_ns: u64) -> (result: Option<usize>)
    ensures
        match result {
            Some(index) => index < pending@.len() && first_at(pending@, timestamp_ns) == Some(
                index as int,
            ),
            None => first_at(pending@, timestamp_ns) is None,
        },
{
    let mut index: usize = 0;
    assert(pending@.skip(0) =~= pending@);
    while index < pending.len()
        invariant
            index <= pending@.len(),
            first_at(pending@, timestamp_ns) == (match first_at(
                pending@.skip(index as int),
                timestamp_ns,
            ) {
                Some(more) => Some(index + more),
                None => None,
            }),
        decreases pending@.len() - index,
    {
        assert(pending@.skip(index as int)[0] == pending@[index as int]);
        assert(pending@.skip(index as int).skip(1) =~= pending@.skip(index + 1));
        if pending[index].0 == timestamp_ns {
            return Some(index);
        }
        index = index + 1;
    }
    None
}

/// The state of the backend around the device's encoder.
#[derive(Debug)]
pub struct VulkanVideoH264Backend {
    stream: ReplayVideoStream,
    active: bool,
    failed: bool,
    pending_inputs: Vec<(u64, u64)>,
}

/// What a [`VulkanVideoH264Backend`] holds.
#[verifier::ext_equal]
pub ghost struct BackendState {
    pub stream: ReplayVideoStream,
    /// Whether there is an encoder.
    pub active: bool,
    pub failed: bool,
    /// Frames in the encoder, with their timestamps, oldest first.
    pub pending: Seq<(u64, u64)>,
}

impl View for VulkanVideoH264Backend {
    type V = BackendState;

    closed spec fn view(&self) -> BackendState {
        BackendState {
            stream: self.stream,
            active: self.active,
            failed: self.failed,
            pending: self.pending_inputs@,
        }
    }
}

/// A backend that failed: its encoder is gone, and no other takes its place.
pub open spec fn after_failure(state: BackendState) -> BackendState {
    BackendState { active: false, failed: true, ..state }
}

/// Why a backend cannot be used.
pub open spec fn inactive_fault(state: BackendState) -> Option<ReplayEncoderError> {
    if state.failed {
        Some(ReplayEncoderError::BackendFailed(VulkanVideoFault::FailedState))
    } else if !state.active {
        Some(ReplayEncoderError::BackendFailed(VulkanVideoFault::ShutDown))
    } else {
        None
    }
}

/// A backend after a frame was submitted and access units came out, with what
/// is reported of them.
pub open spec fn after_encode(
    state: BackendState,
    timestamp_ns: u64,
    input_sequence: u64,
    units: Seq<VulkanVideoEncodedAccessUnit>,
) -> (BackendState, Result<(Seq<PacketView>, Seq<u64>), ReplayEncoderError>) {
    let (pending, completed, sound) = resolved(state.pending, Seq::empty(), units);
    if !sound {
        (
            after_failure(BackendState { pending, ..state }),
            Err(ReplayEncoderError::InvalidInputCompletion),
        )
    } else {
        let next = BackendState { pending: pending.push((timestamp_ns, input_sequence)), ..state };
        if next.pending.len() > MAX_TRACKED_INPUTS {
            (after_failure(next), Err(ReplayEncoderError::InvalidInputCompletion))
        } else {
            match batch(units) {
                Ok(packets) => (next, Ok((packets, completed))),
                Err(error) => (after_failure(next), Err(error)),
            }
        }
    }
}

/// A backend after its encoder was drained, with what is reported. Every
/// frame has to come out.
pub open spec fn after_drain(
    state: BackendState,
    units: Seq<VulkanVideoEncodedAccessUnit>,
) -> (BackendState, Result<(Seq<PacketView>, Seq<u64>), ReplayEncoderError>) {
    let (pending, completed, sound) = resolved(state.pending, Seq::empty(), units);
    let next = BackendState { pending, ..state };
    if !sound || pending.len() != 0 {
        (after_failure(next), Err(ReplayEncoderError::InvalidInputCompletion))
    } else {
        match batch(units) {
            Ok(packets) => (next, Ok((packets, completed))),
            Err(error) => (after_failure(next), Err(error)),
        }
    }
}

/// What packets and finished frames hold.
pub open spec fn output_view(
    output: Result<(Vec<EncodedReplayPacket>, Vec<u64>), ReplayEncoderError>,
) -> Result<(Seq<PacketView>, Seq<u64>), ReplayEncoderError> {
    match output {
        Ok((packets, completed)) => Ok((replay_pipeline::packet_views(packets@), completed@)),
        Err(error) => Err(error),
    }
}

impl VulkanVideoH264Backend {
    /// A backend with an encoder that produces a stream.
    pub fn new(stream: ReplayVideoStream) -> (result: Self)
        ensures
            result@ == (BackendState {
                stream,
                active: true,
                failed: false,
                pending: Seq::empty(),
            }),
    {
        let backend = VulkanVideoH264Backend {
            stream,
            active: true,
            failed: false,
            pending_inputs: Vec::new(),
        };
        assert(backend@.pending =~= Seq::<(u64, u64)>::empty());
        backend
    }

    pub fn stream(&self) -> (result: &ReplayVideoStream)
        ensures
            *result == self@.stream,
    {
        &self.stream
    }

    fn fail(&mut self)
        ensures
            final(self)@ == after_failure(old(self)@),
    {
        self.failed = true;
        self.active = false;
    }

    fn check_active(&self) -> (result: Result<(), ReplayEncoderError>)
        ensures
            match result {
                Ok(()) => inactive_fault(self@) is None,
                Err(error) => inactive_fault(self@) == Some(error),
            },
    {
        if self.failed {
            return Err(ReplayEncoderError::BackendFailed(VulkanVideoFault::FailedState));
        }
        if !self.active {
            return Err(ReplayEncoderError::BackendFailed(VulkanVideoFault::ShutDown));
        }
        Ok(())
    }

    /// Decides how a frame goes to the encoder. A frame that cannot be
    /// imported ends the backend.
    pub fn begin_encode(&mut self, frame: &DmaBufReplayFrame) -> (result: Result<
        VulkanVideoInput,
        ReplayEncoderError,
    >)
        ensures
            match frame_input(*frame) {
                None => result == Err::<VulkanVideoInput, ReplayEncoderError>(
                    ReplayEncoderError::InvalidDmaBufFrame,
                ) && final(self)@ == after_failure(old(self)@),
                Some(input) => final(self)@ == old(self)@ && result == (match inactive_fault(
                    old(self)@,
                ) {
                    Some(error) => Err::<VulkanVideoInput, ReplayEncoderError>(error),
                    None => Ok(input),
                }),
            },
    {
        match vulkan_frame(frame) {
            Err(error) => {
                self.fail();
                Err(error)
            },
            Ok(input) => match self.check_active() {
                Err(error) => Err(error),
                Ok(()) => Ok(input),
            },
        }
    }

    fn resolve_completed_inputs(&mut self, units: &[VulkanVideoEncodedAccessUnit]) -> (result:
        Option<Vec<u64>>)
        ensures
            ({
                let (pending, completed, sound) = resolved(
                    old(self)@.pending,
                    Seq::empty(),
                    units@,
                );
                &&& final(self)@ == (BackendState { pending, ..old(self)@ })
                &&& match result {
                    Some(sequences) => sound && sequences@ == completed,
                    None => !sound,
                }
            }),
    {
        let mut completed: Vec<u64> = Vec::new();
        let mut index: usize = 0;
        assert(units@.skip(0) =~= units@);
        assert(completed@ =~= Seq::<u64>::empty());
        while index < units.len()
            invariant
                index <= units@.len(),
                resolved(old(self)@.pending, Seq::empty(), units@) == resolved(
                    self@.pending,
                    completed@,
                    units@.skip(index as int),
                ),
                self@ == (BackendState { pending: self@.pending, ..old(self)@ }),
            decreases units@.len() - index,
        {
            assert(units@.skip(index as int)[0] == units@[index as int]);
            assert(units@.skip(index as int).skip(1) =~= units@.skip(index + 1));
            match find_pending(&self.pending_inputs, units[index].timestamp_ns) {
                None => {
                    return None;
                },
                Some(at) => {
                    let (_, sequence) = self.pending_inputs.remove(at);
                    completed.push(sequence);
                },
            }
            index = index + 1;
        }
        Some(completed)
    }

    /// Takes what the encoder gave for a submitted frame.
    pub fn finish_encode(
        &mut self,
        timestamp_ns: u64,
        input_sequence: u64,
        units: &[VulkanVideoEncodedAccessUnit],
    ) -> (result: Result<(Vec<EncodedReplayPacket>, Vec<u64>), ReplayEncoderError>)
        ensures
            ({
                let (next, output) = after_encode(
                    old(self)@,
                    timestamp_ns,
                    input_sequence,
                    units@,
                );
                final(self)@ == next && output_view(result) == output
            }),
    {
        let completed = match self.resolve_completed_inputs(units) {
            Some(completed) => completed,
            None => {
                self.fail();
                return Err(ReplayEncoderError::InvalidInputCompletion);
            },
        };
        self.pending_inputs.push((timestamp_ns, input_sequence));
        if self.pending_inputs.len() > MAX_TRACKED_INPUTS {
            self.fail();
            return Err(ReplayEncoderError::InvalidInputCompletion);
        }
        match encoded_batch(units) {
            Ok(packets) => Ok((packets, completed)),
            Err(error) => {
                self.fail();
                Err(error)
            },
        }
    }

    /// Takes note that the device refused an operation.
    pub fn device_failed(&mut self, operation: VulkanVideoFault) -> (result: ReplayEncoderError)
        ensures
            final(self)@ == after_failure(old(self)@),
            result == ReplayEncoderError::BackendFailed(operation),
    {
        self.fail();
        ReplayEncoderError::BackendFailed(operation)
    }

    /// Whether the encoder can be drained.
    pub fn begin_drain(&self) -> (result: Result<(), ReplayEncoderError>)
        ensures
            match result {
                Ok(()) => inactive_fault(self@) is None,
                Err(error) => inactive_fault(self@) == Some(error),
            },
    {
        self.check_active()
    }

    /// Takes what came out of the drained encoder.
    pub fn drain(&mut self, units: &[VulkanVideoEncodedAccessUnit]) -> (result: Result<
        (Vec<EncodedReplayPacket>, Vec<u64>),
        ReplayEncoderError,
    >)
        ensures
            ({
                let (next, output) = after_drain(old(self)@, units@);
                final(self)@ == next && output_view(result) == output
            }),
    {
        let completed = match self.resolve_completed_inputs(units) {
            Some(completed) => completed,
            None => {
                self.fail();
                return Err(ReplayEncoderError::InvalidInputCompletion);
            },
        };
        if self.pending_inputs.len() != 0 {
            self.fail();
            return Err(ReplayEncoderError::InvalidInputCompletion);
        }
        match encoded_batch(units) {
            Ok(packets) => Ok((packets, completed)),
            Err(error) => {
                self.fail();
                Err(error)
            },
        }
    }

    /// Whether there is an encoder to drain and release.
    pub fn begin_shutdown(&self) -> (result: bool)
        ensures
            result == self@.active,
    {
        self.active
    }

    /// Takes what the last drain gave, or nothing where the device refused
    /// it. The encoder is gone either way.
    pub fn shutdown(&mut self, drained: Option<&[VulkanVideoEncodedAccessUnit]>) -> (result: Result<
        (),
        ReplayEncoderError,
    >)
        ensures
            ({
                let outcome = match drained {
                    None => Err::<Seq<PacketView>, ReplayEncoderError>(
                        ReplayEncoderError::BackendFailed(VulkanVideoFault::ShutdownDrain),
                    ),
                    Some(units) => batch(units@),
                };
                match outcome {
                    _ if !old(self)@.active => result == Ok::<(), ReplayEncoderError>(())
                        && final(self)@ == old(self)@,
                    Ok(_) => result == Ok::<(), ReplayEncoderError>(()) && final(self)@ == (
                    BackendState { active: false, ..old(self)@ }),
                    Err(error) => result == Err::<(), ReplayEncoderError>(error) && final(self)@
                        == after_failure(old(self)@),
                }
            }),
    {
        if !self.active {
            return Ok(());
        }
        self.active = false;
        let outcome = match drained {
            None => Err(ReplayEncoderError::BackendFailed(VulkanVideoFault::ShutdownDrain)),
            Some(units) => match encoded_batch(units) {
                Ok(_) => Ok(()),
                Err(error) => Err(error),
            },
        };
        if outcome.is_err() {
            self.failed = true;
        }
        outcome
    }
}

/// A backend never holds more frames than the encoder may have in flight, and
/// no operation brings a failed one back.
pub proof fn failures_are_final(
    state: BackendState,
    timestamp_ns: u64,
    input_sequence: u64,
    units: Seq<VulkanVideoEncodedAccessUnit>,
)
    ensures
        ({
            let (encoded, output) = after_encode(state, timestamp_ns, input_sequence, units);
            let (drained, drain_output) = after_drain(state, units);
            &&& output is Ok ==> encoded.pending.len() <= MAX_TRACKED_INPUTS
            &&& output is Err ==> encoded.failed && inactive_fault(encoded) is Some
            &&& drain_output is Ok ==> drained.pending.len() == 0
            &&& drain_output is Err ==> drained.failed && inactive_fault(drained) is Some
            &&& state.failed ==> encoded.failed && drained.failed
        }),
{
}

/// Units behind their start codes.
pub open spec fn with_start_codes(units: Seq<Seq<u8>>) -> Seq<u8>
    decreases units.len(),
{
    if units.len() == 0 {
        Seq::empty()
    } else {
        seq![0u8, 0u8, 1u8] + units[0] + with_start_codes(units.skip(1))
    }
}

/// Whether a unit can stand behind a start code: it holds none, and does not end
/// with a zero.
pub open spec fn is_plain_unit(unit: Seq<u8>) -> bool {
    &&& unit.len() > 0
    &&& unit.last() != 0
    &&& forall|i: int|
        0 <= i && i + 3 <= unit.len() ==> !(#[trigger] unit[i] == 0 && unit[i + 1] == 0 && unit[i
            + 2] == 1)
}

proof fn lemma_unit_end(bytes: Seq<u8>, from: int, end: int)
    requires
        0 <= from <= end <= bytes.len(),
        forall|i: int| from <= i < end ==> !start_code_at(bytes, i),
        end == bytes.len() || start_code_at(bytes, end),
    ensures
        next_start_code(bytes, from) == end,
    decreases end - from,
{
    if from < end {
        assert(!start_code_at(bytes, from));
        if from + 3 <= bytes.len() {
            lemma_unit_end(bytes, from + 1, end);
        } else if end < bytes.len() {
            assert(start_code_at(bytes, end));
        }
    }
}

#[verifier::spinoff_prover]
proof fn lemma_units_read(front: Seq<u8>, units: Seq<Seq<u8>>)
    requires
        forall|i: int| 0 <= i < units.len() ==> is_plain_unit(#[trigger] units[i]),
    ensures
        units_from(front + with_start_codes(units), front.len() as int) == units,
    decreases units.len(),
{
    let bytes = front + with_start_codes(units);
    let at = front.len() as int;
    if units.len() == 0 {
        assert(units =~= Seq::<Seq<u8>>::empty());
    } else {
        let unit = units[0];
        let later = units.skip(1);
        let rest = with_start_codes(later);
        let ahead = front + seq![0u8, 0u8, 1u8] + unit;
        assert(bytes =~= ahead + rest);
        assert(is_plain_unit(unit));
        let end = at + 3 + unit.len();
        assert(ahead.len() == end);
        assert forall|i: int| at + 3 <= i < end implies !start_code_at(bytes, i) by {
            let k = i - at - 3;
            assert(bytes[i] == unit[k]);
            if i + 3 <= end {
                assert(bytes[i + 1] == unit[k + 1] && bytes[i + 2] == unit[k + 2]);
                assert(!(unit[k] == 0 && unit[k + 1] == 0 && unit[k + 2] == 1));
            } else if i + 2 == end {
                assert(bytes[i + 1] == unit.last());
            } else {
                assert(bytes[i] == unit.last());
            }
        }
        if later.len() > 0 {
            assert(rest[0] == 0 && rest[1] == 0 && rest[2] == 1);
            assert(bytes[end] == rest[0] && bytes[end + 1] == rest[1] && bytes[end + 2] == rest[2]);
        } else {
            assert(rest =~= Seq::<u8>::empty());
        }
        lemma_unit_end(bytes, at + 3, end);
        assert(bytes.subrange(at + 3, end) =~= unit);
        assert(without_trailing_zeros(unit) == unit);
        assert forall|i: int| 0 <= i < later.len() implies is_plain_unit(#[trigger] later[i]) by {
            assert(later[i] == units[i + 1]);
        }
        lemma_units_read(ahead, later);
        assert(seq![unit] + later =~= units);
    }
}

/// The units of an access unit are what stands behind its start codes, in
/// order.
pub proof fn units_stand_behind_start_codes(units: Seq<Seq<u8>>)
    requires
        units.len() > 0,
        forall|i: int| 0 <= i < units.len() ==> is_plain_unit(#[trigger] units[i]),
    ensures
        access_unit(with_start_codes(units)) == Some(units),
{
    let bytes = with_start_codes(units);
    let none = Seq::<u8>::empty();
    assert(none + bytes =~= bytes);
    lemma_units_read(none, units);
    assert(bytes[0] == 0 && bytes[1] == 0 && bytes[2] == 1);
    assert(start_code_at(bytes, 0));
    assert(next_start_code(bytes, 0) == 0);
    assert(bytes.take(0) =~= wire::zeros(0));
    assert forall|i: int| 0 <= i < units.len() implies (#[trigger] units[i]).len() > 0 by {
        assert(is_plain_unit(units[i]));
    }
}

/// Units read from the lengths before them.
pub open spec fn units_by_length(bytes: Seq<u8>) -> Option<Seq<Seq<u8>>>
    decreases bytes.len(),
{
    if bytes.len() == 0 {
        Some(Seq::empty())
    } else if bytes.len() < 4 {
        None
    } else {
        let length = bytes[0] * 0x100_0000 + bytes[1] * 0x1_0000 + bytes[2] * 0x100 + bytes[3];
        if bytes.len() < 4 + length {
            None
        } else {
            match units_by_length(bytes.skip(4 + length)) {
                Some(rest) => Some(seq![bytes.subrange(4, 4 + length)] + rest),
                None => None,
            }
        }
    }
}

/// A player that goes by the lengths finds the same units in a packet.
pub proof fn units_are_found_by_length(units: Seq<Seq<u8>>)
    requires
        forall|i: int| 0 <= i < units.len() ==> (#[trigger] units[i]).len() <= u32::MAX,
    ensures
        units_by_length(length_prefixed(units)) == Some(units),
    decreases units.len(),
{
    let bytes = length_prefixed(units);
    if units.len() == 0 {
        assert(units =~= Seq::<Seq<u8>>::empty());
    } else {
        let unit = units[0];
        let later = units.skip(1);
        let length = unit.len() as u32;
        assert forall|i: int| 0 <= i < later.len() implies (#[trigger] later[i]).len()
            <= u32::MAX by {
            assert(later[i] == units[i + 1]);
        }
        units_are_found_by_length(later);
        let number = wire::be32(length);
        assert(bytes[0] == number[0] && bytes[1] == number[1] && bytes[2] == number[2] && bytes[3]
            == number[3]);
        lemma_four_bytes(length);
        assert(bytes.subrange(4, 4 + unit.len() as int) =~= unit);
        assert(bytes.skip(4 + unit.len() as int) =~= length_prefixed(later));
        assert(seq![unit] + later =~= units);
    }
}

proof fn lemma_four_bytes(value: u32)
    ensures
        ({
            let bytes = wire::be32(value);
            bytes[0] * 0x100_0000 + bytes[1] * 0x1_0000 + bytes[2] * 0x100 + bytes[3] == value
        }),
{
    let top = value / 0x100_0000;
    let second = value / 0x1_0000 % 0x100;
    let third = value / 0x100 % 0x100;
    assert(value / 0x1_0000 == top * 0x100 + second);
    assert(value / 0x100 == (value / 0x1_0000) * 0x100 + third);
    assert(value == (value / 0x100) * 0x100 + value % 0x100);
}

/// A packet is a keyframe where one of its units is a slice of an instantaneous
/// refresh, which has the type five in its first byte, whatever its importance.
pub proof fn refreshes_are_keyframes(
    timestamp_ns: u64,
    duration_ns: u64,
    units: Seq<Seq<u8>>,
    at: int,
    importance: u8,
)
    requires
        forall|i: int| 0 <= i < units.len() ==> is_plain_unit(#[trigger] units[i]),
        0 <= at < units.len(),
        importance < 4,
        converted(timestamp_ns, duration_ns, false, with_start_codes(units)) is Ok,
    ensures
        ({
            let packet = converted(timestamp_ns, duration_ns, false, with_start_codes(units))->Ok_0;
            &&& packet.timestamp_ns == timestamp_ns
            &&& packet.duration_ns == duration_ns
            &&& units[at][0] == importance * 32 + 5 ==> packet.keyframe
            &&& (forall|i: int| 0 <= i < units.len() ==> (#[trigger] units[i])[0] % 32 != 5)
                ==> !packet.keyframe
            &&& units_by_length(packet.bytes) == Some(units)
        }),
{
    units_stand_behind_start_codes(units);
    if units[at][0] == importance * 32 + 5 {
        assert(is_plain_unit(units[at]));
        assert(is_idr(units[at]));
    }
    lemma_units_fit(units);
    units_are_found_by_length(units);
}

/// A packet is larger than each of its units.
proof fn lemma_units_fit(units: Seq<Seq<u8>>)
    ensures
        forall|i: int|
            0 <= i < units.len() ==> (#[trigger] units[i]).len() <= length_prefixed(units).len(),
    decreases units.len(),
{
    if units.len() > 0 {
        let later = units.skip(1);
        lemma_units_fit(later);
        assert forall|i: int| 0 <= i < units.len() implies (#[trigger] units[i]).len()
            <= length_prefixed(units).len() by {
            if i > 0 {
                assert(later[i - 1] == units[i]);
            }
        }
    }
}

/// The number that four letters of a pixel format stand for.
pub open spec fn format_number(letters: Seq<char>) -> int {
    letters[0] as int + letters[1] as int * 0x100 + letters[2] as int * 0x1_0000 + letters[3] as int
        * 0x100_0000
}

/// Pixel formats are told by their four letters: four of images, and four of
/// packed buffers, each with its own order of colors.
pub proof fn formats_are_told_by_their_letters(format: u32)
    ensures
        is_image_format(format) <==> format == format_number("XR24"@) || format == format_number(
            "AR24"@,
        ) || format == format_number("XB24"@) || format == format_number("AB24"@),
        packed_format(format) == Some(VulkanPackedPixelFormat::Rgba8) <==> format == format_number(
            "RA24"@,
        ),
        packed_format(format) == Some(VulkanPackedPixelFormat::Bgra8) <==> format == format_number(
            "BA24"@,
        ),
        packed_format(format) == Some(VulkanPackedPixelFormat::A2b10g10r10) <==> format
            == format_number("AB30"@),
        packed_format(format) == Some(VulkanPackedPixelFormat::A2r10g10b10) <==> format
            == format_number("AR30"@),
{
    reveal_strlit("XR24");
    reveal_strlit("AR24");
    reveal_strlit("XB24");
    reveal_strlit("AB24");
    reveal_strlit("RA24");
    reveal_strlit("BA24");
    reveal_strlit("AB30");
    reveal_strlit("AR30");
}

/// A packet is accepted where it is a run of units with their lengths, none of
/// them empty.
pub proof fn accepted_packets_are_runs_of_units(bytes: Seq<u8>)
    ensures
        replay_media::is_length_prefixed(bytes) <==> (units_by_length(bytes) matches Some(units)
            && units.len() > 0 && none_empty(units)),
    decreases bytes.len(),
{
    if bytes.len() >= 4 {
        let length = bytes[0] * 0x100_0000 + bytes[1] * 0x1_0000 + bytes[2] * 0x100 + bytes[3];
        if 4 + length <= bytes.len() {
            let later = bytes.skip(4 + length);
            let unit = bytes.subrange(4, 4 + length);
            if later.len() < bytes.len() {
                accepted_packets_are_runs_of_units(later);
            }
            if let Some(rest) = units_by_length(later) {
                let units = seq![unit] + rest;
                assert(units[0] == unit);
                if none_empty(units) {
                    assert forall|i: int| 0 <= i < rest.len() implies (#[trigger] rest[i]).len()
                        > 0 by {
                        assert(units[i + 1] == rest[i]);
                    }
                }
                if none_empty(rest) && unit.len() > 0 {
                    assert forall|i: int| 0 <= i < units.len() implies (#[trigger] units[i]).len()
                        > 0 by {
                        if i > 0 {
                            assert(units[i] == rest[i - 1]);
                        }
                    }
                }
                if later.len() > 0 {
                    assert(rest.len() > 0);
                }
            }
        }
    }
}

/// An encoded unit gives back the oldest frame with its timestamp, and leaves the
/// other frames with the encoder.
pub proof fn units_give_back_their_frames(
    pending: Seq<(u64, u64)>,
    completed: Seq<u64>,
    unit: VulkanVideoEncodedAccessUnit,
    at: int,
)
    requires
        0 <= at <= pending.len(),
        forall|i: int| 0 <= i < at ==> (#[trigger] pending[i]).0 != unit.timestamp_ns,
        at < pending.len() ==> pending[at].0 == unit.timestamp_ns,
    ensures
        at < pending.len() ==> resolved(pending, completed, seq![unit]) == (
            pending.remove(at),
            completed.push(pending[at].1),
            true,
        ),
        at == pending.len() ==> !resolved(pending, completed, seq![unit]).2,
{
    lemma_first_at(pending, unit.timestamp_ns, at);
    let units = seq![unit];
    assert(units.skip(1) =~= Seq::<VulkanVideoEncodedAccessUnit>::empty());
    if at < pending.len() {
        let none = Seq::<VulkanVideoEncodedAccessUnit>::empty();
        assert(resolved(pending.remove(at), completed.push(pending[at].1), none) == (
            pending.remove(at),
            completed.push(pending[at].1),
            true,
        ));
    }
}

proof fn lemma_first_at(pending: Seq<(u64, u64)>, timestamp_ns: u64, at: int)
    requires
        0 <= at <= pending.len(),
        forall|i: int| 0 <= i < at ==> (#[trigger] pending[i]).0 != timestamp_ns,
        at < pending.len() ==> pending[at].0 == timestamp_ns,
    ensures
        first_at(pending, timestamp_ns) == if at < pending.len() {
            Some(at)
        } else {
            None
        },
    decreases pending.len(),
{
    if at > 0 {
        let later = pending.skip(1);
        assert forall|i: int| 0 <= i < at - 1 implies (#[trigger] later[i]).0 != timestamp_ns by {
            assert(later[i] == pending[i + 1]);
        }
        if at < pending.len() {
            assert(later[at - 1] == pending[at]);
        }
        assert(pending[0].0 != timestamp_ns);
        lemma_first_at(later, timestamp_ns, at - 1);
    }
}

/// A frame is encoded where one plane in one object holds it: as an image, of
/// that very object, or as packed pixels that are laid out in rows.
pub proof fn frames_lie_in_one_plane(frame: DmaBufReplayFrame)
    ensures
        frame_input(frame) is Some ==> frame.image_planes@.len() == 1 && frame.objects == 1,
        frame_input(frame) matches Some(VulkanVideoInput::DrmImage { plane }) ==> plane
            == frame.image_planes@[0] && plane.object_index == 0 && is_image_format(
            frame.drm_fourcc,
        ),
        frame_input(frame) matches Some(VulkanVideoInput::Buffer { format, plane }) ==> plane
            == frame.image_planes@[0] && frame.modifier == 0 && packed_format(frame.drm_fourcc)
            == Some(format),
        frame.image_planes@.len() == 1 && frame.objects == 1 && is_image_format(frame.drm_fourcc)
            && frame.image_planes@[0].object_index == 0 ==> frame_input(frame) is Some,
        frame.image_planes@.len() == 1 && frame.objects == 1 && !is_image_format(frame.drm_fourcc)
            && frame.modifier == 0 && packed_format(frame.drm_fourcc) is Some ==> frame_input(frame)
            is Some,
{
}

} // verus!
