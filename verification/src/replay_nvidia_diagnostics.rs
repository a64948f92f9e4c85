//! Encoder startup failures as fixed codes, without private details.
use crate::text;
use vstd::prelude::*;
use vstd::string::*;

verus! {

broadcast use vstd::string::group_string_axioms;

/// How many lines one process writes at most.
pub const MAX_LINES: u8 = 32;

/// How far apart two lines are at least, in nanoseconds.
pub const LINE_INTERVAL_NS: u64 = 5_000_000_000;

/// Where an encoder's startup failed.
#[derive(Clone, Copy, Debug, PartialEq, Eq, Structural)]
pub enum Stage {
    Device,
    Session,
    Parameters,
    Encoder,
    Backend,
}

pub open spec fn stage_code(stage: Stage) -> &'static str {
    match stage {
        Stage::Device => "device",
        Stage::Session => "session",
        Stage::Parameters => "parameters",
        Stage::Encoder => "encoder",
        Stage::Backend => "backend",
    }
}

impl Stage {
    pub fn code(self) -> (result: &'static str)
        ensures
            result == stage_code(self),
    {
        match self {
            Stage::Device => "device",
            Stage::Session => "session",
            Stage::Parameters => "parameters",
            Stage::Encoder => "encoder",
            Stage::Backend => "backend",
        }
    }
}

/// Why no device can encode.
#[derive(Debug)]
pub enum VulkanVideoProbeBlocker {
    InvalidRequest,
    LoaderUnavailable,
    LoaderSymbolUnavailable(String),
    InstanceCreationFailed(i32),
    PhysicalDeviceEnumerationFailed(i32),
    NoSupportedPhysicalDevice,
    Vulkan13Unsupported,
    Synchronization2Unsupported,
    DeviceExtensionEnumerationFailed(i32),
    MissingDeviceExtension(String),
    HardwareH264CodecUnavailable,
    DmaBufStorageBufferImportUnsupported,
    QueueFamilyEnumerationFailed,
    NoH264EncodeQueue,
    NoComputeQueue,
    H264ProfileUnsupported(i32),
    H264LevelUnsupported { required: u32, supported: u32 },
    CodedExtentUnsupported,
    VideoFormatQueryFailed(i32),
    Nv12VideoFormatUnsupported,
    ReferencePicturesUnsupported,
    InvalidStdHeaderVersion,
    EncodeFeedbackUnsupported,
    RequestedBitrateUnsupported,
    RateControlUnsupported,
    PPictureReferenceUnsupported,
    GopRemainingFramesRequired,
    SeparateReferenceImagesUnsupported,
    SliceUnsupported,
    TemporalLayerUnsupported,
}

/// Why an encoder could not be set up.
#[derive(Debug)]
pub enum VulkanVideoDeviceError {
    Probe(Vec<VulkanVideoProbeBlocker>),
    LoaderUnavailable,
    LoaderSymbolUnavailable(String),
    InstanceCreationFailed(i32),
    PhysicalDeviceEnumerationFailed(i32),
    SelectedPhysicalDeviceUnavailable,
    LogicalDeviceCreationFailed(i32),
    QueueUnavailable,
    DeviceSymbolUnavailable(String),
    VideoSessionCreationFailed(i32),
    VideoSessionMemoryQueryFailed(i32),
    VideoSessionMemoryBoundExceeded,
    DeviceLocalMemoryUnavailable,
    VideoSessionMemoryAllocationFailed(i32),
    VideoSessionMemoryBindFailed(i32),
    SessionParameterCreationFailed(i32),
    SessionParameterReadFailed(i32),
    SessionParameterBytesExceeded,
    InvalidDmaBufFrame,
    DmaBufSizeUnavailable,
    DmaBufPropertiesFailed(i32),
    ImportedBufferCreationFailed(i32),
    ImportedMemoryTypeUnavailable,
    ImportedMemoryAllocationFailed(i32),
    ImportedBufferBindFailed(i32),
    InvalidComputeShader,
    ImageCreationFailed(i32),
    ImageMemoryTypeUnavailable,
    ImageMemoryAllocationFailed(i32),
    ImageMemoryBindFailed(i32),
    ImageViewCreationFailed(i32),
    SamplerCreationFailed(i32),
    DescriptorSetLayoutCreationFailed(i32),
    DescriptorPoolCreationFailed(i32),
    DescriptorSetAllocationFailed(i32),
    PipelineLayoutCreationFailed(i32),
    ShaderModuleCreationFailed(i32),
    ComputePipelineCreationFailed(i32),
    CommandPoolCreationFailed(i32),
    CommandBufferAllocationFailed(i32),
    SemaphoreCreationFailed(i32),
    FenceCreationFailed(i32),
    DeviceWaitFailed(i32),
    BitstreamBufferCreationFailed(i32),
    BitstreamMemoryTypeUnavailable,
    BitstreamMemoryAllocationFailed(i32),
    BitstreamBufferBindFailed(i32),
    BitstreamMapFailed(i32),
    EncodeQueryPoolCreationFailed(i32),
    EncodeFeedbackUnsupported,
    FenceWaitFailed(i32),
    FenceResetFailed(i32),
    CommandBufferResetFailed(i32),
    CommandBufferBeginFailed(i32),
    CommandBufferEndFailed(i32),
    QueueSubmissionFailed(i32),
    EncodeFeedbackReadFailed(i32),
    EncodedBytesExceeded,
    EncoderPoisoned,
}

/// The code of a blocker, with the result of the call that failed.
pub open spec fn blocker_code(error: VulkanVideoProbeBlocker) -> (&'static str, Option<i32>) {
    match error {
        VulkanVideoProbeBlocker::InvalidRequest => ("invalid_request", None),
        VulkanVideoProbeBlocker::LoaderUnavailable => ("loader_unavailable", None),
        VulkanVideoProbeBlocker::LoaderSymbolUnavailable(_) => ("loader_symbol_unavailable", None),
        VulkanVideoProbeBlocker::InstanceCreationFailed(result) => ("instance_creation_failed", Some(result)),
        VulkanVideoProbeBlocker::PhysicalDeviceEnumerationFailed(result) => ("physical_device_enumeration_failed", Some(result)),
        VulkanVideoProbeBlocker::NoSupportedPhysicalDevice => ("no_supported_physical_device", None),
        VulkanVideoProbeBlocker::Vulkan13Unsupported => ("vulkan13_unsupported", None),
        VulkanVideoProbeBlocker::Synchronization2Unsupported => ("synchronization2_unsupported", None),
        VulkanVideoProbeBlocker::DeviceExtensionEnumerationFailed(result) => ("device_extension_enumeration_failed", Some(result)),
        VulkanVideoProbeBlocker::MissingDeviceExtension(_) => ("missing_device_extension", None),
        VulkanVideoProbeBlocker::HardwareH264CodecUnavailable => ("hardware_h264_codec_unavailable", None),
        VulkanVideoProbeBlocker::DmaBufStorageBufferImportUnsupported => ("dma_buf_storage_buffer_import_unsupported", None),
        VulkanVideoProbeBlocker::QueueFamilyEnumerationFailed => ("queue_family_enumeration_failed", None),
        VulkanVideoProbeBlocker::NoH264EncodeQueue => ("no_h264_encode_queue", None),
        VulkanVideoProbeBlocker::NoComputeQueue => ("no_compute_queue", None),
        VulkanVideoProbeBlocker::H264ProfileUnsupported(result) => ("h264_profile_unsupported", Some(result)),
        VulkanVideoProbeBlocker::H264LevelUnsupported { .. } => ("h264_level_unsupported", None),
        VulkanVideoProbeBlocker::CodedExtentUnsupported => ("coded_extent_unsupported", None),
        VulkanVideoProbeBlocker::VideoFormatQueryFailed(result) => ("video_format_query_failed", Some(result)),
        VulkanVideoProbeBlocker::Nv12VideoFormatUnsupported => ("nv12_video_format_unsupported", None),
        VulkanVideoProbeBlocker::ReferencePicturesUnsupported => ("reference_pictures_unsupported", None),
        VulkanVideoProbeBlocker::InvalidStdHeaderVersion => ("invalid_std_header_version", None),
        VulkanVideoProbeBlocker::EncodeFeedbackUnsupported => ("encode_feedback_unsupported", None),
        VulkanVideoProbeBlocker::RequestedBitrateUnsupported => ("requested_bitrate_unsupported", None),
        VulkanVideoProbeBlocker::RateControlUnsupported => ("rate_control_unsupported", None),
        VulkanVideoProbeBlocker::PPictureReferenceUnsupported => ("p_picture_reference_unsupported", None),
        VulkanVideoProbeBlocker::GopRemainingFramesRequired => ("gop_remaining_frames_required", None),
        VulkanVideoProbeBlocker::SeparateReferenceImagesUnsupported => ("separate_reference_images_unsupported", None),
        VulkanVideoProbeBlocker::SliceUnsupported => ("slice_unsupported", None),
        VulkanVideoProbeBlocker::TemporalLayerUnsupported => ("temporal_layer_unsupported", None),
    }
}

pub fn probe_reason(error: &VulkanVideoProbeBlocker) -> (result: (&'static str, Option<i32>))
    ensures
        result == blocker_code(*error),
{
    match error {
        VulkanVideoProbeBlocker::InvalidRequest => ("invalid_request", None),
        VulkanVideoProbeBlocker::LoaderUnavailable => ("loader_unavailable", None),
        VulkanVideoProbeBlocker::LoaderSymbolUnavailable(_) => ("loader_symbol_unavailable", None),
        VulkanVideoProbeBlocker::InstanceCreationFailed(result) => ("instance_creation_failed", Some(*result)),
        VulkanVideoProbeBlocker::PhysicalDeviceEnumerationFailed(result) => ("physical_device_enumeration_failed", Some(*result)),
        VulkanVideoProbeBlocker::NoSupportedPhysicalDevice => ("no_supported_physical_device", None),
        VulkanVideoProbeBlocker::Vulkan13Unsupported => ("vulkan13_unsupported", None),
        VulkanVideoProbeBlocker::Synchronization2Unsupported => ("synchronization2_unsupported", None),
        VulkanVideoProbeBlocker::DeviceExtensionEnumerationFailed(result) => ("device_extension_enumeration_failed", Some(*result)),
        VulkanVideoProbeBlocker::MissingDeviceExtension(_) => ("missing_device_extension", None),
        VulkanVideoProbeBlocker::HardwareH264CodecUnavailable => ("hardware_h264_codec_unavailable", None),
        VulkanVideoProbeBlocker::DmaBufStorageBufferImportUnsupported => ("dma_buf_storage_buffer_import_unsupported", None),
        VulkanVideoProbeBlocker::QueueFamilyEnumerationFailed => ("queue_family_enumeration_failed", None),
        VulkanVideoProbeBlocker::NoH264EncodeQueue => ("no_h264_encode_queue", None),
        VulkanVideoProbeBlocker::NoComputeQueue => ("no_compute_queue", None),
        VulkanVideoProbeBlocker::H264ProfileUnsupported(result) => ("h264_profile_unsupported", Some(*result)),
        VulkanVideoProbeBlocker::H264LevelUnsupported { .. } => ("h264_level_unsupported", None),
        VulkanVideoProbeBlocker::CodedExtentUnsupported => ("coded_extent_unsupported", None),
        VulkanVideoProbeBlocker::VideoFormatQueryFailed(result) => ("video_format_query_failed", Some(*result)),
        VulkanVideoProbeBlocker::Nv12VideoFormatUnsupported => ("nv12_video_format_unsupported", None),
        VulkanVideoProbeBlocker::ReferencePicturesUnsupported => ("reference_pictures_unsupported", None),
        VulkanVideoProbeBlocker::InvalidStdHeaderVersion => ("invalid_std_header_version", None),
        VulkanVideoProbeBlocker::EncodeFeedbackUnsupported => ("encode_feedback_unsupported", None),
        VulkanVideoProbeBlocker::RequestedBitrateUnsupported => ("requested_bitrate_unsupported", None),
        VulkanVideoProbeBlocker::RateControlUnsupported => ("rate_control_unsupported", None),
        VulkanVideoProbeBlocker::PPictureReferenceUnsupported => ("p_picture_reference_unsupported", None),
        VulkanVideoProbeBlocker::GopRemainingFramesRequired => ("gop_remaining_frames_required", None),
        VulkanVideoProbeBlocker::SeparateReferenceImagesUnsupported => ("separate_reference_images_unsupported", None),
        VulkanVideoProbeBlocker::SliceUnsupported => ("slice_unsupported", None),
        VulkanVideoProbeBlocker::TemporalLayerUnsupported => ("temporal_layer_unsupported", None),
    }
}

/// The code of a failure, with the result of the call that failed. Symbol
/// names and other details are left out; a failed probe is told by its first
/// blocker.
pub open spec fn failure_code(error: VulkanVideoDeviceError) -> (&'static str, Option<i32>) {
    match error {
        VulkanVideoDeviceError::Probe(blockers) => if blockers@.len() == 0 {
            ("probe_failed", None)
        } else {
            blocker_code(blockers@[0])
        },
        VulkanVideoDeviceError::LoaderUnavailable => ("loader_unavailable", None),
        VulkanVideoDeviceError::LoaderSymbolUnavailable(_) => ("loader_symbol_unavailable", None),
        VulkanVideoDeviceError::InstanceCreationFailed(result) => ("instance_creation_failed", Some(result)),
        VulkanVideoDeviceError::PhysicalDeviceEnumerationFailed(result) => ("physical_device_enumeration_failed", Some(result)),
        VulkanVideoDeviceError::SelectedPhysicalDeviceUnavailable => ("selected_physical_device_unavailable", None),
        VulkanVideoDeviceError::LogicalDeviceCreationFailed(result) => ("logical_device_creation_failed", Some(result)),
        VulkanVideoDeviceError::QueueUnavailable => ("queue_unavailable", None),
        VulkanVideoDeviceError::DeviceSymbolUnavailable(_) => ("device_symbol_unavailable", None),
        VulkanVideoDeviceError::VideoSessionCreationFailed(result) => ("video_session_creation_failed", Some(result)),
        VulkanVideoDeviceError::VideoSessionMemoryQueryFailed(result) => ("video_session_memory_query_failed", Some(result)),
        VulkanVideoDeviceError::VideoSessionMemoryBoundExceeded => ("video_session_memory_bound_exceeded", None),
        VulkanVideoDeviceError::DeviceLocalMemoryUnavailable => ("device_local_memory_unavailable", None),
        VulkanVideoDeviceError::VideoSessionMemoryAllocationFailed(result) => ("video_session_memory_allocation_failed", Some(result)),
        VulkanVideoDeviceError::VideoSessionMemoryBindFailed(result) => ("video_session_memory_bind_failed", Some(result)),
        VulkanVideoDeviceError::SessionParameterCreationFailed(result) => ("session_parameter_creation_failed", Some(result)),
        VulkanVideoDeviceError::SessionParameterReadFailed(result) => ("session_parameter_read_failed", Some(result)),
        VulkanVideoDeviceError::SessionParameterBytesExceeded => ("session_parameter_bytes_exceeded", None),
        VulkanVideoDeviceError::InvalidDmaBufFrame => ("invalid_dma_buf_frame", None),
        VulkanVideoDeviceError::DmaBufSizeUnavailable => ("dma_buf_size_unavailable", None),
        VulkanVideoDeviceError::DmaBufPropertiesFailed(result) => ("dma_buf_properties_failed", Some(result)),
        VulkanVideoDeviceError::ImportedBufferCreationFailed(result) => ("imported_buffer_creation_failed", Some(result)),
        VulkanVideoDeviceError::ImportedMemoryTypeUnavailable => ("imported_memory_type_unavailable", None),
        VulkanVideoDeviceError::ImportedMemoryAllocationFailed(result) => ("imported_memory_allocation_failed", Some(result)),
        VulkanVideoDeviceError::ImportedBufferBindFailed(result) => ("imported_buffer_bind_failed", Some(result)),
        VulkanVideoDeviceError::InvalidComputeShader => ("invalid_compute_shader", None),
        VulkanVideoDeviceError::ImageCreationFailed(result) => ("image_creation_failed", Some(result)),
        VulkanVideoDeviceError::ImageMemoryTypeUnavailable => ("image_memory_type_unavailable", None),
        VulkanVideoDeviceError::ImageMemoryAllocationFailed(result) => ("image_memory_allocation_failed", Some(result)),
        VulkanVideoDeviceError::ImageMemoryBindFailed(result) => ("image_memory_bind_failed", Some(result)),
        VulkanVideoDeviceError::ImageViewCreationFailed(result) => ("image_view_creation_failed", Some(result)),
        VulkanVideoDeviceError::SamplerCreationFailed(result) => ("sampler_creation_failed", Some(result)),
        VulkanVideoDeviceError::DescriptorSetLayoutCreationFailed(result) => ("descriptor_set_layout_creation_failed", Some(result)),
        VulkanVideoDeviceError::DescriptorPoolCreationFailed(result) => ("descriptor_pool_creation_failed", Some(result)),
        VulkanVideoDeviceError::DescriptorSetAllocationFailed(result) => ("descriptor_set_allocation_failed", Some(result)),
        VulkanVideoDeviceError::PipelineLayoutCreationFailed(result) => ("pipeline_layout_creation_failed", Some(result)),
        VulkanVideoDeviceError::ShaderModuleCreationFailed(result) => ("shader_module_creation_failed", Some(result)),
        VulkanVideoDeviceError::ComputePipelineCreationFailed(result) => ("compute_pipeline_creation_failed", Some(result)),
        VulkanVideoDeviceError::CommandPoolCreationFailed(result) => ("command_pool_creation_failed", Some(result)),
        VulkanVideoDeviceError::CommandBufferAllocationFailed(result) => ("command_buffer_allocation_failed", Some(result)),
        VulkanVideoDeviceError::SemaphoreCreationFailed(result) => ("semaphore_creation_failed", Some(result)),
        VulkanVideoDeviceError::FenceCreationFailed(result) => ("fence_creation_failed", Some(result)),
        VulkanVideoDeviceError::DeviceWaitFailed(result) => ("device_wait_failed", Some(result)),
        VulkanVideoDeviceError::BitstreamBufferCreationFailed(result) => ("bitstream_buffer_creation_failed", Some(result)),
        VulkanVideoDeviceError::BitstreamMemoryTypeUnavailable => ("bitstream_memory_type_unavailable", None),
        VulkanVideoDeviceError::BitstreamMemoryAllocationFailed(result) => ("bitstream_memory_allocation_failed", Some(result)),
        VulkanVideoDeviceError::BitstreamBufferBindFailed(result) => ("bitstream_buffer_bind_failed", Some(result)),
        VulkanVideoDeviceError::BitstreamMapFailed(result) => ("bitstream_map_failed", Some(result)),
        VulkanVideoDeviceError::EncodeQueryPoolCreationFailed(result) => ("encode_query_pool_creation_failed", Some(result)),
        VulkanVideoDeviceError::EncodeFeedbackUnsupported => ("encode_feedback_unsupported", None),
        VulkanVideoDeviceError::FenceWaitFailed(result) => ("fence_wait_failed", Some(result)),
        VulkanVideoDeviceError::FenceResetFailed(result) => ("fence_reset_failed", Some(result)),
        VulkanVideoDeviceError::CommandBufferResetFailed(result) => ("command_buffer_reset_failed", Some(result)),
        VulkanVideoDeviceError::CommandBufferBeginFailed(result) => ("command_buffer_begin_failed", Some(result)),
        VulkanVideoDeviceError::CommandBufferEndFailed(result) => ("command_buffer_end_failed", Some(result)),
        VulkanVideoDeviceError::QueueSubmissionFailed(result) => ("queue_submission_failed", Some(result)),
        VulkanVideoDeviceError::EncodeFeedbackReadFailed(result) => ("encode_feedback_read_failed", Some(result)),
        VulkanVideoDeviceError::EncodedBytesExceeded => ("encoded_bytes_exceeded", None),
        VulkanVideoDeviceError::EncoderPoisoned => ("encoder_poisoned", None),
    }
}

pub fn device_reason(error: &VulkanVideoDeviceError) -> (result: (&'static str, Option<i32>))
    ensures
        result == failure_code(*error),
{
    match error {
        VulkanVideoDeviceError::Probe(blockers) => if blockers.len() == 0 {
            ("probe_failed", None)
        } else {
            probe_reason(&blockers[0])
        },
        VulkanVideoDeviceError::LoaderUnavailable => ("loader_unavailable", None),
        VulkanVideoDeviceError::LoaderSymbolUnavailable(_) => ("loader_symbol_unavailable", None),
        VulkanVideoDeviceError::InstanceCreationFailed(result) => ("instance_creation_failed", Some(*result)),
        VulkanVideoDeviceError::PhysicalDeviceEnumerationFailed(result) => ("physical_device_enumeration_failed", Some(*result)),
        VulkanVideoDeviceError::SelectedPhysicalDeviceUnavailable => ("selected_physical_device_unavailable", None),
        VulkanVideoDeviceError::LogicalDeviceCreationFailed(result) => ("logical_device_creation_failed", Some(*result)),
        VulkanVideoDeviceError::QueueUnavailable => ("queue_unavailable", None),
        VulkanVideoDeviceError::DeviceSymbolUnavailable(_) => ("device_symbol_unavailable", None),
        VulkanVideoDeviceError::VideoSessionCreationFailed(result) => ("video_session_creation_failed", Some(*result)),
        VulkanVideoDeviceError::VideoSessionMemoryQueryFailed(result) => ("video_session_memory_query_failed", Some(*result)),
        VulkanVideoDeviceError::VideoSessionMemoryBoundExceeded => ("video_session_memory_bound_exceeded", None),
        VulkanVideoDeviceError::DeviceLocalMemoryUnavailable => ("device_local_memory_unavailable", None),
        VulkanVideoDeviceError::VideoSessionMemoryAllocationFailed(result) => ("video_session_memory_allocation_failed", Some(*result)),
        VulkanVideoDeviceError::VideoSessionMemoryBindFailed(result) => ("video_session_memory_bind_failed", Some(*result)),
        VulkanVideoDeviceError::SessionParameterCreationFailed(result) => ("session_parameter_creation_failed", Some(*result)),
        VulkanVideoDeviceError::SessionParameterReadFailed(result) => ("session_parameter_read_failed", Some(*result)),
        VulkanVideoDeviceError::SessionParameterBytesExceeded => ("session_parameter_bytes_exceeded", None),
        VulkanVideoDeviceError::InvalidDmaBufFrame => ("invalid_dma_buf_frame", None),
        VulkanVideoDeviceError::DmaBufSizeUnavailable => ("dma_buf_size_unavailable", None),
        VulkanVideoDeviceError::DmaBufPropertiesFailed(result) => ("dma_buf_properties_failed", Some(*result)),
        VulkanVideoDeviceError::ImportedBufferCreationFailed(result) => ("imported_buffer_creation_failed", Some(*result)),
        VulkanVideoDeviceError::ImportedMemoryTypeUnavailable => ("imported_memory_type_unavailable", None),
        VulkanVideoDeviceError::ImportedMemoryAllocationFailed(result) => ("imported_memory_allocation_failed", Some(*result)),
        VulkanVideoDeviceError::ImportedBufferBindFailed(result) => ("imported_buffer_bind_failed", Some(*result)),
        VulkanVideoDeviceError::InvalidComputeShader => ("invalid_compute_shader", None),
        VulkanVideoDeviceError::ImageCreationFailed(result) => ("image_creation_failed", Some(*result)),
        VulkanVideoDeviceError::ImageMemoryTypeUnavailable => ("image_memory_type_unavailable", None),
        VulkanVideoDeviceError::ImageMemoryAllocationFailed(result) => ("image_memory_allocation_failed", Some(*result)),
        VulkanVideoDeviceError::ImageMemoryBindFailed(result) => ("image_memory_bind_failed", Some(*result)),
        VulkanVideoDeviceError::ImageViewCreationFailed(result) => ("image_view_creation_failed", Some(*result)),
        VulkanVideoDeviceError::SamplerCreationFailed(result) => ("sampler_creation_failed", Some(*result)),
        VulkanVideoDeviceError::DescriptorSetLayoutCreationFailed(result) => ("descriptor_set_layout_creation_failed", Some(*result)),
        VulkanVideoDeviceError::DescriptorPoolCreationFailed(result) => ("descriptor_pool_creation_failed", Some(*result)),
        VulkanVideoDeviceError::DescriptorSetAllocationFailed(result) => ("descriptor_set_allocation_failed", Some(*result)),
        VulkanVideoDeviceError::PipelineLayoutCreationFailed(result) => ("pipeline_layout_creation_failed", Some(*result)),
        VulkanVideoDeviceError::ShaderModuleCreationFailed(result) => ("shader_module_creation_failed", Some(*result)),
        VulkanVideoDeviceError::ComputePipelineCreationFailed(result) => ("compute_pipeline_creation_failed", Some(*result)),
        VulkanVideoDeviceError::CommandPoolCreationFailed(result) => ("command_pool_creation_failed", Some(*result)),
        VulkanVideoDeviceError::CommandBufferAllocationFailed(result) => ("command_buffer_allocation_failed", Some(*result)),
        VulkanVideoDeviceError::SemaphoreCreationFailed(result) => ("semaphore_creation_failed", Some(*result)),
        VulkanVideoDeviceError::FenceCreationFailed(result) => ("fence_creation_failed", Some(*result)),
        VulkanVideoDeviceError::DeviceWaitFailed(result) => ("device_wait_failed", Some(*result)),
        VulkanVideoDeviceError::BitstreamBufferCreationFailed(result) => ("bitstream_buffer_creation_failed", Some(*result)),
        VulkanVideoDeviceError::BitstreamMemoryTypeUnavailable => ("bitstream_memory_type_unavailable", None),
        VulkanVideoDeviceError::BitstreamMemoryAllocationFailed(result) => ("bitstream_memory_allocation_failed", Some(*result)),
        VulkanVideoDeviceError::BitstreamBufferBindFailed(result) => ("bitstream_buffer_bind_failed", Some(*result)),
        VulkanVideoDeviceError::BitstreamMapFailed(result) => ("bitstream_map_failed", Some(*result)),
        VulkanVideoDeviceError::EncodeQueryPoolCreationFailed(result) => ("encode_query_pool_creation_failed", Some(*result)),
        VulkanVideoDeviceError::EncodeFeedbackUnsupported => ("encode_feedback_unsupported", None),
        VulkanVideoDeviceError::FenceWaitFailed(result) => ("fence_wait_failed", Some(*result)),
        VulkanVideoDeviceError::FenceResetFailed(result) => ("fence_reset_failed", Some(*result)),
        VulkanVideoDeviceError::CommandBufferResetFailed(result) => ("command_buffer_reset_failed", Some(*result)),
        VulkanVideoDeviceError::CommandBufferBeginFailed(result) => ("command_buffer_begin_failed", Some(*result)),
        VulkanVideoDeviceError::CommandBufferEndFailed(result) => ("command_buffer_end_failed", Some(*result)),
        VulkanVideoDeviceError::QueueSubmissionFailed(result) => ("queue_submission_failed", Some(*result)),
        VulkanVideoDeviceError::EncodeFeedbackReadFailed(result) => ("encode_feedback_read_failed", Some(*result)),
        VulkanVideoDeviceError::EncodedBytesExceeded => ("encoded_bytes_exceeded", None),
        VulkanVideoDeviceError::EncoderPoisoned => ("encoder_poisoned", None),
    }
}

/// How many lines were written, and when the last one was. Times are
/// nanoseconds on a monotonic clock.
#[derive(Clone, Copy, Debug, PartialEq, Eq, Structural)]
pub struct Budget {
    pub emitted: u8,
    pub last: Option<u64>,
}

impl Default for Budget {
    fn default() -> (result: Self)
        ensures
            result == (Budget { emitted: 0, last: None }),
    {
        Budget { emitted: 0, last: None }
    }
}

/// Whether a line may be written now.
pub open spec fn permitted(budget: Budget, selected: bool, now: u64) -> bool {
    &&& selected
    &&& budget.emitted < MAX_LINES
    &&& match budget.last {
        None => true,
        Some(last) => now >= last + LINE_INTERVAL_NS,
    }
}

impl Budget {
    /// Decides whether a line is written, and counts it.
    pub fn permit(&mut self, selected: bool, now: u64) -> (result: bool)
        ensures
            result == permitted(*old(self), selected, now),
            *final(self) == (if result {
                Budget { emitted: (old(self).emitted + 1) as u8, last: Some(now) }
            } else {
                *old(self)
            }),
    {
        if !selected || self.emitted >= MAX_LINES {
            return false;
        }
        if let Some(last) = self.last {
            if now.saturating_sub(last) < LINE_INTERVAL_NS {
                return false;
            }
        }
        self.emitted = self.emitted + 1;
        self.last = Some(now);
        true
    }
}

/// After a line is written, none follows for five seconds, and no more than
/// the limit follow in all.
pub proof fn lines_are_bounded(budget: Budget, selected: bool, now: u64, later: u64)
    requires
        permitted(budget, selected, now),
        later < now + LINE_INTERVAL_NS,
    ensures
        budget.emitted + 1 <= MAX_LINES,
        !permitted(
            Budget { emitted: (budget.emitted + 1) as u8, last: Some(now) },
            selected,
            later,
        ),
{
}

/// A signed number in decimal.
pub open spec fn signed_text(value: int) -> Seq<char> {
    if value < 0 {
        "-"@ + text::decimal((-value) as nat)
    } else {
        text::decimal(value as nat)
    }
}

/// A line of the diagnostic log.
pub open spec fn line_text(stage: Stage, reason: Seq<char>, result: Option<i32>) -> Seq<char> {
    let start = "NVIDIA Replay stage="@ + stage_code(stage)@ + " reason="@ + reason;
    match result {
        None => start,
        Some(result) => start + " vk_result="@ + signed_text(result as int),
    }
}

pub fn line(stage: Stage, reason: &str, result: Option<i32>) -> (line: String)
    ensures
        line@ == line_text(stage, reason@, result),
{
    let mut line = "NVIDIA Replay stage=".to_owned();
    line.append(stage.code());
    line.append(" reason=");
    line.append(reason);
    if let Some(value) = result {
        line.append(" vk_result=");
        if value < 0 {
            let magnitude: u64 = (-(value as i64)) as u64;
            let digits = text::string_of(text::decimal_chars(magnitude).as_slice());
            line.append("-");
            line.append(digits.as_str());
            assert(line@ =~= line_text(stage, reason@, result));
        } else {
            let digits = text::string_of(text::decimal_chars(value as u64).as_slice());
            line.append(digits.as_str());
        }
    }
    line
}

/// What is reported of a failed startup.
#[derive(Debug)]
pub struct StartupReport {
    pub message: String,
    /// The line for the diagnostic log, where one is due.
    pub line: Option<String>,
}

/// Reports a failed startup. On a selected device the message keeps to
/// itself what failed, and the log gets a code; elsewhere the encoder's own
/// message is passed on.
pub fn startup_failure(
    selected: bool,
    stage: Stage,
    error: &VulkanVideoDeviceError,
    own_message: &str,
    budget: &mut Budget,
    now: u64,
) -> (report: StartupReport)
    ensures
        ({
            let (reason, code) = failure_code(*error);
            if !selected {
                report.message@ == own_message@ && report.line is None && *final(budget) == *old(
                    budget,
                )
            } else {
                &&& report.message@ == "Replay hardware encoder startup failed"@
                &&& if permitted(*old(budget), true, now) {
                    &&& report.line matches Some(line) && line@ == line_text(stage, reason@, code)
                    &&& *final(budget) == (Budget {
                        emitted: (old(budget).emitted + 1) as u8,
                        last: Some(now),
                    })
                } else {
                    report.line is None && *final(budget) == *old(budget)
                }
            }
        }),
{
    if !selected {
        return StartupReport { message: own_message.to_owned(), line: None };
    }
    let (reason, code) = device_reason(error);
    let due = if budget.permit(selected, now) {
        Some(line(stage, reason, code))
    } else {
        None
    };
    StartupReport { message: "Replay hardware encoder startup failed".to_owned(), line: due }
}

/// Thirty-two lines are written at most, and five seconds lie between each two.
pub proof fn lines_keep_their_distance(budget: Budget, now: u64)
    ensures
        permitted(budget, true, now) <==> budget.emitted < 32 && (budget.last matches Some(last)
            ==> now - last >= 5 * 1_000_000_000),
        !permitted(budget, false, now),
{
}

/// A refused probe is told by its first blocker, and one with none by itself.
pub proof fn the_first_blocker_is_told(blockers: Vec<VulkanVideoProbeBlocker>)
    ensures
        blockers@.len() > 0 ==> failure_code(VulkanVideoDeviceError::Probe(blockers))
            == blocker_code(blockers@[0]),
        blockers@.len() == 0 ==> failure_code(VulkanVideoDeviceError::Probe(blockers)) == (
            "probe_failed",
            None::<i32>,
        ),
{
}

/// A diagnostic line names the stage and the reason, and the driver's own number
/// where there is one.
pub proof fn lines_name_their_stage(stage: Stage, reason: Seq<char>, code: i32)
    ensures
        line_text(stage, reason, None) == "NVIDIA Replay stage="@ + (match stage {
            Stage::Device => "device"@,
            Stage::Session => "session"@,
            Stage::Parameters => "parameters"@,
            Stage::Encoder => "encoder"@,
            Stage::Backend => "backend"@,
        }) + " reason="@ + reason,
        code >= 0 ==> line_text(stage, reason, Some(code)) == line_text(stage, reason, None)
            + " vk_result="@ + text::decimal(code as nat),
        code < 0 ==> line_text(stage, reason, Some(code)) == line_text(stage, reason, None)
            + " vk_result="@ + ("-"@ + text::decimal((-code) as nat)),
{
}

} // verus!
