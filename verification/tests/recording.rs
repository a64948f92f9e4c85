use redunar::replay_media::{
    EncodedOpusPacket, OpusStreamDescription, ReplayAudioSnapshot, ReplayVideoCodec,
    ReplayVideoStream,
};
use redunar::replay_mp4::{write_audio_video_mp4, write_video_only_mp4, Mp4VideoError};
use redunar::replay_nvidia_diagnostics::{
    device_reason, probe_reason, startup_failure, Budget, Stage, VulkanVideoDeviceError, VulkanVideoProbeBlocker,
};
use redunar::replay_pipeline::{
    in_memory_seconds, ReplayCadence, ReplayEncoderFault, ReplayHardwarePipeline,
    ReplayPipelineError, ReplayPipelinePhase, KEYFRAME_REQUEST_INTERVAL_NS,
};
use redunar::replay_preferences::ReplayOutputFormat;
use redunar::replay_ring::{
    EncodedReplayPacket, ReplayBudget, ReplayPacketError, ReplayPushOutcome, ReplayRing,
    ReplayRingError, ReplayRingStats, MAX_SINGLE_PACKET_BYTES, NANOSECONDS_PER_SECOND,
};
use redunar::replay_runtime::{
    recorder_health, replay_failure, validate_production_readiness, PipelineProgress,
    ProductionReplayRuntime, ReplayBackendReadiness, ReplayCapability, ReplayFailure, ReplayPhase,
    ReplayRecorderHealth, ReplayStanding, MAX_COMMITTED_CLIP_NAMES, RECORDER_STALL_TIMEOUT,
};
use redunar::replay_settings::{ReplayDuration, ReplayQuality, ReplaySettings};
use redunar::replay_spool::ReplaySpoolPhase;
use redunar::replay_vulkan_video::{
    packet_from_annex_b, vulkan_frame, DmaBufImagePlane, DmaBufReplayFrame, ReplayEncoderError,
    VulkanPackedPixelFormat, VulkanVideoEncodedAccessUnit, VulkanVideoFault,
    VulkanVideoH264Backend, VulkanVideoInput, DRM_FORMAT_R8G8B8A8, DRM_FORMAT_XRGB8888,
};
use std::collections::VecDeque;

/// Fifteen seconds at thirty frames and twelve megabits a second.
fn budget() -> ReplayBudget {
    ReplayBudget {
        frame_capacity: 450,
        maximum_ring_bytes: 22_500_000,
    }
}

/// Thirty seconds at sixty frames and twenty-four megabits a second.
fn default_budget() -> ReplayBudget {
    ReplayBudget {
        frame_capacity: 1_800,
        maximum_ring_bytes: 90_000_000,
    }
}

fn settings() -> ReplaySettings {
    ReplaySettings {
        duration: ReplayDuration::Seconds15,
        frame_rate: ReplayCadence::Fixed {
            frames_per_second: 30,
        },
        quality: ReplayQuality::Efficient,
        storage_limit_bytes: 5 * 1_024 * 1_024 * 1_024,
    }
}

fn default_settings() -> ReplaySettings {
    ReplaySettings {
        duration: ReplayDuration::Seconds30,
        frame_rate: ReplayCadence::Fixed {
            frames_per_second: 60,
        },
        quality: ReplayQuality::Balanced,
        ..settings()
    }
}

fn packet(timestamp_ns: u64, keyframe: bool, bytes: usize) -> EncodedReplayPacket {
    EncodedReplayPacket::new(timestamp_ns, 500_000_000, keyframe, vec![7; bytes])
        .expect("valid packet")
}

#[test]
fn malformed_packets_are_rejected_before_allocation_enters_the_ring() {
    assert_eq!(
        EncodedReplayPacket::new(0, 1, true, Vec::new()),
        Err(ReplayPacketError::Empty)
    );
    assert_eq!(
        EncodedReplayPacket::new(0, 0, true, vec![1]),
        Err(ReplayPacketError::InvalidDuration)
    );
    assert_eq!(
        EncodedReplayPacket::new(u64::MAX, 1, true, vec![1]),
        Err(ReplayPacketError::TimestampOverflow)
    );
    assert_eq!(
        EncodedReplayPacket::new(0, 1, true, vec![1; MAX_SINGLE_PACKET_BYTES + 1]),
        Err(ReplayPacketError::TooLarge)
    );
}

#[test]
fn packets_before_the_first_keyframe_are_dropped_without_growth() {
    let mut ring = ReplayRing::new(15, budget());
    assert_eq!(
        ring.push(packet(1, false, 64)),
        Ok(ReplayPushOutcome::DroppedAwaitingKeyframe)
    );
    assert_eq!(ring.stats().stored_packets, 0);
    assert_eq!(ring.stats().dropped_awaiting_keyframe, 1);
    assert_eq!(
        ring.push(packet(2, true, 64)),
        Ok(ReplayPushOutcome::Stored {
            evicted_packets: 0,
            evicted_bytes: 0
        })
    );
    assert!(ring
        .packets()
        .first()
        .expect("stored keyframe")
        .is_keyframe());
}

#[test]
fn non_monotonic_input_does_not_disturb_existing_packets() {
    let mut ring = ReplayRing::new(15, budget());
    ring.push(packet(10, true, 64)).expect("first packet");
    assert_eq!(
        ring.push(packet(10, true, 64)),
        Err(ReplayRingError::NonMonotonicTimestamp)
    );
    assert_eq!(ring.stats().stored_packets, 1);
    assert_eq!(ring.stats().stored_bytes, 64);
}

#[test]
fn monotonicity_survives_packets_dropped_while_awaiting_a_keyframe() {
    let mut ring = ReplayRing::new(15, budget());
    assert_eq!(
        ring.push(packet(10, false, 64)),
        Ok(ReplayPushOutcome::DroppedAwaitingKeyframe)
    );
    assert_eq!(
        ring.push(packet(9, true, 64)),
        Err(ReplayRingError::NonMonotonicTimestamp)
    );
    assert_eq!(ring.stats().stored_packets, 0);
}

#[test]
fn duration_eviction_keeps_a_decodable_keyframe_boundary() {
    let mut ring = ReplayRing::new(15, budget());
    ring.push(packet(0, true, 64)).expect("first keyframe");
    for index in 1..30 {
        ring.push(packet(index * 500_000_000, index == 20, 64))
            .expect("packet");
    }
    ring.push(packet(15_000_000_000, false, 64))
        .expect("evict old duration");
    let packets = ring.packets();
    let first = packets.first().expect("newer keyframe retained");
    assert!(first.is_keyframe());
    assert_eq!(first.timestamp_ns(), 10_000_000_000);
    assert!(ring.stats().evicted_packets > 0);
}

#[test]
fn byte_limit_is_never_exceeded() {
    let mut ring = ReplayRing::new(
        60,
        ReplayBudget {
            frame_capacity: 10,
            maximum_ring_bytes: 128,
        },
    );
    ring.push(packet(0, true, 64)).expect("keyframe");
    ring.push(packet(1, true, 96)).expect("second keyframe");
    assert!(ring.stats().stored_bytes <= 128);
    assert!(ring
        .packets()
        .first()
        .expect("packet retained")
        .is_keyframe());
}

#[test]
fn packet_over_ring_budget_is_rejected_without_advancing_timestamp() {
    let mut ring = ReplayRing::new(
        15,
        ReplayBudget {
            frame_capacity: 450,
            maximum_ring_bytes: 32,
        },
    );
    assert_eq!(
        ring.push(packet(10, true, 64)),
        Err(ReplayRingError::PacketExceedsRingBudget)
    );
    assert_eq!(ring.stats(), ReplayRingStats::default());
    ring.push(packet(10, true, 16))
        .expect("same timestamp remains valid after rejection");
    assert_eq!(ring.stats().stored_packets, 1);
}

#[test]
fn reset_discards_the_old_epoch_and_allows_timestamp_restart() {
    let mut ring = ReplayRing::new(15, budget());
    ring.push(packet(100, true, 64)).expect("old epoch");
    ring.reset_epoch();
    assert_eq!(ring.stats().stored_packets, 0);
    assert_eq!(ring.stats().stored_bytes, 0);
    assert_eq!(ring.stats().evicted_packets, 1);
    assert_eq!(ring.stats().evicted_bytes, 64);
    ring.push(packet(1, true, 64))
        .expect("new epoch timestamp may restart");
    assert_eq!(ring.stats().stored_packets, 1);
}

#[test]
fn ten_minutes_of_packets_retains_only_the_newest_bounded_window() {
    let mut ring = ReplayRing::new(30, default_budget());
    let frame_duration_ns = NANOSECONDS_PER_SECOND / 60;
    for frame in 0..(10 * 60 * 60_u64) {
        ring.push(packet(
            frame.saturating_mul(frame_duration_ns),
            frame % 120 == 0,
            128,
        ))
        .expect("monotonic packet");
    }
    let stats = ring.stats();
    assert!(stats.stored_packets <= default_budget().frame_capacity);
    assert!(stats.stored_bytes <= default_budget().maximum_ring_bytes);
    assert!(stats.evicted_packets > 30_000);
    assert!(ring
        .packets()
        .first()
        .expect("bounded window")
        .is_keyframe());
}

fn stream(width: u32, height: u32) -> ReplayVideoStream {
    ReplayVideoStream {
        codec: ReplayVideoCodec::H264,
        width,
        height,
        frames_per_second: 60,
        codec_private: vec![
            1, 66, 0, 30, 0xff, 0xe1, 0, 2, 0x67, 0x42, 1, 0, 2, 0x68, 0xce,
        ],
    }
}

#[test]
fn fragmented_mp4_contains_initialization_and_media_boxes() {
    let mut ring = ReplayRing::new(30, default_budget());
    for (timestamp, keyframe, nal) in [
        (1_u64, true, 0x65),
        (16_666_668, false, 0x41),
        (2_000_000_001, true, 0x65),
    ] {
        ring.push(
            EncodedReplayPacket::new(timestamp, 16_666_667, keyframe, vec![0, 0, 0, 2, nal, 0x88])
                .expect("packet"),
        )
        .expect("ring");
    }
    let mut output = Vec::new();
    let summary = write_video_only_mp4(&mut output, &stream(1_920, 1_080), &ring).expect("MP4");
    assert_eq!(&output[4..8], b"ftyp");
    for kind in [b"moov", b"avcC", b"moof", b"mdat"] {
        assert!(output.windows(4).any(|window| window == kind));
    }
    assert_eq!(summary.packets, 3);
    assert_eq!(summary.fragments, 2);
    assert_eq!(summary.bytes_written, output.len() as u64);
}

#[test]
fn audio_video_mp4_contains_opus_track_and_audio_fragment() {
    let mut ring = ReplayRing::new(30, default_budget());
    ring.push(
        EncodedReplayPacket::new(1, 16_666_667, true, vec![0, 0, 0, 2, 0x65, 0x88])
            .expect("packet"),
    )
    .expect("ring");
    let audio = ReplayAudioSnapshot {
        stream: OpusStreamDescription {
            sample_rate: 48_000,
            channels: 2,
        },
        packets: vec![EncodedOpusPacket {
            timestamp_ns: 1,
            duration_ns: 20_000_000,
            bytes: vec![0xf8, 0xff, 0xfe],
        }],
    };
    let mut output = Vec::new();
    let summary = write_audio_video_mp4(&mut output, &stream(1_920, 1_080), &ring, &audio)
        .expect("audio/video MP4");
    for kind in [b"Opus", b"dOps", b"soun"] {
        assert!(output.windows(4).any(|window| window == kind));
    }
    assert_eq!(summary.fragments, 2);
}

/// The media data of a file, box after box.
fn media_of(file: &[u8]) -> Vec<u8> {
    let mut media = Vec::new();
    let mut at = 0;
    while at < file.len() {
        let size = u32::from_be_bytes([file[at], file[at + 1], file[at + 2], file[at + 3]]);
        let end = at + size as usize;
        if &file[at + 4..at + 8] == b"mdat" {
            media.extend_from_slice(&file[at + 8..end]);
        }
        at = end;
    }
    media
}

#[test]
fn media_data_is_read_back_in_order() {
    let mut ring = ReplayRing::new(30, default_budget());
    let mut video = Vec::new();
    for (index, keyframe) in [true, false, true, false].into_iter().enumerate() {
        let bytes = vec![0, 0, 0, 2, if keyframe { 0x65 } else { 0x41 }, index as u8];
        video.extend_from_slice(&bytes);
        ring.push(
            EncodedReplayPacket::new(index as u64 * 16_666_667, 16_666_667, keyframe, bytes)
                .expect("packet"),
        )
        .expect("ring");
    }
    let mut output = Vec::new();
    write_video_only_mp4(&mut output, &stream(640, 480), &ring).expect("MP4");
    assert_eq!(media_of(&output), video);

    let audio = ReplayAudioSnapshot {
        stream: OpusStreamDescription {
            sample_rate: 48_000,
            channels: 2,
        },
        packets: [0, 20_000_000, 40_000_000, 900_000_000]
            .into_iter()
            .map(|timestamp_ns: u64| EncodedOpusPacket {
                timestamp_ns,
                duration_ns: 20_000_000,
                bytes: vec![0xf8, (timestamp_ns / 10_000_000) as u8],
            })
            .collect(),
    };
    let mut output = Vec::new();
    write_audio_video_mp4(&mut output, &stream(640, 480), &ring, &audio).expect("MP4");
    let mut expected = video;
    expected.extend_from_slice(&[0xf8, 0, 0xf8, 2, 0xf8, 4]);
    assert_eq!(media_of(&output), expected);
}

#[test]
fn refused_histories_leave_the_destination_alone() {
    let mut ring = ReplayRing::new(30, default_budget());
    ring.push(
        EncodedReplayPacket::new(0, 16_666_667, true, vec![0, 0, 0, 2, 0x65, 0x88])
            .expect("packet"),
    )
    .expect("ring");
    let audio = ReplayAudioSnapshot {
        stream: OpusStreamDescription {
            sample_rate: 48_000,
            channels: 2,
        },
        packets: vec![EncodedOpusPacket {
            timestamp_ns: 0,
            duration_ns: 20_000_000,
            bytes: Vec::new(),
        }],
    };
    let mut output = b"kept".to_vec();
    assert!(matches!(
        write_audio_video_mp4(&mut output, &stream(640, 480), &ring, &audio),
        Err(Mp4VideoError::InvalidPacket)
    ));
    let empty = ReplayRing::new(30, default_budget());
    assert!(write_video_only_mp4(&mut output, &stream(640, 480), &empty).is_err());
    assert_eq!(output, b"kept".to_vec());
    assert!(matches!(
        write_video_only_mp4(&mut output, &stream(65_536, 480), &ring),
        Err(Mp4VideoError::ContainerTooLarge)
    ));
    assert_eq!(output.len(), 4 + 32);
    assert_eq!(&output[8..12], b"ftyp");
}

#[test]
fn stopped_disk_histories_end_the_recording() {
    for (refused, phase) in [
        (true, ReplaySpoolPhase::Running),
        (false, ReplaySpoolPhase::SlowStorage),
        (false, ReplaySpoolPhase::Failed),
        (true, ReplaySpoolPhase::Shutdown),
    ] {
        let mut recording = Recorder::new(FakeBackend::default());
        recording.submit(1, at(1)).expect("frame");
        assert!(matches!(
            recording.pipeline.spool_submitted(refused, phase),
            Err(ReplayPipelineError::Encoder(
                ReplayEncoderFault::BackendFailed
            ))
        ));
        assert_eq!(recording.pipeline.phase(), ReplayPipelinePhase::Failed);
        assert_eq!(recording.pipeline.ring_stats().stored_packets, 0);
        assert_eq!(recording.pipeline.ring_stats().evicted_packets, 1);
    }
    let mut recording = Recorder::new(FakeBackend::default());
    recording.submit(1, at(1)).expect("frame");
    assert!(recording
        .pipeline
        .spool_submitted(false, ReplaySpoolPhase::Running)
        .is_ok());
    assert_eq!(recording.pipeline.ring_stats().stored_packets, 1);
}

#[test]
fn mp4_rejects_empty_or_non_keyframe_history() {
    let empty = ReplayRing::new(30, default_budget());
    assert!(matches!(
        write_video_only_mp4(&mut Vec::new(), &stream(1_920, 1_080), &empty),
        Err(Mp4VideoError::EmptyRing)
    ));
}

#[derive(Default)]
struct FakeBackend {
    shutdowns: usize,
    fail_encode: bool,
    fail_drain: bool,
    fail_shutdown: bool,
    completion_delay: usize,
    pending: VecDeque<(u64, u64, u64, bool)>,
}

type Encoded = (Vec<EncodedReplayPacket>, Vec<u64>);

fn encoded(completed: Vec<(u64, u64, u64, bool)>) -> Encoded {
    let packets = completed
        .iter()
        .map(|(_, timestamp_ns, duration_ns, keyframe)| {
            EncodedReplayPacket::new(
                *timestamp_ns,
                *duration_ns,
                *keyframe,
                vec![0, 0, 0, 2, if *keyframe { 0x65 } else { 0x41 }, 0x88],
            )
            .expect("fake packet")
        })
        .collect();
    let sequences = completed.iter().map(|entry| entry.0).collect();
    (packets, sequences)
}

impl FakeBackend {
    fn encode(&mut self, sequence: u64, timestamp_ns: u64, keyframe: bool) -> Option<Encoded> {
        if self.fail_encode {
            return None;
        }
        let current = (sequence, timestamp_ns, 16_666_667, keyframe);
        if self.completion_delay > 0 {
            let mut completed = Vec::new();
            if self.pending.len() >= self.completion_delay {
                completed.extend(self.pending.pop_front());
            }
            self.pending.push_back(current);
            Some(encoded(completed))
        } else {
            Some(encoded(vec![current]))
        }
    }

    fn drain(&mut self) -> Option<Encoded> {
        if self.fail_drain {
            return None;
        }
        Some(encoded(self.pending.drain(..).collect()))
    }

    fn shutdown(&mut self) -> bool {
        self.shutdowns += 1;
        !self.fail_shutdown
    }
}

const CADENCE: ReplayCadence = ReplayCadence::Fixed {
    frames_per_second: 60,
};

/// A recording with the encoder it drives.
struct Recorder {
    pipeline: ReplayHardwarePipeline,
    backend: FakeBackend,
    backend_gone: bool,
}

impl Recorder {
    fn new(backend: FakeBackend) -> Self {
        Self {
            pipeline: ReplayHardwarePipeline::new(
                stream(1_920, 1_080),
                CADENCE,
                ReplayDuration::Seconds30,
                default_budget(),
            )
            .expect("pipeline"),
            backend,
            backend_gone: false,
        }
    }

    fn release(&mut self) {
        if !self.backend_gone {
            let succeeded = self.backend.shutdown();
            self.backend_gone = true;
            self.pipeline.backend_shut_down(succeeded);
        }
    }

    fn submit(&mut self, sequence: u64, timestamp_ns: u64) -> Result<(), ReplayPipelineError> {
        self.submit_sized(sequence, 1_920, 1_080, timestamp_ns)
    }

    fn submit_sized(
        &mut self,
        sequence: u64,
        width: u32,
        height: u32,
        timestamp_ns: u64,
    ) -> Result<(), ReplayPipelineError> {
        let force = match self
            .pipeline
            .begin_frame(sequence, width, height, timestamp_ns)
        {
            Ok(force) => force,
            Err(error) => {
                self.release();
                return Err(error);
            }
        };
        let Some((packets, completed)) = self.backend.encode(sequence, timestamp_ns, force) else {
            self.pipeline.fail();
            self.release();
            return Err(ReplayPipelineError::Encoder(
                ReplayEncoderFault::BackendFailed,
            ));
        };
        let result = self
            .pipeline
            .finish_frame(timestamp_ns, force, packets, &completed);
        if result.is_err() {
            self.release();
        }
        result
    }

    fn drain(&mut self) -> Result<(), ReplayPipelineError> {
        self.pipeline.check_buffering()?;
        let Some((packets, completed)) = self.backend.drain() else {
            self.pipeline.fail();
            self.release();
            return Err(ReplayPipelineError::Encoder(
                ReplayEncoderFault::BackendFailed,
            ));
        };
        let result = self.pipeline.take_drained(packets, &completed);
        if result.is_err() {
            self.release();
        }
        result
    }

    fn save(&mut self, storage_works: bool) -> Result<Vec<u8>, ReplayPipelineError> {
        self.drain()?;
        self.pipeline.begin_save()?;
        let mut clip = Vec::new();
        let written =
            write_video_only_mp4(&mut clip, self.pipeline.stream(), self.pipeline.ring()).is_ok();
        let succeeded = written && storage_works;
        self.pipeline.end_save(succeeded);
        if !succeeded {
            self.release();
            return Err(ReplayPipelineError::Store);
        }
        Ok(clip)
    }

    fn shutdown(&mut self) -> bool {
        if self.pipeline.phase() == ReplayPipelinePhase::Shutdown {
            self.pipeline.shutdown(true);
            return true;
        }
        let succeeded = self.backend_gone || self.backend.shutdown();
        self.backend_gone = true;
        self.pipeline.shutdown(succeeded);
        succeeded
    }
}

fn at(sequence: u64) -> u64 {
    sequence * 16_666_667
}

#[test]
fn sparse_capture_requests_keyframes_by_presentation_time() {
    let mut recorder = Recorder::new(FakeBackend::default());
    recorder.submit(1, 1).expect("initial keyframe");
    recorder
        .submit(2, KEYFRAME_REQUEST_INTERVAL_NS + 1)
        .expect("time-based keyframe");
    let packets = recorder.pipeline.ring().packets();
    assert_eq!(packets.len(), 2);
    assert!(packets[0].is_keyframe());
    assert!(packets[1].is_keyframe());
}

#[test]
fn dma_buf_frames_flow_through_hardware_backend_ring_and_atomic_save() {
    let mut recorder = Recorder::new(FakeBackend::default());
    recorder.submit(1, at(1)).expect("first frame");
    recorder.submit(2, at(2)).expect("second frame");
    let clip = recorder.save(true).expect("save replay");
    assert_eq!(&clip[4..8], b"ftyp");
    assert_eq!(recorder.pipeline.phase(), ReplayPipelinePhase::Buffering);
    assert_eq!(recorder.pipeline.ring_stats().stored_packets, 2);
    assert!(recorder.shutdown());
    assert_eq!(recorder.backend.shutdowns, 1);
}

#[test]
fn producer_inputs_are_released_only_after_backend_completion_or_safe_shutdown() {
    let mut recorder = Recorder::new(FakeBackend {
        completion_delay: 1,
        ..FakeBackend::default()
    });
    recorder
        .submit(11, at(1))
        .expect("first frame remains in flight");
    assert!(recorder.pipeline.take_completed_inputs().is_empty());
    recorder
        .submit(12, at(2))
        .expect("second frame completes the first");
    assert_eq!(recorder.pipeline.take_completed_inputs(), vec![11]);
    assert!(recorder.shutdown());
    assert_eq!(recorder.pipeline.take_completed_inputs(), vec![12]);
    assert_eq!(recorder.backend.shutdowns, 1);
}

#[test]
fn four_slot_backend_does_not_trip_the_input_completion_guard() {
    let mut recorder = Recorder::new(FakeBackend {
        completion_delay: 4,
        ..FakeBackend::default()
    });
    for sequence in 1..=5 {
        recorder
            .submit(sequence, at(sequence))
            .expect("four-slot submission remains bounded");
    }
    assert_eq!(recorder.pipeline.take_completed_inputs(), vec![1]);
    recorder.save(true).expect("four-slot drain is valid");
    assert_eq!(
        recorder.pipeline.take_completed_inputs(),
        vec![2, 3, 4, 5]
    );
}

#[test]
fn resize_discards_old_epoch_and_accepts_restarted_timestamps() {
    let mut recorder = Recorder::new(FakeBackend::default());
    recorder.submit(10, at(10)).expect("old epoch");
    recorder.pipeline.begin_reset().expect("begin reset");
    let succeeded = recorder.backend.shutdown();
    recorder.pipeline.backend_shut_down(succeeded);
    recorder
        .pipeline
        .complete_reset(stream(1_280, 720), CADENCE)
        .expect("reset");
    assert_eq!(recorder.pipeline.ring_stats().stored_packets, 0);
    recorder
        .submit_sized(1, 1_280, 720, at(1))
        .expect("new epoch");
    assert_eq!(recorder.pipeline.stream().width, 1_280);
    assert_eq!(recorder.pipeline.ring_stats().stored_packets, 1);
    assert_eq!(recorder.backend.shutdowns, 1);
}

#[test]
fn format_change_and_backend_error_fail_closed_and_release_resources() {
    let mut changed = Recorder::new(FakeBackend::default());
    assert!(matches!(
        changed.submit_sized(1, 1_280, 720, at(1)),
        Err(ReplayPipelineError::FrameFormatChanged)
    ));
    assert_eq!(changed.pipeline.phase(), ReplayPipelinePhase::Failed);
    assert_eq!(changed.pipeline.ring_stats().stored_packets, 0);

    let mut failed = Recorder::new(FakeBackend {
        fail_encode: true,
        ..FakeBackend::default()
    });
    assert!(matches!(
        failed.submit(2, at(2)),
        Err(ReplayPipelineError::Encoder(_))
    ));
    assert_eq!(failed.pipeline.phase(), ReplayPipelinePhase::Failed);
    assert_eq!(changed.backend.shutdowns + failed.backend.shutdowns, 2);
}

#[test]
fn empty_save_is_non_terminal_but_bad_frame_timestamp_is_terminal() {
    let mut recorder = Recorder::new(FakeBackend::default());
    assert!(matches!(
        recorder.save(true),
        Err(ReplayPipelineError::NoEncodedFrames)
    ));
    assert_eq!(recorder.pipeline.phase(), ReplayPipelinePhase::Buffering);
    recorder.submit(2, at(2)).expect("first timestamp");
    assert!(matches!(
        recorder.submit(1, at(1)),
        Err(ReplayPipelineError::FrameTimestampNotMonotonic)
    ));
    assert_eq!(recorder.pipeline.phase(), ReplayPipelinePhase::Failed);
    assert_eq!(recorder.backend.shutdowns, 1);
}

#[test]
fn storage_replacement_during_save_fails_closed_and_discards_the_ring() {
    let mut recorder = Recorder::new(FakeBackend::default());
    recorder.submit(1, at(1)).expect("encoded frame");
    assert!(matches!(
        recorder.save(false),
        Err(ReplayPipelineError::Store)
    ));
    assert_eq!(recorder.pipeline.phase(), ReplayPipelinePhase::Failed);
    assert_eq!(recorder.pipeline.ring_stats().stored_packets, 0);
    assert_eq!(recorder.backend.shutdowns, 1);
}

#[test]
fn spooled_save_drain_failure_fails_closed_like_the_normal_save_path() {
    let mut recorder = Recorder::new(FakeBackend {
        fail_drain: true,
        ..FakeBackend::default()
    });
    assert!(matches!(
        recorder.drain(),
        Err(ReplayPipelineError::Encoder(_))
    ));
    assert_eq!(recorder.pipeline.phase(), ReplayPipelinePhase::Failed);
    assert_eq!(recorder.backend.shutdowns, 1);
}

#[test]
fn spooled_save_includes_the_tail_and_forces_a_new_keyframe() {
    let mut recorder = Recorder::new(FakeBackend::default());
    recorder.submit(1, at(1)).expect("active-tail frame");
    recorder
        .submit(60, at(60))
        .expect("one-second active-tail frame");
    recorder.drain().expect("start tail save");
    recorder.pipeline.spool_sealed();
    recorder
        .submit(61, at(61))
        .expect("first post-save frame");
    assert!(recorder
        .pipeline
        .ring()
        .packets()
        .last()
        .expect("post-save packet")
        .is_keyframe());
    assert!(recorder.shutdown());
    assert_eq!(recorder.backend.shutdowns, 1);
}

#[test]
fn shutdown_failure_keeps_unfinished_export_ownership_and_is_idempotent() {
    let mut recorder = Recorder::new(FakeBackend {
        fail_shutdown: true,
        completion_delay: 4,
        ..FakeBackend::default()
    });
    recorder.submit(1, at(1)).expect("in-flight frame");
    assert!(!recorder.shutdown());
    assert_eq!(recorder.pipeline.phase(), ReplayPipelinePhase::Shutdown);
    assert!(recorder.pipeline.take_completed_inputs().is_empty());
    assert!(recorder.shutdown());
    assert_eq!(recorder.backend.shutdowns, 1);
}

#[test]
fn long_replay_setting_keeps_the_hardware_ring_at_the_two_minute_cap() {
    assert_eq!(in_memory_seconds(ReplayDuration::Seconds900), 120);
    assert_eq!(in_memory_seconds(ReplayDuration::Seconds30), 30);
    let expected = ReplayBudget {
        frame_capacity: 7_200,
        maximum_ring_bytes: 360_000_000,
    };
    let pipeline = ReplayHardwarePipeline::new(
        stream(1_920, 1_080),
        CADENCE,
        ReplayDuration::Seconds900,
        expected,
    )
    .expect("pipeline");
    assert_eq!(pipeline.ring().packet_capacity(), expected.frame_capacity);
    assert_eq!(pipeline.ring().byte_capacity(), expected.maximum_ring_bytes);
}

#[test]
fn another_cadence_is_no_backend_for_the_recording() {
    assert!(matches!(
        ReplayHardwarePipeline::new(
            stream(1_920, 1_080),
            ReplayCadence::Fixed {
                frames_per_second: 30
            },
            ReplayDuration::Seconds30,
            default_budget(),
        ),
        Err(ReplayPipelineError::BackendStreamMismatch)
    ));
}

#[test]
fn pipeline_window_and_lifecycle_errors() {
    let mut recorder = Recorder::new(FakeBackend::default());
    assert_eq!(recorder.pipeline.audio_window(), (0, 0));
    recorder.submit(1, 100).expect("frame");
    recorder.submit(2, 16_666_767).expect("frame");
    assert_eq!(recorder.pipeline.audio_window(), (100, 33_333_434));
    assert!(matches!(
        recorder.submit(0, at(3)),
        Err(ReplayPipelineError::Encoder(
            ReplayEncoderFault::InvalidInputCompletion
        ))
    ));
    assert!(matches!(
        recorder.submit(5, at(5)),
        Err(ReplayPipelineError::InvalidLifecycle)
    ));
    assert_eq!(
        ReplayPipelineError::NoEncodedFrames.message(),
        "the rolling replay buffer has no decodable encoded frames"
    );
}

#[test]
fn unavailable_runtime_refuses_frame_and_save_without_mutating_capability() {
    let mut runtime = ProductionReplayRuntime::unavailable(default_settings(), default_budget());
    assert!(runtime.save().is_err());
    let status = runtime.status(None, 0);
    assert_eq!(status.standing.phase, ReplayPhase::Unavailable);
    assert!(!status.standing.backend_readiness.activation_allowed());
    assert_eq!(status.standing.settings, default_settings());
    assert_eq!(status.standing.budget, default_budget());
    assert_eq!(
        runtime.submit_frame().expect_err("no pipeline").message(),
        "Instant Replay is not recording"
    );
}

#[test]
fn unavailable_runtime_shutdown_is_idempotent() {
    let mut runtime = ProductionReplayRuntime::unavailable(default_settings(), default_budget());
    runtime.shutdown(&[]).expect("first shutdown");
    runtime.shutdown(&[]).expect("second shutdown");
    assert_eq!(
        runtime.status(None, 0).standing.phase,
        ReplayPhase::Unavailable
    );
}

#[test]
fn headless_foundation_cannot_open_the_production_gate() {
    let error = validate_production_readiness(ReplayBackendReadiness::headless_foundation())
        .expect_err("headless readiness must remain unavailable");
    assert!(error.message().contains("has not passed"));
}

#[test]
fn complete_internal_attestation_passes_the_activation_preflight() {
    validate_production_readiness(ReplayBackendReadiness::fully_verified())
        .expect("complete internal attestation");
}

#[test]
fn recorder_health_requires_recent_encoded_progress() {
    assert_eq!(
        recorder_health(ReplayPhase::Buffering, 0, None),
        ReplayRecorderHealth::Starting
    );
    assert_eq!(
        recorder_health(ReplayPhase::Buffering, 10, Some(RECORDER_STALL_TIMEOUT)),
        ReplayRecorderHealth::Healthy
    );
    assert_eq!(
        recorder_health(
            ReplayPhase::Buffering,
            10,
            Some(RECORDER_STALL_TIMEOUT + 1_000_000)
        ),
        ReplayRecorderHealth::Stalled
    );
}

fn recording_runtime() -> ProductionReplayRuntime {
    let mut runtime = ProductionReplayRuntime::unavailable(default_settings(), default_budget());
    runtime
        .start_validated_pipeline(
            default_settings(),
            default_budget(),
            ReplayBackendReadiness::fully_verified(),
            true,
        )
        .expect("validated pipeline");
    runtime
}

#[test]
fn pipelines_start_only_once_and_only_with_a_spool() {
    let mut runtime = ProductionReplayRuntime::unavailable(default_settings(), default_budget());
    let candidate = ReplayBackendReadiness {
        performance_verified: false,
        ..ReplayBackendReadiness::fully_verified()
    };
    assert_eq!(
        runtime
            .start_validated_pipeline(settings(), budget(), candidate, false)
            .expect_err("no spool")
            .message(),
        "an Instant Replay backend must include the bounded disk spool"
    );
    assert!(runtime
        .start_validated_pipeline(
            settings(),
            budget(),
            ReplayBackendReadiness::headless_foundation(),
            true,
        )
        .is_err());
    runtime
        .start_validated_pipeline(settings(), budget(), candidate, true)
        .expect("candidate");
    assert!(runtime.is_recording());
    assert_eq!(
        runtime.status(None, 0).standing.capability,
        ReplayCapability::ValidationCandidate
    );
    assert_eq!(runtime.status(None, 0).standing.settings, settings());
    assert_eq!(runtime.status(None, 0).standing.budget, budget());
    assert_eq!(
        runtime
            .start_validated_pipeline(settings(), budget(), candidate, true)
            .expect_err("second pipeline")
            .message(),
        "an Instant Replay backend is already active"
    );
}

#[test]
fn status_follows_encoded_progress() {
    let mut runtime = recording_runtime();
    runtime.submit_frame().expect("frame");
    let progress = PipelineProgress {
        buffered_duration_ns: 5,
        accepted_packets: 3,
        audio_packets: 2,
        audio_bytes: 9,
    };
    let fresh = runtime.status(Some(progress), 100);
    assert_eq!(fresh.recorder_health, ReplayRecorderHealth::Healthy);
    assert_eq!(fresh.received_frame_count, 1);
    assert_eq!(fresh.encoded_packet_count, 3);
    assert_eq!(fresh.audio_byte_count, 9);
    let stale = runtime.status(Some(progress), 101 + RECORDER_STALL_TIMEOUT);
    assert_eq!(stale.recorder_health, ReplayRecorderHealth::Stalled);
}

#[test]
fn failed_saves_keep_recording_and_committed_names_are_bounded() {
    let mut runtime = recording_runtime();
    assert_eq!(runtime.save(), Ok(ReplayOutputFormat::Matroska));
    assert_eq!(
        runtime
            .save_started(
                &[],
                Some((ReplayPipelineError::InsufficientHistory, "too short")),
                &[],
            )
            .expect_err("short history")
            .message(),
        "too short"
    );
    assert!(runtime.is_recording());
    runtime.save_started(&[], None, &[]).expect("assembling");
    assert_eq!(
        runtime.save().expect_err("one at a time").message(),
        "an Instant Replay clip is already being saved"
    );
    runtime.save_failed();
    let status = runtime.status(None, 0).standing;
    assert_eq!(status.phase, ReplayPhase::Buffering);
    assert_eq!(status.last_failure, Some(ReplayFailure::StorageFailed));
    assert!(runtime.is_recording());
    for index in 0..MAX_COMMITTED_CLIP_NAMES + 1 {
        runtime.save_started(&[], None, &[]).expect("assembling");
        runtime.save_committed(Some(&format!("clip-{index}")));
    }
    let names = runtime.take_committed_clip_names();
    assert_eq!(names.len(), MAX_COMMITTED_CLIP_NAMES);
    assert_eq!(names[0], "clip-1");
    assert_eq!(names[31], "clip-32");
    assert!(runtime.take_committed_clip_names().is_empty());
    assert_eq!(runtime.status(None, 0).standing.completed_save_revision, 33);
}

#[test]
fn a_failed_frame_ends_the_pipeline_and_returns_its_exports() {
    let mut runtime = recording_runtime();
    runtime.frame_finished(&[1, 2], None, &[]).expect("frame");
    assert_eq!(
        runtime
            .frame_finished(&[3], Some("encoder gave up"), &[4])
            .expect_err("failure")
            .message(),
        "encoder gave up"
    );
    assert!(!runtime.is_recording());
    assert_eq!(runtime.take_completed_exports(), vec![1, 2, 3, 4]);
    assert_eq!(
        runtime.save().expect_err("failed").message(),
        "Instant Replay stopped after a recording error"
    );
    let mut full = recording_runtime();
    assert_eq!(
        full.enqueue_completed(&[0; 9])
            .expect_err("bounded")
            .message(),
        "Instant Replay completion queue exceeded its fixed bound"
    );
    assert_eq!(
        replay_failure(&ReplayPipelineError::Spool),
        ReplayFailure::StorageFailed
    );
    assert_eq!(
        replay_failure(&ReplayPipelineError::Audio),
        ReplayFailure::EncoderFailed
    );
}

#[test]
fn a_shut_down_recorder_can_be_configured_again() {
    let mut runtime = recording_runtime();
    let standing = ReplayStanding {
        phase: ReplayPhase::Inactive,
        capability: ReplayCapability::Available,
        backend_readiness: ReplayBackendReadiness::fully_verified(),
        last_failure: None,
        completed_save_revision: 7,
        settings: settings(),
        budget: budget(),
    };
    runtime.configure(standing);
    assert_eq!(
        runtime.status(None, 0).standing.phase,
        ReplayPhase::Buffering
    );
    runtime.shutdown(&[5]).expect("shutdown");
    assert_eq!(
        runtime.status(None, 0).standing.phase,
        ReplayPhase::Inactive
    );
    runtime.configure(standing);
    assert_eq!(runtime.status(None, 0).standing, standing);
    runtime.set_output_format(ReplayOutputFormat::Mp4);
    assert_eq!(runtime.output_format(), ReplayOutputFormat::Mp4);
}

#[test]
fn access_unit_is_converted_and_keyframe_is_derived_from_idr() {
    let packet = packet_from_annex_b(42, 16_666_667, true, &[0, 0, 0, 1, 0x65, 0x88, 0x84])
        .expect("IDR access unit");
    assert!(packet.is_keyframe());
    assert_eq!(packet.timestamp_ns(), 42);
    assert_eq!(packet.bytes(), &[0, 0, 0, 3, 0x65, 0x88, 0x84]);
}

#[test]
fn requested_keyframe_without_idr_fails_closed() {
    let error = packet_from_annex_b(42, 16_666_667, true, &[0, 0, 0, 1, 0x41, 0x9a, 0x20])
        .expect_err("non-IDR response");
    assert!(matches!(error, ReplayEncoderError::BackendFailed(_)));
}

#[test]
fn ordinary_p_picture_remains_valid_when_no_keyframe_was_requested() {
    let packet = packet_from_annex_b(58, 16_666_667, false, &[0, 0, 1, 0x41, 0x9a, 0x20])
        .expect("P-picture access unit");
    assert!(!packet.is_keyframe());
}

#[test]
fn access_units_of_several_parts_are_prefixed_one_by_one() {
    let packet = packet_from_annex_b(
        1,
        1,
        false,
        &[0, 0, 0, 1, 0x67, 1, 0, 0, 0, 1, 0x68, 0, 0, 1, 0x65, 2, 0],
    )
    .expect("access unit");
    assert!(packet.is_keyframe());
    assert_eq!(
        packet.bytes(),
        &[0, 0, 0, 2, 0x67, 1, 0, 0, 0, 1, 0x68, 0, 0, 0, 2, 0x65, 2]
    );
    for malformed in [
        &[][..],
        &[0x65, 0x88][..],
        &[9, 0, 0, 1, 0x65][..],
        &[0, 0, 1][..],
        &[0, 0, 1, 0, 0, 1, 0x65][..],
    ] {
        assert_eq!(
            packet_from_annex_b(1, 1, false, malformed),
            Err(ReplayEncoderError::InvalidAccessUnit)
        );
    }
    assert_eq!(
        packet_from_annex_b(1, 0, false, &[0, 0, 1, 0x65]),
        Err(ReplayEncoderError::Packet(
            ReplayPacketError::InvalidDuration
        ))
    );
}

fn shared_frame(drm_fourcc: u32, modifier: u64, object_index: u32) -> DmaBufReplayFrame {
    DmaBufReplayFrame {
        width: 320,
        height: 240,
        drm_fourcc,
        modifier,
        timestamp_ns: 1,
        duration_ns: 16_666_667,
        objects: 1,
        image_planes: vec![DmaBufImagePlane {
            object_index,
            offset: 0,
            stride: 1_280,
        }],
    }
}

#[test]
fn kms_frame_keeps_modifier_image_import_instead_of_buffer_import() {
    let frame = shared_frame(DRM_FORMAT_XRGB8888, 0x0200_0000_0000_0001, 0);
    assert!(matches!(
        vulkan_frame(&frame).expect("Vulkan KMS frame"),
        VulkanVideoInput::DrmImage { .. }
    ));
    let packed = vulkan_frame(&shared_frame(DRM_FORMAT_R8G8B8A8, 0, 0)).expect("packed frame");
    assert!(matches!(
        packed,
        VulkanVideoInput::Buffer {
            format: VulkanPackedPixelFormat::Rgba8,
            ..
        }
    ));
    for refused in [
        shared_frame(DRM_FORMAT_XRGB8888, 0, 1),
        shared_frame(DRM_FORMAT_R8G8B8A8, 1, 0),
        shared_frame(0, 0, 0),
    ] {
        assert_eq!(
            vulkan_frame(&refused),
            Err(ReplayEncoderError::InvalidDmaBufFrame)
        );
    }
}

fn access_unit(timestamp_ns: u64) -> VulkanVideoEncodedAccessUnit {
    VulkanVideoEncodedAccessUnit {
        timestamp_ns,
        duration_ns: 16_666_667,
        requested_keyframe: false,
        annex_b: vec![0, 0, 1, 0x65, 0x88],
    }
}

#[test]
fn backend_resolves_frames_and_stays_failed() {
    let mut backend = VulkanVideoH264Backend::new(stream(320, 240));
    let frame = shared_frame(DRM_FORMAT_R8G8B8A8, 0, 0);
    backend.begin_encode(&frame).expect("frame");
    let (packets, completed) = backend.finish_encode(1, 11, &[]).expect("in flight");
    assert!(packets.is_empty() && completed.is_empty());
    let (packets, completed) = backend
        .finish_encode(2, 12, &[access_unit(1)])
        .expect("first completes");
    assert_eq!(packets.len(), 1);
    assert_eq!(completed, vec![11]);
    assert_eq!(
        backend.drain(&[]),
        Err(ReplayEncoderError::InvalidInputCompletion)
    );
    assert_eq!(
        backend.begin_drain(),
        Err(ReplayEncoderError::BackendFailed(
            VulkanVideoFault::FailedState
        ))
    );
    assert!(!backend.begin_shutdown());

    let mut other = VulkanVideoH264Backend::new(stream(320, 240));
    assert_eq!(
        other.finish_encode(2, 12, &[access_unit(1)]),
        Err(ReplayEncoderError::InvalidInputCompletion)
    );
    let mut stopped = VulkanVideoH264Backend::new(stream(320, 240));
    assert_eq!(
        stopped.shutdown(None),
        Err(ReplayEncoderError::BackendFailed(
            VulkanVideoFault::ShutdownDrain
        ))
    );
    assert_eq!(stopped.shutdown(None), Ok(()));
    let mut clean = VulkanVideoH264Backend::new(stream(320, 240));
    assert_eq!(clean.shutdown(Some(&[])), Ok(()));
    assert_eq!(
        clean.begin_encode(&frame),
        Err(ReplayEncoderError::BackendFailed(VulkanVideoFault::ShutDown))
    );
    assert_eq!(
        clean.device_failed(VulkanVideoFault::Drain),
        ReplayEncoderError::BackendFailed(VulkanVideoFault::Drain)
    );
}

#[test]
fn diagnostics_are_coded_and_limited() {
    assert_eq!(
        probe_reason(&VulkanVideoProbeBlocker::InstanceCreationFailed(-7)),
        ("instance_creation_failed", Some(-7))
    );
    assert_eq!(
        device_reason(&VulkanVideoDeviceError::QueueUnavailable),
        ("queue_unavailable", None)
    );
    let mut budget = Budget::default();
    assert!(!budget.permit(false, 0));
    assert!(budget.permit(true, 0));
    assert!(!budget.permit(true, 4_999_999_999));
    assert!(budget.permit(true, 5_000_000_000));
    let error = VulkanVideoDeviceError::InstanceCreationFailed(-3);
    let quiet = startup_failure(false, Stage::Device, &error, "own words", &mut budget, u64::MAX);
    assert_eq!(quiet.message, "own words");
    assert_eq!(quiet.line, None);
    let told = startup_failure(true, Stage::Device, &error, "own words", &mut budget, u64::MAX);
    assert_eq!(told.message, "Replay hardware encoder startup failed");
    let line = told.line.expect("a line is due");
    assert!(line.starts_with("NVIDIA Replay stage="));
    assert!(line.contains("reason=instance_creation_failed"));
    assert!(line.contains("-3"));
}
