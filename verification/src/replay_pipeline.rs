//! Decisions of the recording pipeline around a hardware encoder.
use crate::replay_media;
use crate::replay_media::{ReplayVideoCodec, ReplayVideoStream};
use crate::replay_ring;
use crate::replay_ring::{
    EncodedReplayPacket, PacketView, ReplayBudget, ReplayRing, ReplayRingError, ReplayRingStats,
    RingState,
};
use crate::replay_settings;
use crate::replay_settings::ReplayDuration;
use crate::replay_spool::ReplaySpoolPhase;
use vstd::prelude::*;

verus! {

pub const MAX_IN_MEMORY_SECONDS: u32 = 120;

/// How many frames an encoder may hold: the library's own bound.
pub const MAX_TRACKED_INPUTS: usize = 4;

/// How many finished frames may wait to be taken.
pub const MAX_COMPLETED_INPUTS: usize = 8;

pub const KEYFRAME_REQUEST_INTERVAL_NS: u64 = 2_000_000_000;

#[derive(Clone, Copy, Debug, PartialEq, Eq, Structural)]
pub enum ReplayPipelinePhase {
    Buffering,
    Saving,
    Resetting,
    Failed,
    Shutdown,
}

/// What went wrong with an encoder or its output.
#[derive(Clone, Copy, Debug, PartialEq, Eq, Structural)]
pub enum ReplayEncoderFault {
    InvalidInputCompletion,
    InvalidPacket,
    Ring(ReplayRingError),
    BackendFailed,
}

#[derive(Clone, Copy, Debug, PartialEq, Eq, Structural)]
pub enum ReplayPipelineError {
    InvalidLifecycle,
    BackendStreamMismatch,
    FrameFormatChanged,
    FrameTimestampNotMonotonic,
    NoEncodedFrames,
    InsufficientHistory,
    Encoder(ReplayEncoderFault),
    Spool,
    Store,
    Audio,
}

impl ReplayPipelineError {
    /// The user-facing sentence. For the errors of another part it is the
    /// start, which that part's own explanation completes.
    pub fn message(&self) -> (result: &'static str)
        ensures
            result@ == match *self {
                ReplayPipelineError::InvalidLifecycle => "replay pipeline lifecycle is invalid"@,
                ReplayPipelineError::BackendStreamMismatch => "hardware encoder stream does not match replay settings"@,
                ReplayPipelineError::FrameFormatChanged => "exported DMA-BUF dimensions changed before the replay pipeline was reset"@,
                ReplayPipelineError::FrameTimestampNotMonotonic => "exported DMA-BUF timestamp is not monotonic"@,
                ReplayPipelineError::NoEncodedFrames => "the rolling replay buffer has no decodable encoded frames"@,
                ReplayPipelineError::InsufficientHistory => "Instant Replay is still buffering; wait at least one second before saving"@,
                ReplayPipelineError::Encoder(_) => "replay encoder pipeline failed: "@,
                ReplayPipelineError::Spool => "replay disk history failed: "@,
                ReplayPipelineError::Store => "replay clip save failed: "@,
                ReplayPipelineError::Audio => "replay audio failed: "@,
            },
    {
        match self {
            ReplayPipelineError::InvalidLifecycle => "replay pipeline lifecycle is invalid",
            ReplayPipelineError::BackendStreamMismatch => "hardware encoder stream does not match replay settings",
            ReplayPipelineError::FrameFormatChanged => "exported DMA-BUF dimensions changed before the replay pipeline was reset",
            ReplayPipelineError::FrameTimestampNotMonotonic => "exported DMA-BUF timestamp is not monotonic",
            ReplayPipelineError::NoEncodedFrames => "the rolling replay buffer has no decodable encoded frames",
            ReplayPipelineError::InsufficientHistory => "Instant Replay is still buffering; wait at least one second before saving",
            ReplayPipelineError::Encoder(_) => "replay encoder pipeline failed: ",
            ReplayPipelineError::Spool => "replay disk history failed: ",
            ReplayPipelineError::Store => "replay clip save failed: ",
            ReplayPipelineError::Audio => "replay audio failed: ",
        }
    }
}

/// The cadence that a recording asks of its encoder. A variable cadence
/// depends on the size of the picture.
#[derive(Clone, Copy, Debug, PartialEq, Eq, Structural)]
pub enum ReplayCadence {
    Fixed { frames_per_second: u16 },
    Variable { maximum_frames_per_second: u8 },
}

/// Whether a stream has the cadence that is asked for.
pub open spec fn stream_matches(stream: ReplayVideoStream, cadence: ReplayCadence) -> bool {
    match cadence {
        ReplayCadence::Fixed { frames_per_second } => stream.frames_per_second as int
            == frames_per_second,
        ReplayCadence::Variable { maximum_frames_per_second } => stream.codec
            == ReplayVideoCodec::H264 && stream.frames_per_second == maximum_frames_per_second,
    }
}

pub fn stream_matches_settings(stream: &ReplayVideoStream, cadence: ReplayCadence) -> (result: bool)
    ensures
        result == stream_matches(*stream, cadence),
{
    match cadence {
        ReplayCadence::Fixed { frames_per_second } => stream.frames_per_second as u16
            == frames_per_second,
        ReplayCadence::Variable { maximum_frames_per_second } => stream.codec
            == ReplayVideoCodec::H264 && stream.frames_per_second == maximum_frames_per_second,
    }
}

/// The time from the first packet of a history to the end of its last.
pub open spec fn covered(history: Seq<PacketView>) -> (u64, u64) {
    if history.len() == 0 {
        (0, 0)
    } else {
        (
            history[0].timestamp_ns,
            (history.last().timestamp_ns + history.last().duration_ns) as u64,
        )
    }
}

/// The seconds of history that are kept in memory.
pub open spec fn memory_seconds(duration: ReplayDuration) -> u32 {
    if replay_settings::duration_seconds(duration) > MAX_IN_MEMORY_SECONDS {
        MAX_IN_MEMORY_SECONDS
    } else {
        replay_settings::duration_seconds(duration)
    }
}

pub fn in_memory_seconds(duration: ReplayDuration) -> (result: u32)
    ensures
        result == memory_seconds(duration),
{
    if duration.seconds() > MAX_IN_MEMORY_SECONDS {
        MAX_IN_MEMORY_SECONDS
    } else {
        duration.seconds()
    }
}

/// The state of a recording between calls of its encoder.
pub struct ReplayHardwarePipeline {
    stream: ReplayVideoStream,
    ring: ReplayRing,
    phase: ReplayPipelinePhase,
    last_frame_timestamp_ns: Option<u64>,
    last_keyframe_request_timestamp_ns: Option<u64>,
    in_flight_inputs: Vec<u64>,
    completed_inputs: Vec<u64>,
}

/// What a [`ReplayHardwarePipeline`] holds.
#[verifier::ext_equal]
pub ghost struct PipelineState {
    pub stream: ReplayVideoStream,
    pub ring: RingState,
    /// The lifetime counters of the ring.
    pub counters: ReplayRingStats,
    pub phase: ReplayPipelinePhase,
    pub last_frame_timestamp_ns: Option<u64>,
    pub last_keyframe_request_timestamp_ns: Option<u64>,
    /// Frames that the encoder holds, oldest first.
    pub in_flight: Seq<u64>,
    /// Frames that were given back and wait to be taken.
    pub completed: Seq<u64>,
}

/// A ring without its epoch.
pub open spec fn emptied(ring: RingState) -> RingState {
    RingState { history: Seq::empty(), last_timestamp_ns: None, ..ring }
}

/// A recording that discarded its history.
pub open spec fn discarded(state: PipelineState) -> PipelineState {
    PipelineState {
        ring: emptied(state.ring),
        counters: replay_ring::counters_after_reset(state.counters, state.ring.history),
        ..state
    }
}

/// A recording that failed: nothing is kept, and nothing more is taken.
pub open spec fn failed(state: PipelineState) -> PipelineState {
    PipelineState { phase: ReplayPipelinePhase::Failed, ..discarded(state) }
}

/// The frames after some were reported as finished, up to the first report
/// that is wrong.
pub open spec fn after_completions(
    in_flight: Seq<u64>,
    completed: Seq<u64>,
    reported: Seq<u64>,
) -> (Seq<u64>, Seq<u64>, bool)
    decreases reported.len(),
{
    if reported.len() == 0 {
        (in_flight, completed, true)
    } else if !in_flight.contains(reported[0]) {
        (in_flight, completed, false)
    } else {
        let left = in_flight.remove(in_flight.index_of_first(reported[0])->0);
        if completed.len() >= MAX_COMPLETED_INPUTS {
            (left, completed, false)
        } else {
            after_completions(left, completed.push(reported[0]), reported.skip(1))
        }
    }
}

/// A ring and its counters after packets were inserted, up to the first that
/// is refused.
pub open spec fn after_packets(
    ring: RingState,
    counters: ReplayRingStats,
    packets: Seq<PacketView>,
) -> (RingState, ReplayRingStats, Option<ReplayRingError>)
    decreases packets.len(),
{
    if packets.len() == 0 {
        (ring, counters, None)
    } else {
        match replay_ring::after_push(ring, packets[0]) {
            Err(error) => (ring, counters, Some(error)),
            Ok(next) => after_packets(
                next,
                replay_ring::counters_after_push(
                    counters,
                    ring.history,
                    packets[0],
                    next.history,
                ),
                packets.skip(1),
            ),
        }
    }
}

/// What packets hold.
pub open spec fn packet_views(packets: Seq<EncodedReplayPacket>) -> Seq<PacketView> {
    packets.map_values(|packet: EncodedReplayPacket| packet@)
}

/// Whether every packet is a run of length-prefixed units.
pub open spec fn all_valid(packets: Seq<PacketView>) -> bool {
    forall|i: int|
        0 <= i < packets.len() ==> replay_media::is_length_prefixed((#[trigger] packets[i]).bytes)
}

/// What output of the encoder does to a recording.
pub open spec fn accepted(
    state: PipelineState,
    packets: Seq<PacketView>,
    reported: Seq<u64>,
) -> (PipelineState, Option<ReplayEncoderFault>) {
    let (in_flight, completed, sound) = after_completions(
        state.in_flight,
        state.completed,
        reported,
    );
    let counted = PipelineState { in_flight, completed, ..state };
    if !sound {
        (counted, Some(ReplayEncoderFault::InvalidInputCompletion))
    } else if !all_valid(packets) {
        (counted, Some(ReplayEncoderFault::InvalidPacket))
    } else {
        let (ring, counters, refused) = after_packets(state.ring, state.counters, packets);
        (
            PipelineState { ring, counters, ..counted },
            match refused {
                Some(error) => Some(ReplayEncoderFault::Ring(error)),
                None => None,
            },
        )
    }
}

/// Whether a frame at some time has to be a keyframe: the first one, and one
/// at least every two seconds.
pub open spec fn needs_keyframe(last_request: Option<u64>, timestamp_ns: u64) -> bool {
    match last_request {
        None => true,
        Some(last) => timestamp_ns >= last + KEYFRAME_REQUEST_INTERVAL_NS,
    }
}

/// Why a frame is not encoded.
pub open spec fn frame_fault(
    state: PipelineState,
    input_sequence: u64,
    width: u32,
    height: u32,
    timestamp_ns: u64,
) -> Option<ReplayPipelineError> {
    if state.phase != ReplayPipelinePhase::Buffering {
        Some(ReplayPipelineError::InvalidLifecycle)
    } else if input_sequence == 0 || state.in_flight.contains(input_sequence) {
        Some(ReplayPipelineError::Encoder(ReplayEncoderFault::InvalidInputCompletion))
    } else if width != state.stream.width || height != state.stream.height {
        Some(ReplayPipelineError::FrameFormatChanged)
    } else if state.last_frame_timestamp_ns matches Some(last) && timestamp_ns <= last {
        Some(ReplayPipelineError::FrameTimestampNotMonotonic)
    } else {
        None
    }
}

/// What output of the encoder for one frame does.
pub open spec fn after_frame(
    state: PipelineState,
    timestamp_ns: u64,
    force_keyframe: bool,
    packets: Seq<PacketView>,
    reported: Seq<u64>,
) -> (PipelineState, Option<ReplayPipelineError>) {
    let (taken, fault) = accepted(state, packets, reported);
    match fault {
        Some(fault) => (failed(taken), Some(ReplayPipelineError::Encoder(fault))),
        None => {
            let next = PipelineState {
                last_frame_timestamp_ns: Some(timestamp_ns),
                last_keyframe_request_timestamp_ns: if force_keyframe {
                    Some(timestamp_ns)
                } else {
                    taken.last_keyframe_request_timestamp_ns
                },
                ..taken
            };
            if next.in_flight.len() > MAX_TRACKED_INPUTS {
                (
                    failed(next),
                    Some(ReplayPipelineError::Encoder(ReplayEncoderFault::InvalidInputCompletion)),
                )
            } else {
                (next, None)
            }
        },
    }
}

/// What output that was drained for a save does.
pub open spec fn after_drain(
    state: PipelineState,
    packets: Seq<PacketView>,
    reported: Seq<u64>,
) -> (PipelineState, Option<ReplayPipelineError>) {
    if state.phase != ReplayPipelinePhase::Buffering {
        (state, Some(ReplayPipelineError::InvalidLifecycle))
    } else {
        let (taken, fault) = accepted(state, packets, reported);
        match fault {
            Some(fault) => (failed(taken), Some(ReplayPipelineError::Encoder(fault))),
            None => (taken, None),
        }
    }
}

/// What the disk history did with a batch does to a recording. A disk history
/// that has stopped ends it: going on would advertise history that can no
/// longer be saved.
pub open spec fn after_spool(
    state: PipelineState,
    refused: bool,
    phase: ReplaySpoolPhase,
) -> (PipelineState, Option<ReplayPipelineError>) {
    if refused || phase != ReplaySpoolPhase::Running {
        (failed(state), Some(ReplayPipelineError::Encoder(ReplayEncoderFault::BackendFailed)))
    } else {
        (state, None)
    }
}

/// Frames that wait to be taken after an encoder gave all others back. Those
/// that find no room are forgotten.
pub open spec fn all_completed(in_flight: Seq<u64>, completed: Seq<u64>) -> Seq<u64> {
    let room = MAX_COMPLETED_INPUTS - completed.len();
    if room <= 0 {
        completed
    } else if in_flight.len() <= room {
        completed + in_flight
    } else {
        completed + in_flight.take(room)
    }
}

/// A recording after its encoder was shut down. Only a shutdown that
/// succeeded gives the frames back.
pub open spec fn after_backend_shutdown(state: PipelineState, succeeded: bool) -> PipelineState {
    if succeeded {
        PipelineState {
            completed: all_completed(state.in_flight, state.completed),
            in_flight: Seq::empty(),
            ..state
        }
    } else {
        state
    }
}

impl ReplayHardwarePipeline {
    pub closed spec fn state(&self) -> PipelineState {
        PipelineState {
            stream: self.stream,
            ring: self.ring.state(),
            counters: self.ring.counters(),
            phase: self.phase,
            last_frame_timestamp_ns: self.last_frame_timestamp_ns,
            last_keyframe_request_timestamp_ns: self.last_keyframe_request_timestamp_ns,
            in_flight: self.in_flight_inputs@,
            completed: self.completed_inputs@,
        }
    }

    /// The ring keeps its invariant, and finished frames are within their
    /// bound.
    pub closed spec fn wf(&self) -> bool {
        self.ring.wf() && self.completed_inputs@.len() <= MAX_COMPLETED_INPUTS
    }

    /// A recording for an encoder's stream.
    pub fn new(
        stream: ReplayVideoStream,
        cadence: ReplayCadence,
        duration: ReplayDuration,
        budget: ReplayBudget,
    ) -> (result: Result<Self, ReplayPipelineError>)
        ensures
            match result {
                Ok(pipeline) => {
                    &&& pipeline.wf()
                    &&& stream_matches(stream, cadence)
                    &&& pipeline.state().stream == stream
                    &&& pipeline.state().phase == ReplayPipelinePhase::Buffering
                    &&& pipeline.state().ring.history == Seq::<PacketView>::empty()
                    &&& pipeline.state().ring.last_timestamp_ns is None
                    &&& pipeline.state().ring.limits.duration_ns == memory_seconds(duration)
                        * 1_000_000_000
                    &&& pipeline.state().ring.limits.packets == (if budget.frame_capacity == 0 {
                        1
                    } else {
                        budget.frame_capacity
                    })
                    &&& pipeline.state().ring.limits.bytes == (if budget.maximum_ring_bytes == 0 {
                        1
                    } else {
                        budget.maximum_ring_bytes
                    })
                    &&& pipeline.state().counters == (ReplayRingStats {
                        stored_packets: 0,
                        stored_bytes: 0,
                        dropped_awaiting_keyframe: 0,
                        evicted_packets: 0,
                        evicted_bytes: 0,
                    })
                    &&& pipeline.state().last_frame_timestamp_ns is None
                    &&& pipeline.state().last_keyframe_request_timestamp_ns is None
                    &&& pipeline.state().in_flight == Seq::<u64>::empty()
                    &&& pipeline.state().completed == Seq::<u64>::empty()
                },
                Err(error) => !stream_matches(stream, cadence) && error
                    == ReplayPipelineError::BackendStreamMismatch,
            },
    {
        if !stream_matches_settings(&stream, cadence) {
            return Err(ReplayPipelineError::BackendStreamMismatch);
        }
        Ok(
            ReplayHardwarePipeline {
                stream,
                ring: ReplayRing::new(in_memory_seconds(duration), budget),
                phase: ReplayPipelinePhase::Buffering,
                last_frame_timestamp_ns: None,
                last_keyframe_request_timestamp_ns: None,
                in_flight_inputs: Vec::new(),
                completed_inputs: Vec::new(),
            },
        )
    }

    pub fn phase(&self) -> (result: ReplayPipelinePhase)
        ensures
            result == self.state().phase,
    {
        self.phase
    }

    pub fn stream(&self) -> (result: &ReplayVideoStream)
        ensures
            *result == self.state().stream,
    {
        &self.stream
    }

    pub fn ring(&self) -> (result: &ReplayRing)
        requires
            self.wf(),
        ensures
            result.state() == self.state().ring,
            result.counters() == self.state().counters,
            result.wf(),
    {
        &self.ring
    }

    pub fn ring_stats(&self) -> (result: ReplayRingStats)
        requires
            self.wf(),
        ensures
            result == self.state().counters,
            result.stored_packets == self.state().ring.history.len(),
            result.stored_bytes == replay_ring::total_bytes(self.state().ring.history),
    {
        self.ring.stats()
    }

    /// Accepts a call that only a buffering recording takes.
    pub fn check_buffering(&self) -> (result: Result<(), ReplayPipelineError>)
        ensures
            result == (if self.state().phase == ReplayPipelinePhase::Buffering {
                Ok(())
            } else {
                Err(ReplayPipelineError::InvalidLifecycle)
            }),
    {
        if self.phase == ReplayPipelinePhase::Buffering {
            Ok(())
        } else {
            Err(ReplayPipelineError::InvalidLifecycle)
        }
    }

    /// Fails the recording. Its encoder has to be shut down next.
    pub fn fail(&mut self)
        requires
            old(self).wf(),
        ensures
            final(self).wf(),
            final(self).state() == failed(old(self).state()),
    {
        self.ring.reset_epoch();
        self.phase = ReplayPipelinePhase::Failed;
    }

    /// Takes note that the encoder was shut down.
    pub fn backend_shut_down(&mut self, succeeded: bool)
        requires
            old(self).wf(),
        ensures
            final(self).wf(),
            final(self).state() == after_backend_shutdown(old(self).state(), succeeded),
    {
        if succeeded {
            let ghost held = self.in_flight_inputs@;
            let ghost waiting = self.completed_inputs@;
            let mut index: usize = 0;
            assert(waiting + held.take(0) =~= waiting);
            while index < self.in_flight_inputs.len() && self.completed_inputs.len()
                < MAX_COMPLETED_INPUTS
                invariant
                    index <= held.len(),
                    held == self.in_flight_inputs@,
                    self.completed_inputs@ == waiting + held.take(index as int),
                    self.completed_inputs@.len() <= MAX_COMPLETED_INPUTS,
                    self.ring == old(self).ring,
                    self.stream == old(self).stream,
                    self.phase == old(self).phase,
                    self.last_frame_timestamp_ns == old(self).last_frame_timestamp_ns,
                    self.last_keyframe_request_timestamp_ns == old(
                        self,
                    ).last_keyframe_request_timestamp_ns,
                decreases held.len() - index,
            {
                self.completed_inputs.push(self.in_flight_inputs[index]);
                assert(waiting + held.take(index + 1) =~= (waiting + held.take(index as int)).push(
                    held[index as int],
                ));
                index = index + 1;
            }
            proof {
                if index == held.len() {
                    assert(held.take(index as int) =~= held);
                }
            }
            self.in_flight_inputs = Vec::new();
            assert(self.in_flight_inputs@ =~= Seq::<u64>::empty());
            assert(self.completed_inputs@ =~= all_completed(held, waiting));
        }
    }

    /// Decides whether a frame is encoded, and as what. A frame that is
    /// refused while the recording buffers fails the recording; its encoder
    /// has to be shut down next.
    pub fn begin_frame(
        &mut self,
        input_sequence: u64,
        width: u32,
        height: u32,
        timestamp_ns: u64,
    ) -> (result: Result<bool, ReplayPipelineError>)
        requires
            old(self).wf(),
        ensures
            final(self).wf(),
            match frame_fault(old(self).state(), input_sequence, width, height, timestamp_ns) {
                Some(fault) => result == Err::<bool, ReplayPipelineError>(fault)
                    && final(self).state() == (if fault == ReplayPipelineError::InvalidLifecycle {
                    old(self).state()
                } else {
                    failed(old(self).state())
                }),
                None => result == Ok::<bool, ReplayPipelineError>(
                    needs_keyframe(
                        old(self).state().last_keyframe_request_timestamp_ns,
                        timestamp_ns,
                    ),
                ) && final(self).state() == (PipelineState {
                    in_flight: old(self).state().in_flight.push(input_sequence),
                    ..old(self).state()
                }),
            },
    {
        if self.phase != ReplayPipelinePhase::Buffering {
            return Err(ReplayPipelineError::InvalidLifecycle);
        }
        if input_sequence == 0 || find_input(
            self.in_flight_inputs.as_slice(),
            input_sequence,
        ).is_some() {
            self.fail();
            return Err(
                ReplayPipelineError::Encoder(ReplayEncoderFault::InvalidInputCompletion),
            );
        }
        if width != self.stream.width || height != self.stream.height {
            self.fail();
            return Err(ReplayPipelineError::FrameFormatChanged);
        }
        if let Some(last) = self.last_frame_timestamp_ns {
            if timestamp_ns <= last {
                self.fail();
                return Err(ReplayPipelineError::FrameTimestampNotMonotonic);
            }
        }
        let force_keyframe = match self.last_keyframe_request_timestamp_ns {
            None => true,
            Some(last) => timestamp_ns.saturating_sub(last) >= KEYFRAME_REQUEST_INTERVAL_NS,
        };
        self.in_flight_inputs.push(input_sequence);
        Ok(force_keyframe)
    }

    fn complete_inputs(&mut self, reported: &[u64]) -> (result: bool)
        requires
            old(self).wf(),
        ensures
            final(self).wf(),
            ({
                let (in_flight, completed, sound) = after_completions(
                    old(self).state().in_flight,
                    old(self).state().completed,
                    reported@,
                );
                &&& result == sound
                &&& final(self).state() == (PipelineState {
                    in_flight,
                    completed,
                    ..old(self).state()
                })
            }),
    {
        let ghost whole = after_completions(
            self.in_flight_inputs@,
            self.completed_inputs@,
            reported@,
        );
        let mut index: usize = 0;
        assert(reported@.skip(0) =~= reported@);
        while index < reported.len()
            invariant
                index <= reported@.len(),
                self.wf(),
                whole == after_completions(
                    old(self).state().in_flight,
                    old(self).state().completed,
                    reported@,
                ),
                whole == after_completions(
                    self.in_flight_inputs@,
                    self.completed_inputs@,
                    reported@.skip(index as int),
                ),
                self.state() == (PipelineState {
                    in_flight: self.in_flight_inputs@,
                    completed: self.completed_inputs@,
                    ..old(self).state()
                }),
            decreases reported@.len() - index,
        {
            let sequence: u64 = reported[index];
            assert(reported@.skip(index as int)[0] == sequence);
            assert(reported@.skip(index as int).skip(1) =~= reported@.skip(index + 1));
            match find_input(self.in_flight_inputs.as_slice(), sequence) {
                None => {
                    return false;
                },
                Some(at) => {
                    let _ = self.in_flight_inputs.remove(at);
                },
            }
            if self.completed_inputs.len() >= MAX_COMPLETED_INPUTS {
                return false;
            }
            self.completed_inputs.push(sequence);
            index = index + 1;
        }
        true
    }

    fn push_packets(&mut self, packets: Vec<EncodedReplayPacket>) -> (result: Result<
        (),
        ReplayRingError,
    >)
        requires
            old(self).wf(),
        ensures
            final(self).wf(),
            ({
                let (ring, counters, refused) = after_packets(
                    old(self).state().ring,
                    old(self).state().counters,
                    packet_views(packets@),
                );
                &&& final(self).state() == (PipelineState { ring, counters, ..old(self).state() })
                &&& match result {
                    Ok(()) => refused is None,
                    Err(error) => refused == Some(error),
                }
            }),
    {
        let ghost all = packet_views(packets@);
        let ghost whole = after_packets(self.ring.state(), self.ring.counters(), all);
        let mut index: usize = 0;
        assert(all.skip(0) =~= all);
        while index < packets.len()
            invariant
                index <= packets@.len(),
                self.wf(),
                all == packet_views(packets@),
                whole == after_packets(old(self).state().ring, old(self).state().counters, all),
                whole == after_packets(
                    self.ring.state(),
                    self.ring.counters(),
                    all.skip(index as int),
                ),
                self.state() == (PipelineState {
                    ring: self.ring.state(),
                    counters: self.ring.counters(),
                    ..old(self).state()
                }),
            decreases packets@.len() - index,
        {
            assert(all.skip(index as int)[0] == packets@[index as int]@);
            assert(all.skip(index as int).skip(1) =~= all.skip(index + 1));
            if let Err(error) = self.ring.push(packets[index].clone()) {
                return Err(error);
            }
            index = index + 1;
        }
        Ok(())
    }

    fn accept_encoded(&mut self, packets: Vec<EncodedReplayPacket>, reported: &[u64]) -> (result:
        Result<(), ReplayEncoderFault>)
        requires
            old(self).wf(),
        ensures
            final(self).wf(),
            ({
                let (next, fault) = accepted(
                    old(self).state(),
                    packet_views(packets@),
                    reported@,
                );
                &&& final(self).state() == next
                &&& match result {
                    Ok(()) => fault is None,
                    Err(error) => fault == Some(error),
                }
            }),
    {
        if !self.complete_inputs(reported) {
            return Err(ReplayEncoderFault::InvalidInputCompletion);
        }
        if !are_valid(packets.as_slice()) {
            return Err(ReplayEncoderFault::InvalidPacket);
        }
        match self.push_packets(packets) {
            Ok(()) => Ok(()),
            Err(error) => Err(ReplayEncoderFault::Ring(error)),
        }
    }

    /// Takes the output of the encoder for one frame. An error fails the
    /// recording; its encoder has to be shut down next.
    pub fn finish_frame(
        &mut self,
        timestamp_ns: u64,
        force_keyframe: bool,
        packets: Vec<EncodedReplayPacket>,
        reported: &[u64],
    ) -> (result: Result<(), ReplayPipelineError>)
        requires
            old(self).wf(),
        ensures
            final(self).wf(),
            ({
                let (next, fault) = after_frame(
                    old(self).state(),
                    timestamp_ns,
                    force_keyframe,
                    packet_views(packets@),
                    reported@,
                );
                &&& final(self).state() == next
                &&& match result {
                    Ok(()) => fault is None,
                    Err(error) => fault == Some(error),
                }
            }),
    {
        if let Err(fault) = self.accept_encoded(packets, reported) {
            self.fail();
            return Err(ReplayPipelineError::Encoder(fault));
        }
        self.last_frame_timestamp_ns = Some(timestamp_ns);
        if force_keyframe {
            self.last_keyframe_request_timestamp_ns = Some(timestamp_ns);
        }
        if self.in_flight_inputs.len() > MAX_TRACKED_INPUTS {
            self.fail();
            return Err(
                ReplayPipelineError::Encoder(ReplayEncoderFault::InvalidInputCompletion),
            );
        }
        Ok(())
    }

    /// Takes output that was drained for a save. An error other than an
    /// invalid lifecycle fails the recording; its encoder has to be shut down
    /// next.
    pub fn take_drained(&mut self, packets: Vec<EncodedReplayPacket>, reported: &[u64]) -> (result:
        Result<(), ReplayPipelineError>)
        requires
            old(self).wf(),
        ensures
            final(self).wf(),
            ({
                let (next, fault) = after_drain(
                    old(self).state(),
                    packet_views(packets@),
                    reported@,
                );
                &&& final(self).state() == next
                &&& match result {
                    Ok(()) => fault is None,
                    Err(error) => fault == Some(error),
                }
            }),
    {
        if self.phase != ReplayPipelinePhase::Buffering {
            return Err(ReplayPipelineError::InvalidLifecycle);
        }
        if let Err(fault) = self.accept_encoded(packets, reported) {
            self.fail();
            return Err(ReplayPipelineError::Encoder(fault));
        }
        Ok(())
    }

    /// Takes note of what the disk history did with a batch: whether it
    /// `refused` a packet because it is not running, and its phase now. A full
    /// queue refuses nothing in this sense. An error fails the recording; its
    /// encoder has to be shut down next.
    pub fn spool_submitted(&mut self, refused: bool, phase: ReplaySpoolPhase) -> (result: Result<
        (),
        ReplayPipelineError,
    >)
        requires
            old(self).wf(),
        ensures
            final(self).wf(),
            ({
                let (next, fault) = after_spool(old(self).state(), refused, phase);
                &&& final(self).state() == next
                &&& match result {
                    Ok(()) => fault is None,
                    Err(error) => fault == Some(error),
                }
            }),
    {
        if refused || phase != ReplaySpoolPhase::Running {
            self.fail();
            return Err(ReplayPipelineError::Encoder(ReplayEncoderFault::BackendFailed));
        }
        Ok(())
    }

    /// Begins to save the history in memory. An empty history is no failure
    /// of the recording.
    pub fn begin_save(&mut self) -> (result: Result<(), ReplayPipelineError>)
        requires
            old(self).wf(),
        ensures
            final(self).wf(),
            if old(self).state().phase != ReplayPipelinePhase::Buffering {
                result == Err::<(), ReplayPipelineError>(ReplayPipelineError::InvalidLifecycle)
                    && final(self).state() == old(self).state()
            } else if old(self).state().ring.history.len() == 0 {
                result == Err::<(), ReplayPipelineError>(ReplayPipelineError::NoEncodedFrames)
                    && final(self).state() == old(self).state()
            } else {
                result == Ok::<(), ReplayPipelineError>(()) && final(self).state() == (
                PipelineState { phase: ReplayPipelinePhase::Saving, ..old(self).state() })
            },
    {
        if self.phase != ReplayPipelinePhase::Buffering {
            return Err(ReplayPipelineError::InvalidLifecycle);
        }
        if self.ring.stats().stored_packets == 0 {
            return Err(ReplayPipelineError::NoEncodedFrames);
        }
        self.phase = ReplayPipelinePhase::Saving;
        Ok(())
    }

    /// Ends a save. One that failed fails the recording; its encoder has to
    /// be shut down next.
    pub fn end_save(&mut self, succeeded: bool)
        requires
            old(self).wf(),
        ensures
            final(self).wf(),
            final(self).state() == (if succeeded {
                PipelineState { phase: ReplayPipelinePhase::Buffering, ..old(self).state() }
            } else {
                failed(old(self).state())
            }),
    {
        if succeeded {
            self.phase = ReplayPipelinePhase::Buffering;
        } else {
            self.fail();
        }
    }

    /// Takes note that the disk history was sealed for a save: the next frame
    /// has to be a keyframe.
    pub fn spool_sealed(&mut self)
        requires
            old(self).wf(),
        ensures
            final(self).wf(),
            final(self).state() == (PipelineState {
                last_keyframe_request_timestamp_ns: None,
                ..old(self).state()
            }),
    {
        self.last_keyframe_request_timestamp_ns = None;
    }

    /// The time that the history in memory covers.
    pub fn audio_window(&self) -> (result: (u64, u64))
        requires
            self.wf(),
        ensures
            result == covered(self.state().ring.history),
            ({
                let history = self.state().ring.history;
                if history.len() == 0 {
                    result == (0u64, 0u64)
                } else {
                    result.0 == history[0].timestamp_ns && result.1
                        == history.last().timestamp_ns + history.last().duration_ns
                }
            }),
    {
        let packets = self.ring.packets();
        let ghost history = self.ring.history();
        if packets.len() == 0 {
            return (0, 0);
        }
        let first = packets[0];
        let last = packets[packets.len() - 1];
        assert(first@ == history[0]);
        assert(last@ == history[history.len() - 1]);
        assert(replay_ring::packet_error(history[history.len() - 1]) is None);
        (first.timestamp_ns(), last.timestamp_ns().saturating_add(last.duration_ns()))
    }

    /// Begins to replace the encoder: the whole history is discarded.
    pub fn begin_reset(&mut self) -> (result: Result<(), ReplayPipelineError>)
        requires
            old(self).wf(),
        ensures
            final(self).wf(),
            if old(self).state().phase != ReplayPipelinePhase::Buffering {
                result == Err::<(), ReplayPipelineError>(ReplayPipelineError::InvalidLifecycle)
                    && final(self).state() == old(self).state()
            } else {
                result == Ok::<(), ReplayPipelineError>(()) && final(self).state() == (
                PipelineState {
                    phase: ReplayPipelinePhase::Resetting,
                    ..discarded(old(self).state())
                })
            },
    {
        if self.phase != ReplayPipelinePhase::Buffering {
            return Err(ReplayPipelineError::InvalidLifecycle);
        }
        self.ring.reset_epoch();
        self.phase = ReplayPipelinePhase::Resetting;
        Ok(())
    }

    /// Takes the stream of a replacement encoder after the old one was shut
    /// down. A stream of another cadence fails the recording.
    pub fn complete_reset(&mut self, stream: ReplayVideoStream, cadence: ReplayCadence) -> (result:
        Result<(), ReplayPipelineError>)
        requires
            old(self).wf(),
        ensures
            final(self).wf(),
            if old(self).state().phase != ReplayPipelinePhase::Resetting {
                result == Err::<(), ReplayPipelineError>(ReplayPipelineError::InvalidLifecycle)
                    && final(self).state() == old(self).state()
            } else if !stream_matches(stream, cadence) {
                result == Err::<(), ReplayPipelineError>(ReplayPipelineError::BackendStreamMismatch)
                    && final(self).state() == failed(old(self).state())
            } else {
                result == Ok::<(), ReplayPipelineError>(()) && final(self).state() == (
                PipelineState {
                    stream,
                    phase: ReplayPipelinePhase::Buffering,
                    last_frame_timestamp_ns: None,
                    last_keyframe_request_timestamp_ns: None,
                    ..old(self).state()
                })
            },
    {
        if self.phase != ReplayPipelinePhase::Resetting {
            return Err(ReplayPipelineError::InvalidLifecycle);
        }
        if !stream_matches_settings(&stream, cadence) {
            self.fail();
            return Err(ReplayPipelineError::BackendStreamMismatch);
        }
        self.stream = stream;
        self.last_frame_timestamp_ns = None;
        self.last_keyframe_request_timestamp_ns = None;
        self.phase = ReplayPipelinePhase::Buffering;
        Ok(())
    }

    /// Ends the recording after its encoder was shut down. Does nothing when
    /// it has ended already.
    pub fn shutdown(&mut self, succeeded: bool)
        requires
            old(self).wf(),
        ensures
            final(self).wf(),
            final(self).state() == (if old(self).state().phase == ReplayPipelinePhase::Shutdown {
                old(self).state()
            } else {
                PipelineState {
                    phase: ReplayPipelinePhase::Shutdown,
                    ..discarded(after_backend_shutdown(old(self).state(), succeeded))
                }
            }),
    {
        if self.phase == ReplayPipelinePhase::Shutdown {
            return;
        }
        self.backend_shut_down(succeeded);
        self.ring.reset_epoch();
        self.phase = ReplayPipelinePhase::Shutdown;
    }

    /// Takes the frames that were given back.
    pub fn take_completed_inputs(&mut self) -> (result: Vec<u64>)
        requires
            old(self).wf(),
        ensures
            final(self).wf(),
            result@ == old(self).state().completed,
            final(self).state() == (PipelineState {
                completed: Seq::empty(),
                ..old(self).state()
            }),
    {
        let mut taken: Vec<u64> = Vec::new();
        std::mem::swap(&mut taken, &mut self.completed_inputs);
        assert(self.completed_inputs@ =~= Seq::<u64>::empty());
        taken
    }
}

fn find_input(inputs: &[u64], sequence: u64) -> (result: Option<usize>)
    ensures
        match result {
            Some(at) => inputs@.contains(sequence) && inputs@.index_of_first(sequence) == Some(
                at as int,
            ) && at < inputs@.len(),
            None => !inputs@.contains(sequence),
        },
{
    let mut index: usize = 0;
    while index < inputs.len()
        invariant
            index <= inputs@.len(),
            forall|i: int| 0 <= i < index ==> #[trigger] inputs@[i] != sequence,
        decreases inputs@.len() - index,
    {
        if inputs[index] == sequence {
            proof {
                assert(inputs@[index as int] == sequence);
                inputs@.index_of_first_ensures(sequence);
                let first = inputs@.index_of_first(sequence)->0;
                assert(inputs@[first] == sequence);
            }
            return Some(index);
        }
        index = index + 1;
    }
    None
}

fn are_valid(packets: &[EncodedReplayPacket]) -> (result: bool)
    ensures
        result == all_valid(packet_views(packets@)),
{
    let ghost all = packet_views(packets@);
    let mut index: usize = 0;
    while index < packets.len()
        invariant
            index <= packets@.len(),
            all == packet_views(packets@),
            forall|i: int|
                0 <= i < index ==> replay_media::is_length_prefixed((#[trigger] all[i]).bytes),
        decreases packets@.len() - index,
    {
        assert(all[index as int] == packets@[index as int]@);
        if !replay_media::validate_packet(packets[index].bytes()) {
            return false;
        }
        index = index + 1;
    }
    true
}

/// Reports of finished frames only move frames: each frame is afterwards
/// either still held or waiting, and none was invented. One that was
/// reported while there was no room is neither.
pub proof fn completions_move_frames(in_flight: Seq<u64>, completed: Seq<u64>, reported: Seq<u64>)
    ensures
        ({
            let (held, waiting, sound) = after_completions(in_flight, completed, reported);
            &&& sound ==> held.to_multiset().add(waiting.to_multiset())
                =~= in_flight.to_multiset().add(completed.to_multiset())
            &&& sound ==> waiting == completed + reported
            &&& completed.len() <= MAX_COMPLETED_INPUTS ==> waiting.len() <= MAX_COMPLETED_INPUTS
        }),
    decreases reported.len(),
{
    broadcast use vstd::seq_lib::group_to_multiset_ensures;

    if reported.len() == 0 {
        assert(completed + reported =~= completed);
    } else if in_flight.contains(reported[0]) && completed.len() < MAX_COMPLETED_INPUTS {
        in_flight.index_of_first_ensures(reported[0]);
        let at = in_flight.index_of_first(reported[0])->0;
        let left = in_flight.remove(at);
        completions_move_frames(left, completed.push(reported[0]), reported.skip(1));
        assert(in_flight =~= left.insert(at, reported[0]));
        assert(completed.push(reported[0]) + reported.skip(1) =~= completed + reported);
    }
}

/// A shutdown that failed keeps every frame where it was: the encoder may
/// still be reading it.
pub proof fn failed_shutdown_keeps_frames(state: PipelineState)
    ensures
        after_backend_shutdown(state, false).in_flight == state.in_flight,
        after_backend_shutdown(state, false).completed == state.completed,
{
}

/// While a recording goes on without errors, keyframes are asked for at the
/// first frame and then at most two seconds after the last request.
pub proof fn keyframes_are_requested(
    state: PipelineState,
    input_sequence: u64,
    timestamp_ns: u64,
    packets: Seq<PacketView>,
    reported: Seq<u64>,
)
    requires
        frame_fault(
            state,
            input_sequence,
            state.stream.width,
            state.stream.height,
            timestamp_ns,
        ) is None,
    ensures
        ({
            let begun = PipelineState { in_flight: state.in_flight.push(input_sequence), ..state };
            let force = needs_keyframe(state.last_keyframe_request_timestamp_ns, timestamp_ns);
            let (next, fault) = after_frame(begun, timestamp_ns, force, packets, reported);
            fault is None ==> {
                &&& next.last_keyframe_request_timestamp_ns matches Some(last) && timestamp_ns
                    < last + KEYFRAME_REQUEST_INTERVAL_NS
                &&& next.in_flight.len() <= MAX_TRACKED_INPUTS
                &&& next.phase == ReplayPipelinePhase::Buffering
            }
        }),
{
}

/// A failure is final: what was kept is gone, and neither frames nor drained
/// output are taken any more.
pub proof fn failures_are_final(
    state: PipelineState,
    input_sequence: u64,
    width: u32,
    height: u32,
    timestamp_ns: u64,
    packets: Seq<PacketView>,
    reported: Seq<u64>,
)
    ensures
        failed(state).ring.history.len() == 0,
        frame_fault(failed(state), input_sequence, width, height, timestamp_ns) == Some(
            ReplayPipelineError::InvalidLifecycle,
        ),
        after_drain(failed(state), packets, reported) == (
            failed(state),
            Some(ReplayPipelineError::InvalidLifecycle),
        ),
{
}

/// A disk history that stopped ends a recording, whatever it did with the
/// batch; one that runs and only dropped packets does not.
pub proof fn stopped_spool_is_terminal(state: PipelineState, refused: bool, phase: ReplaySpoolPhase)
    ensures
        phase != ReplaySpoolPhase::Running ==> after_spool(state, refused, phase).0.phase
            == ReplayPipelinePhase::Failed && after_spool(
            state,
            refused,
            phase,
        ).0.ring.history.len() == 0,
        after_spool(state, false, ReplaySpoolPhase::Running) == (
            state,
            None::<ReplayPipelineError>,
        ),
{
}

/// The newest two minutes of a recording are held in memory, or all of it where
/// less is kept.
pub proof fn two_minutes_stay_in_memory(duration: ReplayDuration)
    ensures
        memory_seconds(duration) == match duration {
            ReplayDuration::Seconds15 => 15u32,
            ReplayDuration::Seconds30 => 30u32,
            ReplayDuration::Seconds60 => 60u32,
            _ => 120u32,
        },
{
}

/// The encoder is asked for a keyframe when the last request is two seconds
/// old, and not before.
pub proof fn keyframes_come_every_two_seconds(last: u64, now: u64)
    ensures
        needs_keyframe(Some(last), now) <==> now - last >= 2 * 1_000_000_000,
        needs_keyframe(None, now),
{
}

/// A frame is taken while the recording goes on, under a number that is not
/// zero and not in use, in the stream's size and later than the last one.
pub proof fn taken_frames_fit_the_stream(
    state: PipelineState,
    input_sequence: u64,
    width: u32,
    height: u32,
    timestamp_ns: u64,
)
    ensures
        frame_fault(state, input_sequence, width, height, timestamp_ns) is None <==> {
            &&& state.phase == ReplayPipelinePhase::Buffering
            &&& input_sequence != 0
            &&& !state.in_flight.contains(input_sequence)
            &&& (width, height) == (state.stream.width, state.stream.height)
            &&& state.last_frame_timestamp_ns matches Some(last) ==> last < timestamp_ns
        },
{
}

/// An encoder that holds more than four frames has lost some: the recording
/// fails. With four it goes on.
pub proof fn four_frames_are_held_at_most(
    state: PipelineState,
    timestamp_ns: u64,
    force_keyframe: bool,
    packets: Seq<PacketView>,
    reported: Seq<u64>,
)
    ensures
        ({
            let (next, fault) = after_frame(state, timestamp_ns, force_keyframe, packets, reported);
            &&& fault is None ==> next.in_flight.len() <= 4
            &&& accepted(state, packets, reported).1 is None && accepted(
                state,
                packets,
                reported,
            ).0.in_flight.len() <= 4 ==> fault is None
        }),
{
}

/// A stream of a fixed cadence has its rate; one of a variable cadence is H.264
/// at its highest rate.
pub proof fn streams_have_their_rate(stream: ReplayVideoStream, rate: u16, highest: u8)
    ensures
        stream_matches(stream, ReplayCadence::Fixed { frames_per_second: rate }) <==> rate
            == stream.frames_per_second,
        stream_matches(
            stream,
            ReplayCadence::Variable { maximum_frames_per_second: highest },
        ) <==> (stream.codec, stream.frames_per_second) == (ReplayVideoCodec::H264, highest),
{
}

/// Frames that are given back wait for their taker, eight of them at most.
pub proof fn eight_frames_wait_at_most(
    in_flight: Seq<u64>,
    completed: Seq<u64>,
    reported: Seq<u64>,
)
    requires
        completed.len() <= 8,
    ensures
        after_completions(in_flight, completed, reported).1.len() <= 8,
        all_completed(in_flight, completed).len() == if in_flight.len() + completed.len() <= 8 {
            in_flight.len() + completed.len()
        } else {
            8
        },
{
    completions_move_frames(in_flight, completed, reported);
}

/// Every packet of a history starts within the time that it covers, and no time
/// is covered beyond its ends.
pub proof fn histories_cover_their_packets(history: Seq<PacketView>, index: int)
    requires
        0 <= index < history.len(),
        replay_ring::strictly_ordered(history),
        replay_ring::all_bounded(history),
    ensures
        ({
            let (from, until) = covered(history);
            &&& from <= history[index].timestamp_ns < until
            &&& until - from == replay_ring::span_ns(history)
        }),
{
    let last = history.len() - 1;
    assert(replay_ring::packet_error(history[last]) is None);
    assert(history.last() == history[last]);
}

} // verus!
