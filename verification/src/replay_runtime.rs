//! State of the recorder as the user sees it.
use crate::replay_pipeline::ReplayPipelineError;
use crate::replay_preferences::ReplayOutputFormat;
use crate::replay_ring::ReplayBudget;
use crate::replay_settings::ReplaySettings;
use vstd::prelude::*;
use vstd::string::*;

verus! {

broadcast use vstd::string::group_string_axioms;

/// How many finished exports may wait to be taken.
pub const MAX_COMPLETED_EXPORTS: usize = 8;

/// How many names of committed clips are remembered.
pub const MAX_COMMITTED_CLIP_NAMES: usize = 32;

/// How long a recorder may go without encoded output, in nanoseconds.
pub const RECORDER_STALL_TIMEOUT: u64 = 5_000_000_000;

#[derive(Clone, Copy, Debug, PartialEq, Eq, Structural)]
pub enum ReplayPhase {
    Unavailable,
    Inactive,
    Buffering,
    Saving,
    Failed,
}

#[derive(Clone, Copy, Debug, PartialEq, Eq, Structural)]
pub enum ReplayCapability {
    Unavailable,
    ValidationCandidate,
    Available,
}

#[derive(Clone, Copy, Debug, PartialEq, Eq, Structural)]
pub enum ReplayFailure {
    EncoderFailed,
    StorageFailed,
}

#[derive(Clone, Copy, Debug, PartialEq, Eq, Structural)]
pub enum ReplayRecorderHealth {
    Inactive,
    Starting,
    Healthy,
    Stalled,
    Failed,
}

/// Which validations a backend has passed.
#[derive(Clone, Copy, Debug, PartialEq, Eq, Structural)]
pub struct ReplayBackendReadiness {
    pub live_transfer_verified: bool,
    pub hardware_encode_verified: bool,
    pub playable_output_verified: bool,
    pub performance_verified: bool,
}

impl ReplayBackendReadiness {
    /// Whether a backend may record for validation.
    pub open spec fn validated(self) -> bool {
        self.live_transfer_verified && self.hardware_encode_verified
            && self.playable_output_verified
    }

    /// Whether a backend may record for users.
    pub open spec fn activated(self) -> bool {
        self.validated() && self.performance_verified
    }

    /// Nothing was shown on a device yet.
    pub fn headless_foundation() -> (result: Self)
        ensures
            result == (ReplayBackendReadiness {
                live_transfer_verified: false,
                hardware_encode_verified: false,
                playable_output_verified: false,
                performance_verified: false,
            }),
    {
        ReplayBackendReadiness {
            live_transfer_verified: false,
            hardware_encode_verified: false,
            playable_output_verified: false,
            performance_verified: false,
        }
    }

    /// Everything was shown on a device.
    pub fn fully_verified() -> (result: Self)
        ensures
            result == (ReplayBackendReadiness {
                live_transfer_verified: true,
                hardware_encode_verified: true,
                playable_output_verified: true,
                performance_verified: true,
            }),
    {
        ReplayBackendReadiness {
            live_transfer_verified: true,
            hardware_encode_verified: true,
            playable_output_verified: true,
            performance_verified: true,
        }
    }

    pub fn validation_allowed(self) -> (result: bool)
        ensures
            result == self.validated(),
    {
        self.live_transfer_verified && self.hardware_encode_verified
            && self.playable_output_verified
    }

    pub fn activation_allowed(self) -> (result: bool)
        ensures
            result == self.activated(),
    {
        self.validation_allowed() && self.performance_verified
    }
}

/// A refused call with its explanation.
#[derive(Clone, Debug, PartialEq, Eq)]
pub struct ReplayRuntimeError {
    message: String,
}

impl View for ReplayRuntimeError {
    type V = Seq<char>;

    closed spec fn view(&self) -> Seq<char> {
        self.message@
    }
}

impl ReplayRuntimeError {
    pub fn new(message: &str) -> (result: Self)
        ensures
            result@ == message@,
    {
        ReplayRuntimeError { message: message.to_owned() }
    }

    /// The explanation.
    pub fn message(&self) -> (result: &str)
        ensures
            result@ == self@,
    {
        self.message.as_str()
    }
}

/// Accepts a backend that has passed what recording needs.
pub fn validate_production_readiness(readiness: ReplayBackendReadiness) -> (result: Result<
    (),
    ReplayRuntimeError,
>)
    ensures
        match result {
            Ok(()) => readiness.validated(),
            Err(error) => !readiness.validated() && error@
                == "Instant Replay has not passed live transfer, hardware encode, and playable output validation"@,
        },
{
    if !readiness.validation_allowed() {
        return Err(
            ReplayRuntimeError::new(
                "Instant Replay has not passed live transfer, hardware encode, and playable output validation",
            ),
        );
    }
    Ok(())
}

/// The failure that an error of the pipeline is shown as.
pub open spec fn shown_failure(error: ReplayPipelineError) -> ReplayFailure {
    if error is Store || error is Spool {
        ReplayFailure::StorageFailed
    } else {
        ReplayFailure::EncoderFailed
    }
}

/// Which failure an error of the pipeline is shown as.
pub fn replay_failure(error: &ReplayPipelineError) -> (result: ReplayFailure)
    ensures
        result == shown_failure(*error),
        result == (if error is Store || error is Spool {
            ReplayFailure::StorageFailed
        } else {
            ReplayFailure::EncoderFailed
        }),
{
    match error {
        ReplayPipelineError::Store => ReplayFailure::StorageFailed,
        ReplayPipelineError::Spool => ReplayFailure::StorageFailed,
        _ => ReplayFailure::EncoderFailed,
    }
}

/// The health of a recorder, from the age of its last encoded output.
pub open spec fn health(phase: ReplayPhase, encoded: u64, age: Option<u64>) -> ReplayRecorderHealth {
    match phase {
        ReplayPhase::Failed => ReplayRecorderHealth::Failed,
        ReplayPhase::Unavailable => ReplayRecorderHealth::Inactive,
        ReplayPhase::Inactive => ReplayRecorderHealth::Inactive,
        _ => if encoded == 0 {
            ReplayRecorderHealth::Starting
        } else if age matches Some(age) && age > RECORDER_STALL_TIMEOUT {
            ReplayRecorderHealth::Stalled
        } else {
            ReplayRecorderHealth::Healthy
        },
    }
}

pub fn recorder_health(phase: ReplayPhase, encoded_packet_count: u64, progress_age: Option<u64>) -> (result:
    ReplayRecorderHealth)
    ensures
        result == health(phase, encoded_packet_count, progress_age),
{
    match phase {
        ReplayPhase::Failed => ReplayRecorderHealth::Failed,
        ReplayPhase::Unavailable => ReplayRecorderHealth::Inactive,
        ReplayPhase::Inactive => ReplayRecorderHealth::Inactive,
        _ => {
            if encoded_packet_count == 0 {
                return ReplayRecorderHealth::Starting;
            }
            match progress_age {
                Some(age) => if age > RECORDER_STALL_TIMEOUT {
                    ReplayRecorderHealth::Stalled
                } else {
                    ReplayRecorderHealth::Healthy
                },
                None => ReplayRecorderHealth::Healthy,
            }
        },
    }
}

/// The part of the status that changes only at transitions.
#[derive(Clone, Copy, Debug, PartialEq, Eq, Structural)]
pub struct ReplayStanding {
    pub phase: ReplayPhase,
    pub capability: ReplayCapability,
    pub backend_readiness: ReplayBackendReadiness,
    pub last_failure: Option<ReplayFailure>,
    pub completed_save_revision: u64,
    pub settings: ReplaySettings,
    /// The limits that follow from the settings.
    pub budget: ReplayBudget,
}

/// What the user is shown.
#[derive(Clone, Copy, Debug, PartialEq, Eq, Structural)]
pub struct ReplayRuntimeStatus {
    pub standing: ReplayStanding,
    pub buffered_duration_ns: u64,
    pub received_frame_count: u64,
    pub encoded_packet_count: u64,
    pub audio_packet_count: u64,
    pub audio_byte_count: u64,
    pub recorder_health: ReplayRecorderHealth,
}

/// What a pipeline has recorded.
#[derive(Clone, Copy, Debug, PartialEq, Eq, Structural)]
pub struct PipelineProgress {
    pub buffered_duration_ns: u64,
    pub accepted_packets: u64,
    pub audio_packets: u64,
    pub audio_bytes: u64,
}

/// The recorder's state between calls. Times are nanoseconds on a monotonic
/// clock.
#[derive(Debug)]
pub struct ProductionReplayRuntime {
    standing: ReplayStanding,
    recording: bool,
    completed_exports: Vec<u64>,
    committed_clips: Vec<String>,
    received_frame_count: u64,
    observed_packet_count: u64,
    last_encoded_progress: Option<u64>,
    output_format: ReplayOutputFormat,
}

/// What a [`ProductionReplayRuntime`] holds.
#[verifier::ext_equal]
pub ghost struct RuntimeState {
    pub standing: ReplayStanding,
    /// Whether there is a pipeline.
    pub recording: bool,
    pub completed_exports: Seq<u64>,
    pub committed_clips: Seq<Seq<char>>,
    pub received_frame_count: u64,
    pub observed_packet_count: u64,
    pub last_encoded_progress: Option<u64>,
    pub output_format: ReplayOutputFormat,
}

pub open spec fn name_views(names: Seq<String>) -> Seq<Seq<char>> {
    names.map_values(|name: String| name@)
}

impl View for ProductionReplayRuntime {
    type V = RuntimeState;

    closed spec fn view(&self) -> RuntimeState {
        RuntimeState {
            standing: self.standing,
            recording: self.recording,
            completed_exports: self.completed_exports@,
            committed_clips: name_views(self.committed_clips@),
            received_frame_count: self.received_frame_count,
            observed_packet_count: self.observed_packet_count,
            last_encoded_progress: self.last_encoded_progress,
            output_format: self.output_format,
        }
    }
}

/// Whether finished exports find room beside those that wait.
pub open spec fn has_room(state: RuntimeState, completed: Seq<u64>) -> bool {
    state.completed_exports.len() + completed.len() <= MAX_COMPLETED_EXPORTS
}

/// Finished exports put behind those that wait, all or none.
pub open spec fn enqueued(state: RuntimeState, completed: Seq<u64>) -> RuntimeState {
    if has_room(state, completed) {
        RuntimeState { completed_exports: state.completed_exports + completed, ..state }
    } else {
        state
    }
}

/// A recorder whose pipeline failed and was shut down, with the exports that
/// the shutdown gave back.
pub open spec fn marked_failed(
    state: RuntimeState,
    failure: ReplayFailure,
    released: Seq<u64>,
) -> RuntimeState {
    let queued = if state.recording {
        enqueued(state, released)
    } else {
        state
    };
    RuntimeState {
        recording: false,
        standing: ReplayStanding {
            phase: ReplayPhase::Failed,
            last_failure: Some(failure),
            ..state.standing
        },
        ..queued
    }
}

/// Why a validated pipeline cannot be attached.
pub open spec fn start_fault(
    state: RuntimeState,
    readiness: ReplayBackendReadiness,
    has_spool: bool,
) -> Option<&'static str> {
    if !readiness.validated() {
        Some(
            "Instant Replay has not passed live transfer, hardware encode, and playable output validation",
        )
    } else if state.recording {
        Some("an Instant Replay backend is already active")
    } else if state.standing.phase == ReplayPhase::Saving {
        Some("an Instant Replay clip is still being saved")
    } else if !has_spool {
        Some("an Instant Replay backend must include the bounded disk spool")
    } else {
        None
    }
}

/// A recorder whose pipeline was just attached.
pub open spec fn started(
    state: RuntimeState,
    settings: ReplaySettings,
    budget: ReplayBudget,
    readiness: ReplayBackendReadiness,
) -> RuntimeState {
    RuntimeState {
        standing: ReplayStanding {
            phase: ReplayPhase::Buffering,
            capability: if readiness.activated() {
                ReplayCapability::Available
            } else {
                ReplayCapability::ValidationCandidate
            },
            backend_readiness: readiness,
            last_failure: None,
            completed_save_revision: state.standing.completed_save_revision,
            settings,
            budget,
        },
        recording: true,
        received_frame_count: 0,
        observed_packet_count: 0,
        last_encoded_progress: None,
        ..state
    }
}

/// Why no save can begin.
pub open spec fn save_fault(state: RuntimeState) -> Option<&'static str> {
    match state.standing.phase {
        ReplayPhase::Saving => Some("an Instant Replay clip is already being saved"),
        ReplayPhase::Failed => Some("Instant Replay stopped after a recording error"),
        ReplayPhase::Buffering => if state.recording {
            None
        } else {
            Some("Instant Replay is not recording")
        },
        _ => Some("Instant Replay is not recording"),
    }
}

/// A recorder after a call of its pipeline: the exports that the call gave
/// back are queued, and a failure ends the pipeline, which then gives back
/// the rest.
pub open spec fn after_call(
    state: RuntimeState,
    completed: Seq<u64>,
    failure: Option<ReplayFailure>,
    released: Seq<u64>,
) -> RuntimeState {
    if !has_room(state, completed) {
        marked_failed(state, ReplayFailure::EncoderFailed, released)
    } else {
        match failure {
            Some(failure) => marked_failed(enqueued(state, completed), failure, released),
            None => enqueued(state, completed),
        }
    }
}

/// The failure that an error of a save is, if it ends the pipeline. Too
/// little history is no failure.
pub open spec fn save_failure(error: Option<ReplayPipelineError>) -> Option<ReplayFailure> {
    match error {
        None => None,
        Some(error) => if error is InsufficientHistory {
            None
        } else if error is Store || error is Spool {
            Some(ReplayFailure::StorageFailed)
        } else {
            Some(ReplayFailure::EncoderFailed)
        },
    }
}

/// A recorder that assembles a clip.
pub open spec fn saving(state: RuntimeState) -> RuntimeState {
    RuntimeState {
        standing: ReplayStanding {
            phase: ReplayPhase::Saving,
            last_failure: None,
            ..state.standing
        },
        ..state
    }
}

/// Names of committed clips with one more; the oldest makes room.
pub open spec fn remembered(names: Seq<Seq<char>>, name: Seq<char>) -> Seq<Seq<char>> {
    if names.len() >= MAX_COMMITTED_CLIP_NAMES {
        names.skip(1).push(name)
    } else {
        names.push(name)
    }
}

/// A counter that stops at its limit.
pub open spec fn counted(value: u64) -> u64 {
    if value == u64::MAX {
        value
    } else {
        (value + 1) as u64
    }
}

/// A recorder after a clip was committed.
pub open spec fn committed(state: RuntimeState, name: Option<Seq<char>>) -> RuntimeState {
    if state.standing.phase != ReplayPhase::Saving {
        state
    } else {
        RuntimeState {
            standing: ReplayStanding {
                phase: ReplayPhase::Buffering,
                last_failure: None,
                completed_save_revision: counted(state.standing.completed_save_revision),
                ..state.standing
            },
            committed_clips: match name {
                Some(name) => remembered(state.committed_clips, name),
                None => state.committed_clips,
            },
            ..state
        }
    }
}

/// A recorder after a clip could not be committed: it goes on recording.
pub open spec fn not_committed(state: RuntimeState) -> RuntimeState {
    if state.standing.phase != ReplayPhase::Saving {
        state
    } else {
        RuntimeState {
            standing: ReplayStanding {
                phase: ReplayPhase::Buffering,
                last_failure: Some(ReplayFailure::StorageFailed),
                ..state.standing
            },
            ..state
        }
    }
}

/// A recorder after its pipeline was shut down.
pub open spec fn stopped(state: RuntimeState, released: Seq<u64>) -> RuntimeState {
    RuntimeState {
        recording: false,
        standing: ReplayStanding {
            phase: if state.standing.backend_readiness.validated() {
                ReplayPhase::Inactive
            } else {
                ReplayPhase::Unavailable
            },
            ..state.standing
        },
        ..enqueued(state, released)
    }
}

/// A recorder after a look at its pipeline's progress.
pub open spec fn observed(state: RuntimeState, encoded: u64, now: u64) -> RuntimeState {
    if encoded > state.observed_packet_count {
        RuntimeState {
            observed_packet_count: encoded,
            last_encoded_progress: Some(now),
            ..state
        }
    } else {
        state
    }
}

impl ProductionReplayRuntime {
    #[verifier::type_invariant]
    spec fn bounded(self) -> bool {
        self.completed_exports@.len() <= MAX_COMPLETED_EXPORTS && self.committed_clips@.len()
            <= MAX_COMMITTED_CLIP_NAMES
    }

    /// A recorder without a backend, with the settings that it is to show.
    pub fn unavailable(settings: ReplaySettings, budget: ReplayBudget) -> (result: Self)
        ensures
            result@ == (RuntimeState {
                standing: ReplayStanding {
                    phase: ReplayPhase::Unavailable,
                    capability: ReplayCapability::Unavailable,
                    backend_readiness: ReplayBackendReadiness {
                        live_transfer_verified: false,
                        hardware_encode_verified: false,
                        playable_output_verified: false,
                        performance_verified: false,
                    },
                    last_failure: None,
                    completed_save_revision: 0,
                    settings,
                    budget,
                },
                recording: false,
                completed_exports: Seq::empty(),
                committed_clips: Seq::empty(),
                received_frame_count: 0,
                observed_packet_count: 0,
                last_encoded_progress: None,
                output_format: ReplayOutputFormat::Matroska,
            }),
    {
        let runtime = ProductionReplayRuntime {
            standing: ReplayStanding {
                phase: ReplayPhase::Unavailable,
                capability: ReplayCapability::Unavailable,
                backend_readiness: ReplayBackendReadiness::headless_foundation(),
                last_failure: None,
                completed_save_revision: 0,
                settings,
                budget,
            },
            recording: false,
            completed_exports: Vec::new(),
            committed_clips: Vec::new(),
            received_frame_count: 0,
            observed_packet_count: 0,
            last_encoded_progress: None,
            output_format: ReplayOutputFormat::Matroska,
        };
        assert(runtime@.completed_exports =~= Seq::<u64>::empty());
        assert(runtime@.committed_clips =~= Seq::<Seq<char>>::empty());
        runtime
    }

    /// The status, given what the pipeline has recorded, if there is one.
    pub fn status(&mut self, progress: Option<PipelineProgress>, now: u64) -> (result:
        ReplayRuntimeStatus)
        ensures
            ({
                let shown = match progress {
                    Some(progress) => progress,
                    None => PipelineProgress {
                        buffered_duration_ns: 0,
                        accepted_packets: 0,
                        audio_packets: 0,
                        audio_bytes: 0,
                    },
                };
                let next = observed(old(self)@, shown.accepted_packets, now);
                &&& final(self)@ == next
                &&& result == (ReplayRuntimeStatus {
                    standing: old(self)@.standing,
                    buffered_duration_ns: shown.buffered_duration_ns,
                    received_frame_count: old(self)@.received_frame_count,
                    encoded_packet_count: shown.accepted_packets,
                    audio_packet_count: shown.audio_packets,
                    audio_byte_count: shown.audio_bytes,
                    recorder_health: health(
                        old(self)@.standing.phase,
                        shown.accepted_packets,
                        match next.last_encoded_progress {
                            Some(at) => Some(
                                if now >= at {
                                    (now - at) as u64
                                } else {
                                    0
                                },
                            ),
                            None => None,
                        },
                    ),
                })
            }),
    {
        proof {
            use_type_invariant(&*self);
        }
        let shown = match progress {
            Some(progress) => progress,
            None => PipelineProgress {
                buffered_duration_ns: 0,
                accepted_packets: 0,
                audio_packets: 0,
                audio_bytes: 0,
            },
        };
        if shown.accepted_packets > self.observed_packet_count {
            self.observed_packet_count = shown.accepted_packets;
            self.last_encoded_progress = Some(now);
        }
        let age: Option<u64> = match self.last_encoded_progress {
            Some(at) => Some(now.saturating_sub(at)),
            None => None,
        };
        ReplayRuntimeStatus {
            standing: self.standing,
            buffered_duration_ns: shown.buffered_duration_ns,
            received_frame_count: self.received_frame_count,
            encoded_packet_count: shown.accepted_packets,
            audio_packet_count: shown.audio_packets,
            audio_byte_count: shown.audio_bytes,
            recorder_health: recorder_health(self.standing.phase, shown.accepted_packets, age),
        }
    }

    pub fn set_output_format(&mut self, output_format: ReplayOutputFormat)
        ensures
            final(self)@ == (RuntimeState { output_format, ..old(self)@ }),
    {
        proof {
            use_type_invariant(&*self);
        }
        self.output_format = output_format;
    }

    pub fn output_format(&self) -> (result: ReplayOutputFormat)
        ensures
            result == self@.output_format,
    {
        self.output_format
    }

    /// Whether there is a pipeline.
    pub fn is_recording(&self) -> (result: bool)
        ensures
            result == self@.recording,
    {
        self.recording
    }

    /// Replaces the standing of a recorder without a pipeline.
    pub fn configure(&mut self, standing: ReplayStanding)
        ensures
            final(self)@ == (if old(self)@.recording {
                old(self)@
            } else {
                RuntimeState { standing, ..old(self)@ }
            }),
    {
        proof {
            use_type_invariant(&*self);
        }
        if !self.recording {
            self.standing = standing;
        }
    }

    /// Attaches a pipeline whose backend was validated by its owner, and shows
    /// its settings from then on.
    pub fn start_validated_pipeline(
        &mut self,
        settings: ReplaySettings,
        budget: ReplayBudget,
        readiness: ReplayBackendReadiness,
        has_spool: bool,
    ) -> (result: Result<(), ReplayRuntimeError>)
        ensures
            match start_fault(old(self)@, readiness, has_spool) {
                Some(fault) => (result matches Err(error) && error@ == fault@) && final(self)@
                    == old(self)@,
                None => result is Ok && final(self)@ == started(
                    old(self)@,
                    settings,
                    budget,
                    readiness,
                ),
            },
    {
        proof {
            use_type_invariant(&*self);
        }
        if let Err(error) = validate_production_readiness(readiness) {
            return Err(error);
        }
        if self.recording {
            return Err(ReplayRuntimeError::new("an Instant Replay backend is already active"));
        }
        if self.standing.phase == ReplayPhase::Saving {
            return Err(ReplayRuntimeError::new("an Instant Replay clip is still being saved"));
        }
        if !has_spool {
            return Err(
                ReplayRuntimeError::new(
                    "an Instant Replay backend must include the bounded disk spool",
                ),
            );
        }
        self.standing = ReplayStanding {
            phase: ReplayPhase::Buffering,
            capability: if readiness.activation_allowed() {
                ReplayCapability::Available
            } else {
                ReplayCapability::ValidationCandidate
            },
            backend_readiness: readiness,
            last_failure: None,
            completed_save_revision: self.standing.completed_save_revision,
            settings,
            budget,
        };
        self.received_frame_count = 0;
        self.observed_packet_count = 0;
        self.last_encoded_progress = None;
        self.recording = true;
        Ok(())
    }

    /// Counts a frame before the pipeline takes it.
    pub fn submit_frame(&mut self) -> (result: Result<(), ReplayRuntimeError>)
        ensures
            final(self)@ == (RuntimeState {
                received_frame_count: counted(old(self)@.received_frame_count),
                ..old(self)@
            }),
            match result {
                Ok(()) => old(self)@.recording,
                Err(error) => !old(self)@.recording && error@ == "Instant Replay is not recording"@,
            },
    {
        proof {
            use_type_invariant(&*self);
        }
        self.received_frame_count = self.received_frame_count.saturating_add(1);
        if !self.recording {
            return Err(ReplayRuntimeError::new("Instant Replay is not recording"));
        }
        Ok(())
    }

    /// Puts finished exports behind those that wait, all or none.
    pub fn enqueue_completed(&mut self, completed: &[u64]) -> (result: Result<
        (),
        ReplayRuntimeError,
    >)
        ensures
            final(self)@ == enqueued(old(self)@, completed@),
            match result {
                Ok(()) => has_room(old(self)@, completed@),
                Err(error) => !has_room(old(self)@, completed@) && error@
                    == "Instant Replay completion queue exceeded its fixed bound"@,
            },
    {
        proof {
            use_type_invariant(&*self);
        }
        if completed.len() > MAX_COMPLETED_EXPORTS || self.completed_exports.len()
            + completed.len() > MAX_COMPLETED_EXPORTS {
            return Err(
                ReplayRuntimeError::new("Instant Replay completion queue exceeded its fixed bound"),
            );
        }
        let mut exports: Vec<u64> = Vec::new();
        std::mem::swap(&mut exports, &mut self.completed_exports);
        exports.extend_from_slice(completed);
        self.completed_exports = exports;
        Ok(())
    }

    /// Takes note that the pipeline failed and was shut down. `released` are
    /// the exports that the shutdown gave back.
    pub fn mark_failed(&mut self, failure: ReplayFailure, released: &[u64])
        ensures
            final(self)@ == marked_failed(old(self)@, failure, released@),
    {
        proof {
            use_type_invariant(&*self);
        }
        if self.recording {
            let _ = self.enqueue_completed(released);
        }
        proof {
            use_type_invariant(&*self);
        }
        self.recording = false;
        self.standing.phase = ReplayPhase::Failed;
        self.standing.last_failure = Some(failure);
    }

    /// Takes the exports that were given back.
    pub fn take_completed_exports(&mut self) -> (result: Vec<u64>)
        ensures
            result@ == old(self)@.completed_exports,
            result@.len() <= MAX_COMPLETED_EXPORTS,
            final(self)@ == (RuntimeState { completed_exports: Seq::empty(), ..old(self)@ }),
    {
        proof {
            use_type_invariant(&*self);
        }
        let mut taken: Vec<u64> = Vec::new();
        std::mem::swap(&mut taken, &mut self.completed_exports);
        assert(self@.completed_exports =~= Seq::<u64>::empty());
        taken
    }

    /// Takes the names of clips that were committed, oldest first.
    pub fn take_committed_clip_names(&mut self) -> (result: Vec<String>)
        ensures
            name_views(result@) == old(self)@.committed_clips,
            result@.len() <= MAX_COMMITTED_CLIP_NAMES,
            final(self)@ == (RuntimeState { committed_clips: Seq::empty(), ..old(self)@ }),
    {
        proof {
            use_type_invariant(&*self);
        }
        let mut taken: Vec<String> = Vec::new();
        std::mem::swap(&mut taken, &mut self.committed_clips);
        assert(self@.committed_clips =~= Seq::<Seq<char>>::empty());
        taken
    }

    /// Decides whether a save can begin, and in which format.
    pub fn save(&self) -> (result: Result<ReplayOutputFormat, ReplayRuntimeError>)
        ensures
            match result {
                Ok(format) => save_fault(self@) is None && format == self@.output_format,
                Err(error) => save_fault(self@) matches Some(fault) && error@ == fault@,
            },
    {
        match self.standing.phase {
            ReplayPhase::Saving => Err(
                ReplayRuntimeError::new("an Instant Replay clip is already being saved"),
            ),
            ReplayPhase::Failed => Err(
                ReplayRuntimeError::new("Instant Replay stopped after a recording error"),
            ),
            ReplayPhase::Buffering => if self.recording {
                Ok(self.output_format)
            } else {
                Err(ReplayRuntimeError::new("Instant Replay is not recording"))
            },
            _ => Err(ReplayRuntimeError::new("Instant Replay is not recording")),
        }
    }

    fn finish_call(
        &mut self,
        completed: &[u64],
        failure: Option<ReplayFailure>,
        released: &[u64],
    ) -> (result: Result<(), ReplayRuntimeError>)
        ensures
            final(self)@ == after_call(old(self)@, completed@, failure, released@),
            match result {
                Ok(()) => has_room(old(self)@, completed@),
                Err(error) => !has_room(old(self)@, completed@) && error@
                    == "Instant Replay completion queue exceeded its fixed bound"@,
            },
    {
        if let Err(error) = self.enqueue_completed(completed) {
            self.mark_failed(ReplayFailure::EncoderFailed, released);
            return Err(error);
        }
        if let Some(failure) = failure {
            self.mark_failed(failure, released);
        }
        Ok(())
    }

    /// Takes what the pipeline made of a frame, or of another encoder:
    /// the exports that it gave back, an explanation where it failed, and the
    /// exports that its shutdown would give back. Every failure ends the
    /// pipeline.
    pub fn frame_finished(
        &mut self,
        completed: &[u64],
        explanation: Option<&str>,
        released: &[u64],
    ) -> (result: Result<(), ReplayRuntimeError>)
        ensures
            final(self)@ == after_call(
                old(self)@,
                completed@,
                if explanation is Some {
                    Some(ReplayFailure::EncoderFailed)
                } else {
                    None
                },
                released@,
            ),
            match result {
                Ok(()) => has_room(old(self)@, completed@) && explanation is None,
                Err(error) => if !has_room(old(self)@, completed@) {
                    error@ == "Instant Replay completion queue exceeded its fixed bound"@
                } else {
                    explanation matches Some(explanation) && error@ == explanation@
                },
            },
    {
        let failure = if explanation.is_some() {
            Some(ReplayFailure::EncoderFailed)
        } else {
            None
        };
        if let Err(error) = self.finish_call(completed, failure, released) {
            return Err(error);
        }
        match explanation {
            Some(explanation) => Err(ReplayRuntimeError::new(explanation)),
            None => Ok(()),
        }
    }

    /// Whether there is a pipeline to give audio or another encoder to.
    pub fn check_recording(&self) -> (result: Result<(), ReplayRuntimeError>)
        ensures
            match result {
                Ok(()) => self@.recording,
                Err(error) => !self@.recording && error@ == "Instant Replay is not recording"@,
            },
    {
        if !self.recording {
            return Err(ReplayRuntimeError::new("Instant Replay is not recording"));
        }
        Ok(())
    }

    /// Takes what the pipeline made of a save: the clip is being assembled,
    /// or an error came with its explanation. Too little history ends
    /// nothing.
    pub fn save_started(
        &mut self,
        completed: &[u64],
        error: Option<(ReplayPipelineError, &str)>,
        released: &[u64],
    ) -> (result: Result<(), ReplayRuntimeError>)
        ensures
            ({
                let failure = save_failure(
                    match error {
                        Some((error, _)) => Some(error),
                        None => None,
                    },
                );
                let next = after_call(old(self)@, completed@, failure, released@);
                &&& final(self)@ == (if has_room(old(self)@, completed@) && error is None {
                    saving(next)
                } else {
                    next
                })
                &&& match result {
                    Ok(()) => has_room(old(self)@, completed@) && error is None,
                    Err(refused) => if !has_room(old(self)@, completed@) {
                        refused@ == "Instant Replay completion queue exceeded its fixed bound"@
                    } else {
                        error matches Some((_, explanation)) && refused@ == explanation@
                    },
                }
            }),
    {
        let failure = match &error {
            None => None,
            Some((error, _)) => match error {
                ReplayPipelineError::InsufficientHistory => None,
                _ => Some(replay_failure(error)),
            },
        };
        if let Err(refused) = self.finish_call(completed, failure, released) {
            return Err(refused);
        }
        if let Some((_, explanation)) = error {
            return Err(ReplayRuntimeError::new(explanation));
        }
        proof {
            use_type_invariant(&*self);
        }
        self.standing.phase = ReplayPhase::Saving;
        self.standing.last_failure = None;
        Ok(())
    }

    /// Takes note that a clip was committed under a name.
    pub fn save_committed(&mut self, name: Option<&str>)
        ensures
            final(self)@ == committed(
                old(self)@,
                match name {
                    Some(name) => Some(name@),
                    None => None,
                },
            ),
    {
        proof {
            use_type_invariant(&*self);
        }
        if self.standing.phase != ReplayPhase::Saving {
            return;
        }
        if let Some(name) = name {
            let ghost before = name_views(self.committed_clips@);
            let mut names: Vec<String> = Vec::new();
            std::mem::swap(&mut names, &mut self.committed_clips);
            if names.len() >= MAX_COMMITTED_CLIP_NAMES {
                let _ = names.remove(0);
                assert(name_views(names@) =~= before.skip(1));
            }
            let ghost kept = name_views(names@);
            names.push(name.to_owned());
            assert(name_views(names@) =~= kept.push(name@));
            self.committed_clips = names;
        }
        self.standing.phase = ReplayPhase::Buffering;
        self.standing.last_failure = None;
        self.standing.completed_save_revision =
            self.standing.completed_save_revision.saturating_add(1);
    }

    /// Takes note that a clip could not be committed. Recording goes on.
    pub fn save_failed(&mut self)
        ensures
            final(self)@ == not_committed(old(self)@),
    {
        proof {
            use_type_invariant(&*self);
        }
        if self.standing.phase == ReplayPhase::Saving {
            self.standing.phase = ReplayPhase::Buffering;
            self.standing.last_failure = Some(ReplayFailure::StorageFailed);
        }
    }

    /// Takes note that nothing waits for a clip that is being assembled.
    pub fn save_untracked(&mut self)
        ensures
            final(self)@ == (if old(self)@.standing.phase == ReplayPhase::Saving {
                RuntimeState {
                    standing: ReplayStanding {
                        phase: ReplayPhase::Buffering,
                        ..old(self)@.standing
                    },
                    ..old(self)@
                }
            } else {
                old(self)@
            }),
    {
        proof {
            use_type_invariant(&*self);
        }
        if self.standing.phase == ReplayPhase::Saving {
            self.standing.phase = ReplayPhase::Buffering;
        }
    }

    /// Takes note that the pipeline, if there was one, was shut down, with
    /// the exports that the shutdown gave back.
    pub fn shutdown(&mut self, released: &[u64]) -> (result: Result<(), ReplayRuntimeError>)
        ensures
            final(self)@ == stopped(old(self)@, released@),
            match result {
                Ok(()) => has_room(old(self)@, released@),
                Err(error) => !has_room(old(self)@, released@) && error@
                    == "Instant Replay completion queue exceeded its fixed bound"@,
            },
    {
        let result = self.enqueue_completed(released);
        proof {
            use_type_invariant(&*self);
        }
        self.recording = false;
        self.standing.phase = if self.standing.backend_readiness.validation_allowed() {
            ReplayPhase::Inactive
        } else {
            ReplayPhase::Unavailable
        };
        result
    }
}

/// A clip that cannot be committed ends neither the pipeline nor the
/// recording.
pub proof fn storage_failure_keeps_recording(state: RuntimeState)
    requires
        state.standing.phase == ReplayPhase::Saving,
    ensures
        not_committed(state).recording == state.recording,
        not_committed(state).standing.phase == ReplayPhase::Buffering,
        not_committed(state).observed_packet_count == state.observed_packet_count,
        not_committed(state).standing.completed_save_revision
            == state.standing.completed_save_revision,
{
}

/// Too little history for a clip ends neither the pipeline nor the
/// recording.
pub proof fn short_history_keeps_recording(state: RuntimeState, released: Seq<u64>)
    ensures
        after_call(
            state,
            Seq::empty(),
            save_failure(Some(ReplayPipelineError::InsufficientHistory)),
            released,
        ) == state || !has_room(state, Seq::empty()),
{
    assert(state.completed_exports + Seq::<u64>::empty() =~= state.completed_exports);
}

/// Shutting down twice is shutting down once.
pub proof fn shutdown_is_idempotent(state: RuntimeState, released: Seq<u64>)
    ensures
        stopped(stopped(state, released), Seq::empty()) == stopped(state, released),
{
    let once = stopped(state, released);
    assert(once.completed_exports + Seq::<u64>::empty() =~= once.completed_exports);
}

/// No readiness short of a full attestation makes a recorder available.
pub proof fn availability_needs_activation(
    state: RuntimeState,
    settings: ReplaySettings,
    budget: ReplayBudget,
    readiness: ReplayBackendReadiness,
)
    requires
        start_fault(state, readiness, true) is None,
    ensures
        started(state, settings, budget, readiness).standing.capability
            == ReplayCapability::Available <==> readiness.activated(),
{
}

/// A failure ends a recording: nothing can be saved of it, and what its
/// pipeline gave back still waits to be taken.
pub proof fn failure_ends_recording(
    state: RuntimeState,
    failure: ReplayFailure,
    released: Seq<u64>,
)
    ensures
        !marked_failed(state, failure, released).recording,
        marked_failed(state, failure, released).standing.last_failure == Some(failure),
        save_fault(marked_failed(state, failure, released)) is Some,
        state.recording && has_room(state, released) ==> marked_failed(
            state,
            failure,
            released,
        ).completed_exports == state.completed_exports + released,
        state.completed_exports.is_prefix_of(
            marked_failed(state, failure, released).completed_exports,
        ),
{
}

/// A committed clip and the revision that announces it move together.
pub proof fn commits_are_announced(state: RuntimeState, name: Seq<char>)
    requires
        state.standing.phase == ReplayPhase::Saving,
    ensures
        committed(state, Some(name)).committed_clips.last() == name,
        committed(state, Some(name)).standing.completed_save_revision == counted(
            state.standing.completed_save_revision,
        ),
        committed(state, Some(name)).recording == state.recording,
{
}

/// A recorder that has encoded something is stalled once five seconds have
/// passed without more, and healthy until then. One that has encoded nothing is
/// starting, and one that neither buffers nor saves has no health to tell.
pub proof fn silence_is_a_stall_after_five_seconds(phase: ReplayPhase, encoded: u64, age: u64)
    ensures
        phase == ReplayPhase::Buffering || phase == ReplayPhase::Saving ==> {
            &&& encoded == 0 ==> health(phase, encoded, Some(age)) == ReplayRecorderHealth::Starting
            &&& encoded > 0 && age <= 5 * 1_000_000_000 ==> health(phase, encoded, Some(age))
                == ReplayRecorderHealth::Healthy
            &&& encoded > 0 && age > 5 * 1_000_000_000 ==> health(phase, encoded, Some(age))
                == ReplayRecorderHealth::Stalled
        },
        phase == ReplayPhase::Failed ==> health(phase, encoded, Some(age))
            == ReplayRecorderHealth::Failed,
        phase == ReplayPhase::Inactive || phase == ReplayPhase::Unavailable ==> health(
            phase,
            encoded,
            Some(age),
        ) == ReplayRecorderHealth::Inactive,
{
}

/// At most eight frames wait to be given back: more are refused, and those that
/// wait stay as they are.
pub proof fn eight_frames_wait_at_most(state: RuntimeState, completed: Seq<u64>)
    ensures
        ({
            let waiting = enqueued(state, completed).completed_exports;
            if state.completed_exports.len() + completed.len() <= 8 {
                waiting == state.completed_exports + completed
            } else {
                waiting == state.completed_exports
            }
        }),
{
}

/// The names of the 32 newest clips are remembered, oldest first.
pub proof fn newest_names_are_remembered(names: Seq<Seq<char>>, name: Seq<char>)
    requires
        names.len() <= 32,
    ensures
        ({
            let after = remembered(names, name);
            &&& after.len() == if names.len() < 32 {
                names.len() + 1
            } else {
                32
            }
            &&& after.last() == name
            &&& after.drop_last() == names.skip(names.len() - (after.len() - 1))
        }),
{
    let after = remembered(names, name);
    assert(after.drop_last() =~= names.skip(names.len() - (after.len() - 1)));
}

/// A backend records only when live transfer, hardware encoding and playable
/// output are all verified, and is offered as available only when its
/// performance is verified too.
pub proof fn every_check_counts(
    readiness: ReplayBackendReadiness,
    state: RuntimeState,
    settings: ReplaySettings,
    budget: ReplayBudget,
    has_spool: bool,
)
    ensures
        start_fault(state, readiness, has_spool) is None ==> readiness.live_transfer_verified
            && readiness.hardware_encode_verified && readiness.playable_output_verified
            && has_spool && !state.recording && state.standing.phase != ReplayPhase::Saving,
        readiness.live_transfer_verified && readiness.hardware_encode_verified
            && readiness.playable_output_verified && has_spool && !state.recording
            && state.standing.phase != ReplayPhase::Saving ==> start_fault(
            state,
            readiness,
            has_spool,
        ) is None && (started(state, settings, budget, readiness).standing.capability
            == ReplayCapability::Available <==> readiness.performance_verified),
{
}

/// What goes wrong with the disk is told apart from what goes wrong with the
/// encoder, also where a save fails. A save that comes too early is no failure.
pub proof fn disk_failures_are_told_apart(error: ReplayPipelineError)
    ensures
        shown_failure(ReplayPipelineError::Store) == ReplayFailure::StorageFailed,
        shown_failure(ReplayPipelineError::Spool) == ReplayFailure::StorageFailed,
        error !is Store && error !is Spool ==> shown_failure(error) == ReplayFailure::EncoderFailed,
        save_failure(Some(ReplayPipelineError::InsufficientHistory)) is None,
        error !is InsufficientHistory ==> save_failure(Some(error)) == Some(shown_failure(error)),
        save_failure(None) is None,
{
}

/// A recorder makes progress when it has encoded more than was seen before, and
/// only then is the moment noted.
pub proof fn progress_is_noted_when_there_is_some(state: RuntimeState, encoded: u64, now: u64)
    ensures
        encoded > state.observed_packet_count ==> observed(state, encoded, now)
            == (RuntimeState {
            observed_packet_count: encoded,
            last_encoded_progress: Some(now),
            ..state
        }),
        encoded <= state.observed_packet_count ==> observed(state, encoded, now) == state,
{
}

} // verus!
