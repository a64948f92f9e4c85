//! Rolling on-disk history of encoded packets: segments, their index and the
//! decisions of the worker that writes them.
use crate::replay_ring;
use crate::replay_ring::{
    EncodedReplayPacket, PacketView, ReplayRing, RingState, MAX_SINGLE_PACKET_BYTES,
    NANOSECONDS_PER_SECOND,
};
use crate::replay_settings;
use crate::replay_settings::{ReplayDuration, ReplayQuality};
use crate::text;
use crate::wire;
use vstd::prelude::*;
use vstd::string::*;

verus! {

broadcast use vstd::string::group_string_axioms;

pub const MARKER: &'static str = ".redunar-replay-spool-v1";

pub const MARKER_CONTENTS: &'static str = "redunar-replay-spool-v1\n";

pub const SEGMENT_PREFIX: &'static str = "redunar-segment-";

pub const TEMPORARY_PREFIX: &'static str = ".redunar-segment-";

pub const SEGMENT_SUFFIX: &'static str = ".rseg";

pub const TEMP_SUFFIX: &'static str = ".tmp";

pub const SEGMENT_MAGIC: &'static str = "RDNSEG01";

pub const SEGMENT_MAGIC_BYTES: u64 = 8;

/// Bytes of a packet record besides the payload.
pub const RECORD_HEADER_BYTES: u64 = 21;

pub const MIN_SAVABLE_HISTORY_NS: u64 = 1_000_000_000;

pub const TARGET_SEGMENT_NS: u64 = 2_000_000_000;

pub const MAX_SEGMENT_NS: u64 = 4_000_000_000;

pub const MAX_SEGMENT_BYTES: u64 = 33_554_432;

pub const MAX_SEGMENTS: usize = 512;

pub const MAX_SPOOL_ENTRIES: usize = 576;

pub const COMMAND_CAPACITY: usize = 4;

pub const MAX_WRITE_LATENCY_NS: u64 = 500_000_000;

pub const BYTES_PER_MEGABIT: u64 = 125_000;

/// Whether the spool accepts packets, or why it stopped.
#[derive(Clone, Copy, Debug, PartialEq, Eq, Structural)]
pub enum ReplaySpoolPhase {
    Running,
    SlowStorage,
    Failed,
    Shutdown,
}

/// The number under which a phase is shared between threads.
pub open spec fn phase_code(phase: ReplaySpoolPhase) -> u8 {
    match phase {
        ReplaySpoolPhase::Running => 0,
        ReplaySpoolPhase::SlowStorage => 1,
        ReplaySpoolPhase::Failed => 2,
        ReplaySpoolPhase::Shutdown => 3,
    }
}

/// The phase of a shared number.
pub open spec fn phase_of(code: u8) -> ReplaySpoolPhase {
    if code == 0 {
        ReplaySpoolPhase::Running
    } else if code == 1 {
        ReplaySpoolPhase::SlowStorage
    } else if code == 2 {
        ReplaySpoolPhase::Failed
    } else {
        ReplaySpoolPhase::Shutdown
    }
}

impl ReplaySpoolPhase {
    pub fn code(self) -> (result: u8)
        ensures
            result == phase_code(self),
    {
        match self {
            ReplaySpoolPhase::Running => 0,
            ReplaySpoolPhase::SlowStorage => 1,
            ReplaySpoolPhase::Failed => 2,
            ReplaySpoolPhase::Shutdown => 3,
        }
    }

    pub fn from_code(value: u8) -> (result: Self)
        ensures
            result == phase_of(value),
    {
        if value == 0 {
            ReplaySpoolPhase::Running
        } else if value == 1 {
            ReplaySpoolPhase::SlowStorage
        } else if value == 2 {
            ReplaySpoolPhase::Failed
        } else {
            ReplaySpoolPhase::Shutdown
        }
    }
}

/// A shared phase reads back as itself.
pub proof fn phase_round_trip(phase: ReplaySpoolPhase)
    ensures
        phase_of(phase_code(phase)) == phase,
{
}

/// One complete segment file.
#[derive(Debug, PartialEq, Eq)]
pub struct ReplaySpoolSegment {
    pub path: Vec<u8>,
    pub start_timestamp_ns: u64,
    pub end_timestamp_ns: u64,
    pub bytes: u64,
}

/// What a [`ReplaySpoolSegment`] holds.
#[verifier::ext_equal]
pub ghost struct SegmentView {
    pub path: Seq<u8>,
    pub start_timestamp_ns: u64,
    pub end_timestamp_ns: u64,
    pub bytes: u64,
}

impl View for ReplaySpoolSegment {
    type V = SegmentView;

    open spec fn view(&self) -> SegmentView {
        SegmentView {
            path: self.path@,
            start_timestamp_ns: self.start_timestamp_ns,
            end_timestamp_ns: self.end_timestamp_ns,
            bytes: self.bytes,
        }
    }
}

impl Clone for ReplaySpoolSegment {
    fn clone(&self) -> (result: Self)
        ensures
            result@ == self@,
    {
        let path = self.path.clone();
        assert(path@ =~= self.path@);
        ReplaySpoolSegment {
            path,
            start_timestamp_ns: self.start_timestamp_ns,
            end_timestamp_ns: self.end_timestamp_ns,
            bytes: self.bytes,
        }
    }
}

/// What a list of segments holds.
pub open spec fn segment_views(segments: Seq<ReplaySpoolSegment>) -> Seq<SegmentView> {
    segments.map_values(|segment: ReplaySpoolSegment| segment@)
}

/// An immutable selection of complete segments.
#[derive(Debug, PartialEq, Eq)]
pub struct ReplaySpoolSnapshotPlan {
    pub segments: Vec<ReplaySpoolSegment>,
    pub requested_duration: ReplayDuration,
    pub available_duration_ns: u64,
    pub generation: u64,
}

/// Counters of a spool.
#[derive(Clone, Copy, Debug, Default, PartialEq, Eq, Structural)]
pub struct ReplaySpoolStats {
    pub active_segments: u32,
    pub active_bytes: u64,
    pub buffered_duration_ns: u64,
    /// Total encoded packets durably accepted by this spool epoch.
    pub accepted_packets: u64,
    pub queued_packets: u32,
    pub dropped_queue_full: u64,
    pub dropped_awaiting_keyframe: u64,
    pub recovered_segments: u32,
}

/// Kinds of spool failures that callers tell apart.
#[derive(Clone, Copy, Debug, PartialEq, Eq, Structural)]
pub enum ReplaySpoolErrorKind {
    General,
    InsufficientHistory,
}

/// A spool failure with a user-facing explanation.
#[derive(Clone, Debug, PartialEq, Eq)]
pub struct ReplaySpoolError {
    message: String,
    kind: ReplaySpoolErrorKind,
}

impl View for ReplaySpoolError {
    type V = Seq<char>;

    closed spec fn view(&self) -> Seq<char> {
        self.message@
    }
}

impl ReplaySpoolError {
    /// Whether the failure is only that nothing was recorded long enough.
    pub closed spec fn is_short(&self) -> bool {
        self.kind == ReplaySpoolErrorKind::InsufficientHistory
    }

    pub fn new(message: &str) -> (result: Self)
        ensures
            result@ == message@,
            !result.is_short(),
    {
        ReplaySpoolError { message: message.to_owned(), kind: ReplaySpoolErrorKind::General }
    }

    pub fn insufficient_history() -> (result: Self)
        ensures
            result@ == "Replay just started; try saving again in a moment"@,
            result.is_short(),
    {
        ReplaySpoolError {
            message: "Replay just started; try saving again in a moment".to_owned(),
            kind: ReplaySpoolErrorKind::InsufficientHistory,
        }
    }

    pub fn is_insufficient_history(&self) -> (result: bool)
        ensures
            result == self.is_short(),
    {
        match self.kind {
            ReplaySpoolErrorKind::InsufficientHistory => true,
            ReplaySpoolErrorKind::General => false,
        }
    }

    /// The user-facing explanation.
    pub fn message(&self) -> (result: &str)
        ensures
            result@ == self@,
    {
        self.message.as_str()
    }

    /// A failure with what was attempted and what went wrong.
    pub fn with_cause(context: &str, cause: &str) -> (result: Self)
        ensures
            result@ == context@ + ": "@ + cause@,
            !result.is_short(),
    {
        let mut message = context.to_owned();
        message.append(": ");
        message.append(cause);
        ReplaySpoolError { message, kind: ReplaySpoolErrorKind::General }
    }
}

/// A packet that the spool did not take.
#[derive(Debug)]
pub enum ReplaySpoolSubmitError {
    QueueFull(EncodedReplayPacket),
    NotRunning(EncodedReplayPacket),
}

impl ReplaySpoolSubmitError {
    /// The user-facing sentence for this error.
    pub fn message(&self) -> (result: &'static str)
        ensures
            result@ == (match *self {
                ReplaySpoolSubmitError::QueueFull(_) => "Replay spool queue is full"@,
                ReplaySpoolSubmitError::NotRunning(_) => "Replay spool is not running"@,
            }),
    {
        match self {
            ReplaySpoolSubmitError::QueueFull(_) => "Replay spool queue is full",
            ReplaySpoolSubmitError::NotRunning(_) => "Replay spool is not running",
        }
    }
}

/// The limits of the disk history that the user chose.
pub open spec fn chosen_limits(duration: ReplayDuration, quality: ReplayQuality) -> SpoolLimits {
    let seconds = replay_settings::duration_seconds(duration);
    SpoolLimits {
        duration_ns: (seconds * NANOSECONDS_PER_SECOND) as u64,
        bytes: ((seconds * replay_settings::target_megabits(quality) * BYTES_PER_MEGABIT * 110 + 99)
            / 100) as u64,
    }
}

/// Disk limits of a spool.
#[derive(Clone, Copy, Debug, PartialEq, Eq, Structural)]
pub struct SpoolLimits {
    pub duration_ns: u64,
    pub bytes: u64,
}

impl SpoolLimits {
    /// The limits of a retained length at a quality: its video and one tenth
    /// of headroom, rounded up.
    pub fn new(duration: ReplayDuration, quality: ReplayQuality) -> (result: Self)
        ensures
            result == chosen_limits(duration, quality),
            result.duration_ns == replay_settings::duration_seconds(duration)
                * NANOSECONDS_PER_SECOND,
            result.bytes == (replay_settings::duration_seconds(duration)
                * replay_settings::target_megabits(quality) * BYTES_PER_MEGABIT * 110 + 99) / 100,
    {
        let seconds: u64 = duration.seconds() as u64;
        let megabits: u64 = quality.target_megabits_per_second() as u64;
        assert(seconds * megabits <= 900 * 40) by (nonlinear_arith)
            requires
                seconds <= 900,
                megabits <= 40,
        ;
        let video_bytes: u64 = seconds * megabits * BYTES_PER_MEGABIT;
        SpoolLimits {
            duration_ns: seconds * NANOSECONDS_PER_SECOND,
            bytes: (video_bytes * 110 + 99) / 100,
        }
    }
}

/// The name of a complete segment file.
pub open spec fn segment_file_name(sequence: u64, start: u64, end: u64) -> Seq<char> {
    SEGMENT_PREFIX@ + text::hex_fixed(sequence as nat, 16) + seq!['-'] + text::hex_fixed(
        start as nat,
        16,
    ) + seq!['-'] + text::hex_fixed(end as nat, 16) + SEGMENT_SUFFIX@
}

/// The name of a segment file that is still being written.
pub open spec fn temporary_file_name(sequence: u64) -> Seq<char> {
    TEMPORARY_PREFIX@ + text::hex_fixed(sequence as nat, 16) + TEMP_SUFFIX@
}

fn push_hex(name: &mut String, value: u64)
    ensures
        final(name)@ == old(name)@ + text::hex_fixed(value as nat, 16),
{
    let digits = text::string_of(text::hex_chars(value, 16).as_slice());
    name.append(digits.as_str());
}

/// Names a complete segment file.
pub fn segment_name(sequence: u64, start_timestamp_ns: u64, end_timestamp_ns: u64) -> (name: String)
    ensures
        name@ == segment_file_name(sequence, start_timestamp_ns, end_timestamp_ns),
{
    let mut name = SEGMENT_PREFIX.to_owned();
    push_hex(&mut name, sequence);
    name.push('-');
    push_hex(&mut name, start_timestamp_ns);
    name.push('-');
    push_hex(&mut name, end_timestamp_ns);
    name.append(SEGMENT_SUFFIX);
    assert(name@ =~= segment_file_name(sequence, start_timestamp_ns, end_timestamp_ns));
    name
}

/// Names a segment file that is still being written.
pub fn temporary_segment_name(sequence: u64) -> (name: String)
    ensures
        name@ == temporary_file_name(sequence),
{
    let mut name = TEMPORARY_PREFIX.to_owned();
    push_hex(&mut name, sequence);
    name.append(TEMP_SUFFIX);
    name
}

/// The sequence and the timestamps that a segment name holds.
pub open spec fn named_segment(name: Seq<char>) -> Option<(u64, u64, u64)> {
    match text::after_prefix(name, SEGMENT_PREFIX@) {
        None => None,
        Some(rest) => match text::before_suffix(rest, SEGMENT_SUFFIX@) {
            None => None,
            Some(body) => match text::split_at_first(body, '-') {
                None => None,
                Some((sequence, times)) => match text::split_at_first(times, '-') {
                    None => None,
                    Some((start, end)) => match (
                        text::parsed_hex(sequence),
                        text::parsed_hex(start),
                        text::parsed_hex(end),
                    ) {
                        (Some(sequence), Some(start), Some(end)) => Some(
                            (sequence as u64, start as u64, end as u64),
                        ),
                        _ => None,
                    },
                },
            },
        },
    }
}

/// Reads a segment name.
pub fn parse_segment_name(name: &str) -> (result: Option<(u64, u64, u64)>)
    ensures
        result == named_segment(name@),
{
    let chars = text::chars_of(name);
    let rest = match text::strip_prefix(chars.as_slice(), SEGMENT_PREFIX) {
        None => {
            return None;
        },
        Some(rest) => rest,
    };
    let body = match text::strip_suffix(rest.as_slice(), SEGMENT_SUFFIX) {
        None => {
            return None;
        },
        Some(body) => body,
    };
    match text::split_once(body.as_slice(), '-') {
        None => None,
        Some((sequence, times)) => match text::split_once(times.as_slice(), '-') {
            None => None,
            Some((start, end)) => {
                match (
                    text::parse_hex(sequence.as_slice()),
                    text::parse_hex(start.as_slice()),
                    text::parse_hex(end.as_slice()),
                ) {
                    (Some(sequence), Some(start), Some(end)) => Some((sequence, start, end)),
                    _ => None,
                }
            },
        },
    }
}

/// A segment name reads back as what it was made from.
pub proof fn segment_name_round_trip(sequence: u64, start: u64, end: u64)
    ensures
        named_segment(segment_file_name(sequence, start, end)) == Some((sequence, start, end)),
{
    let name = segment_file_name(sequence, start, end);
    let first = text::hex_fixed(sequence as nat, 16);
    let second = text::hex_fixed(start as nat, 16);
    let third = text::hex_fixed(end as nat, 16);
    text::hex_sixteen_round_trip(sequence);
    text::hex_sixteen_round_trip(start);
    text::hex_sixteen_round_trip(end);
    let body = first + seq!['-'] + (second + seq!['-'] + third);
    assert(name.take(SEGMENT_PREFIX@.len() as int) =~= SEGMENT_PREFIX@);
    let rest = name.skip(SEGMENT_PREFIX@.len() as int);
    assert(rest =~= body + SEGMENT_SUFFIX@);
    assert(rest.skip(rest.len() - SEGMENT_SUFFIX@.len()) =~= SEGMENT_SUFFIX@);
    assert(rest.take(rest.len() - SEGMENT_SUFFIX@.len()) =~= body);
    text::lemma_field_splits(first, '-', second + seq!['-'] + third);
    text::lemma_field_splits(second, '-', third);
}

/// What a file in the spool directory is to the spool.
#[derive(Clone, Copy, Debug, PartialEq, Eq, Structural)]
pub enum SpoolEntryKind {
    Foreign,
    Temporary,
    Segment { sequence: u64, start_timestamp_ns: u64, end_timestamp_ns: u64 },
}

/// The kind that a file name shows.
pub open spec fn entry_kind(name: Seq<char>) -> SpoolEntryKind {
    if text::after_prefix(name, TEMPORARY_PREFIX@) is Some && text::before_suffix(
        name,
        TEMP_SUFFIX@,
    ) is Some {
        SpoolEntryKind::Temporary
    } else {
        match named_segment(name) {
            Some((sequence, start_timestamp_ns, end_timestamp_ns)) => SpoolEntryKind::Segment {
                sequence,
                start_timestamp_ns,
                end_timestamp_ns,
            },
            None => SpoolEntryKind::Foreign,
        }
    }
}

/// Tells temporary files, complete segments and foreign files apart.
pub fn classify_entry(name: &str) -> (result: SpoolEntryKind)
    ensures
        result == entry_kind(name@),
{
    let chars = text::chars_of(name);
    if text::strip_prefix(chars.as_slice(), TEMPORARY_PREFIX).is_some() && text::strip_suffix(
        chars.as_slice(),
        TEMP_SUFFIX,
    ).is_some() {
        return SpoolEntryKind::Temporary;
    }
    match parse_segment_name(name) {
        Some((sequence, start_timestamp_ns, end_timestamp_ns)) => SpoolEntryKind::Segment {
            sequence,
            start_timestamp_ns,
            end_timestamp_ns,
        },
        None => SpoolEntryKind::Foreign,
    }
}

/// File bytes of a list of segments.
pub open spec fn segment_bytes(segments: Seq<SegmentView>) -> nat
    decreases segments.len(),
{
    if segments.len() == 0 {
        0
    } else {
        segments.first().bytes as nat + segment_bytes(segments.drop_first())
    }
}

/// Nanoseconds from the start of the oldest to the end of the newest segment.
pub open spec fn retained_ns(segments: Seq<SegmentView>) -> int {
    if segments.len() == 0 {
        0
    } else {
        segments.last().end_timestamp_ns - segments.first().start_timestamp_ns
    }
}

/// Whether a list of segments is within the limits.
pub open spec fn within_limits(limits: SpoolLimits, segments: Seq<SegmentView>) -> bool {
    &&& segments.len() <= MAX_SEGMENTS
    &&& segment_bytes(segments) <= limits.bytes
    &&& retained_ns(segments) <= limits.duration_ns
}

/// The longest suffix of a list of segments that is within the limits.
pub open spec fn retained_segments(limits: SpoolLimits, segments: Seq<SegmentView>) -> Seq<
    SegmentView,
>
    decreases segments.len(),
{
    if segments.len() == 0 || within_limits(limits, segments) {
        segments
    } else {
        retained_segments(limits, segments.drop_first())
    }
}

proof fn lemma_bytes_push(segments: Seq<SegmentView>, segment: SegmentView)
    ensures
        segment_bytes(segments.push(segment)) == segment_bytes(segments) + segment.bytes,
    decreases segments.len(),
{
    reveal_with_fuel(segment_bytes, 2);
    if segments.len() == 0 {
        assert(segments.push(segment).drop_first() =~= Seq::<SegmentView>::empty());
    } else {
        assert(segments.push(segment).drop_first() =~= segments.drop_first().push(segment));
        lemma_bytes_push(segments.drop_first(), segment);
    }
}

/// What remains after old segments were removed is within the limits and is a
/// suffix: the newest segments are kept.
pub proof fn retention_keeps_newest(limits: SpoolLimits, segments: Seq<SegmentView>)
    ensures
        within_limits(limits, retained_segments(limits, segments)),
        retained_segments(limits, segments).len() <= segments.len(),
        retained_segments(limits, segments) == segments.skip(
            segments.len() - retained_segments(limits, segments).len(),
        ),
    decreases segments.len(),
{
    if segments.len() == 0 || within_limits(limits, segments) {
        assert(segments.skip(0) =~= segments);
    } else {
        let rest = segments.drop_first();
        retention_keeps_newest(limits, rest);
        let kept = retained_segments(limits, rest).len();
        assert(rest.skip(rest.len() - kept) =~= segments.skip(segments.len() - kept));
    }
}

/// A segment put behind every segment that does not start later.
pub open spec fn placed(sorted: Seq<SegmentView>, segment: SegmentView) -> Seq<SegmentView>
    decreases sorted.len(),
{
    if sorted.len() == 0 || sorted.last().start_timestamp_ns <= segment.start_timestamp_ns {
        sorted.push(segment)
    } else {
        placed(sorted.drop_last(), segment).push(sorted.last())
    }
}

/// Segments by start, those that start together in the order they came.
pub open spec fn by_start(segments: Seq<SegmentView>) -> Seq<SegmentView>
    decreases segments.len(),
{
    if segments.len() == 0 {
        segments
    } else {
        placed(by_start(segments.drop_last()), segments.last())
    }
}

/// Whether starts never decrease.
pub open spec fn is_by_start(segments: Seq<SegmentView>) -> bool {
    forall|i: int, j: int|
        0 <= i < j < segments.len() ==> segments[i].start_timestamp_ns
            <= segments[j].start_timestamp_ns
}

proof fn lemma_placed(sorted: Seq<SegmentView>, segment: SegmentView)
    requires
        is_by_start(sorted),
    ensures
        is_by_start(placed(sorted, segment)),
        placed(sorted, segment).len() == sorted.len() + 1,
        placed(sorted, segment).to_multiset() == sorted.to_multiset().insert(segment),
        segment_bytes(placed(sorted, segment)) == segment_bytes(sorted) + segment.bytes,
        forall|i: int|
            0 <= i <= sorted.len() ==> (#[trigger] placed(sorted, segment)[i] == segment
                || exists|j: int| 0 <= j < sorted.len() && placed(sorted, segment)[i] == sorted[j]),
    decreases sorted.len(),
{
    broadcast use vstd::seq_lib::group_to_multiset_ensures;

    let result = placed(sorted, segment);
    if sorted.len() == 0 || sorted.last().start_timestamp_ns <= segment.start_timestamp_ns {
        lemma_bytes_push(sorted, segment);
        assert forall|i: int| 0 <= i <= sorted.len() implies (#[trigger] result[i] == segment
            || exists|j: int| 0 <= j < sorted.len() && result[i] == sorted[j]) by {
            if i < sorted.len() {
                assert(result[i] == sorted[i]);
            }
        }
    } else {
        let shorter = sorted.drop_last();
        lemma_placed(shorter, segment);
        let inner = placed(shorter, segment);
        lemma_bytes_push(inner, sorted.last());
        assert(sorted =~= shorter.push(sorted.last()));
        lemma_bytes_push(shorter, sorted.last());
        assert(result.to_multiset() =~= sorted.to_multiset().insert(segment));
        assert forall|i: int| 0 <= i <= sorted.len() implies (#[trigger] result[i] == segment
            || exists|j: int| 0 <= j < sorted.len() && result[i] == sorted[j]) by {
            if i < sorted.len() {
                assert(result[i] == inner[i]);
                if inner[i] != segment {
                    let j = choose|j: int| 0 <= j < shorter.len() && inner[i] == shorter[j];
                    assert(result[i] == sorted[j]);
                }
            } else {
                assert(result[i] == sorted[sorted.len() - 1]);
            }
        }
        assert(is_by_start(result)) by {
            assert forall|i: int, j: int| 0 <= i < j < result.len() implies
                result[i].start_timestamp_ns <= result[j].start_timestamp_ns by {
                if j == result.len() - 1 {
                    assert(result[i] == inner[i]);
                    if inner[i] != segment {
                        let k = choose|k: int| 0 <= k < shorter.len() && inner[i] == shorter[k];
                        assert(sorted[k].start_timestamp_ns <= sorted[sorted.len()
                            - 1].start_timestamp_ns);
                    }
                } else {
                    assert(inner[i].start_timestamp_ns <= inner[j].start_timestamp_ns);
                }
            }
        }
    }
}

/// Sorting by start orders the segments and neither loses nor invents one.
pub proof fn by_start_sorts(segments: Seq<SegmentView>)
    ensures
        is_by_start(by_start(segments)),
        by_start(segments).len() == segments.len(),
        by_start(segments).to_multiset() == segments.to_multiset(),
        segment_bytes(by_start(segments)) == segment_bytes(segments),
    decreases segments.len(),
{
    broadcast use vstd::seq_lib::group_to_multiset_ensures;

    if segments.len() > 0 {
        let shorter = segments.drop_last();
        by_start_sorts(shorter);
        lemma_placed(by_start(shorter), segments.last());
        assert(segments =~= shorter.push(segments.last()));
        lemma_bytes_push(shorter, segments.last());
    }
}

/// Complete segments, oldest first, with their counters.
#[derive(Debug)]
pub struct SpoolIndex {
    segments: Vec<ReplaySpoolSegment>,
    active_bytes: u64,
    generation: u64,
    recovered_segments: u32,
    dropped_awaiting_keyframe: u64,
}

/// What a [`SpoolIndex`] holds.
#[verifier::ext_equal]
pub ghost struct IndexView {
    pub segments: Seq<SegmentView>,
    pub active_bytes: u64,
    pub generation: u64,
    pub recovered_segments: u32,
    pub dropped_awaiting_keyframe: u64,
}

impl View for SpoolIndex {
    type V = IndexView;

    closed spec fn view(&self) -> IndexView {
        IndexView {
            segments: segment_views(self.segments@),
            active_bytes: self.active_bytes,
            generation: self.generation,
            recovered_segments: self.recovered_segments,
            dropped_awaiting_keyframe: self.dropped_awaiting_keyframe,
        }
    }
}

/// One file of the spool directory, as far as recovery looks at it.
#[derive(Debug, PartialEq, Eq)]
pub struct SpoolEntry {
    /// The name, where it is valid text.
    pub name: Option<String>,
    pub path: Vec<u8>,
    pub regular: bool,
    pub bytes: u64,
    /// The first eight bytes, or all there are.
    pub header: Vec<u8>,
}

/// What the entries of a spool directory come to.
pub ghost struct RecoveryView {
    pub index: IndexView,
    /// Positions of the abandoned temporary files.
    pub abandoned: Seq<int>,
}

/// An index without segments.
pub open spec fn empty_index() -> IndexView {
    IndexView {
        segments: Seq::empty(),
        active_bytes: 0,
        generation: 0,
        recovered_segments: 0,
        dropped_awaiting_keyframe: 0,
    }
}

/// What the first `count` entries come to, unsorted, or why one is refused.
pub open spec fn recovered(entries: Seq<SpoolEntry>, count: int) -> Result<RecoveryView, Seq<char>>
    decreases count,
{
    if count <= 0 {
        Ok(RecoveryView { index: empty_index(), abandoned: Seq::empty() })
    } else {
        match recovered(entries, count - 1) {
            Err(reason) => Err(reason),
            Ok(before) => {
                let entry = entries[count - 1];
                if count > MAX_SPOOL_ENTRIES {
                    Err("Replay spool contains too many entries"@)
                } else {
                    match entry.name {
                        None => Ok(before),
                        Some(name) => match entry_kind(name@) {
                            SpoolEntryKind::Foreign => Ok(before),
                            SpoolEntryKind::Temporary => if entry.regular {
                                Ok(
                                    RecoveryView {
                                        abandoned: before.abandoned.push(count - 1),
                                        ..before
                                    },
                                )
                            } else {
                                Ok(before)
                            },
                            SpoolEntryKind::Segment {
                                sequence,
                                start_timestamp_ns,
                                end_timestamp_ns,
                            } => if !entry.regular || start_timestamp_ns >= end_timestamp_ns
                                || entry.bytes > MAX_SEGMENT_BYTES {
                                Err("owned Replay segment is invalid"@)
                            } else if entry.header@.len() < SEGMENT_MAGIC_BYTES {
                                Err("could not read Replay segment: failed to fill whole buffer"@)
                            } else if entry.header@ != SEGMENT_MAGIC.spec_bytes() {
                                Err("owned Replay segment header is invalid"@)
                            } else {
                                Ok(
                                    RecoveryView {
                                        index: IndexView {
                                            segments: before.index.segments.push(
                                                SegmentView {
                                                    path: entry.path@,
                                                    start_timestamp_ns,
                                                    end_timestamp_ns,
                                                    bytes: entry.bytes,
                                                },
                                            ),
                                            active_bytes: (before.index.active_bytes
                                                + entry.bytes) as u64,
                                            generation: if before.index.generation < sequence {
                                                sequence
                                            } else {
                                                before.index.generation
                                            },
                                            recovered_segments: (before.index.recovered_segments
                                                + 1) as u32,
                                            ..before.index
                                        },
                                        ..before
                                    },
                                )
                            },
                        },
                    }
                }
            },
        }
    }
}

/// An entry that is refused leaves what was abandoned before it.
proof fn lemma_refused(entries: Seq<SpoolEntry>, position: int)
    requires
        0 <= position < entries.len(),
        recovered(entries, position) is Ok,
        recovered(entries, position + 1) is Err,
    ensures
        recovered(entries, entries.len() as int) == recovered(entries, position + 1),
        abandoned_until(entries, entries.len() as int) == recovered(
            entries,
            position,
        )->Ok_0.abandoned,
{
    reveal_with_fuel(abandoned_until, 3);
    assert(abandoned_until(entries, position) == recovered(entries, position)->Ok_0.abandoned);
    assert(abandoned_until(entries, position + 1) == abandoned_until(entries, position));
    lemma_recovery_error_stays(entries, position + 1, entries.len() as int);
}

proof fn lemma_recovery_error_stays(entries: Seq<SpoolEntry>, early: int, late: int)
    requires
        0 <= early <= late,
        recovered(entries, early) is Err,
    ensures
        recovered(entries, late) == recovered(entries, early),
        abandoned_until(entries, late) == abandoned_until(entries, early),
    decreases late,
{
    if early < late {
        lemma_recovery_error_stays(entries, early, late - 1);
    }
}

/// The abandoned temporary files among the first `count` entries, up to the
/// first entry that is refused.
pub open spec fn abandoned_until(entries: Seq<SpoolEntry>, count: int) -> Seq<int>
    decreases count,
{
    match recovered(entries, count) {
        Ok(all) => all.abandoned,
        Err(_) => if count <= 0 {
            Seq::empty()
        } else {
            abandoned_until(entries, count - 1)
        },
    }
}

/// What a list of positions holds.
pub open spec fn positions(list: Seq<usize>) -> Seq<int> {
    list.map_values(|position: usize| position as int)
}

impl SpoolIndex {
    /// The index's invariant: an exact byte count.
    pub open spec fn wf(&self) -> bool {
        self@.active_bytes == segment_bytes(self@.segments)
    }

    pub fn new() -> (result: Self)
        ensures
            result.wf(),
            result@ == empty_index(),
    {
        let result = SpoolIndex {
            segments: Vec::new(),
            active_bytes: 0,
            generation: 0,
            recovered_segments: 0,
            dropped_awaiting_keyframe: 0,
        };
        assert(result@.segments =~= Seq::<SegmentView>::empty());
        result
    }

    pub fn generation(&self) -> (result: u64)
        ensures
            result == self@.generation,
    {
        self.generation
    }

    pub fn active_bytes(&self) -> (result: u64)
        ensures
            result == self@.active_bytes,
    {
        self.active_bytes
    }

    pub fn recovered_segments(&self) -> (result: u32)
        ensures
            result == self@.recovered_segments,
    {
        self.recovered_segments
    }

    pub fn dropped_awaiting_keyframe(&self) -> (result: u64)
        ensures
            result == self@.dropped_awaiting_keyframe,
    {
        self.dropped_awaiting_keyframe
    }

    pub fn segments(&self) -> (result: &[ReplaySpoolSegment])
        ensures
            segment_views(result@) == self@.segments,
    {
        self.segments.as_slice()
    }

    /// Counts a packet that no segment could start with.
    pub fn count_dropped(&mut self)
        requires
            old(self).wf(),
        ensures
            final(self).wf(),
            final(self)@ == (IndexView {
                dropped_awaiting_keyframe: replay_ring::capped(
                    old(self)@.dropped_awaiting_keyframe + 1,
                    u64::MAX as int,
                ) as u64,
                ..old(self)@
            }),
    {
        self.dropped_awaiting_keyframe = self.dropped_awaiting_keyframe.saturating_add(1);
    }

    /// Rebuilds the index from the files of an owned directory. Abandoned
    /// temporary files are those to remove, also when an entry behind them is
    /// refused.
    pub fn recover(entries: &[SpoolEntry]) -> (result: (Vec<usize>, Result<Self, ReplaySpoolError>))
        ensures
            positions(result.0@) == abandoned_until(entries@, entries@.len() as int),
            match result.1 {
                Ok(index) => {
                    &&& recovered(entries@, entries@.len() as int) matches Ok(all)
                    &&& index.wf()
                    &&& index@ == IndexView {
                        segments: by_start(all.index.segments),
                        ..all.index
                    }
                },
                Err(error) => !error.is_short() && recovered(entries@, entries@.len() as int)
                    == Err::<RecoveryView, Seq<char>>(error@),
            },
    {
        let mut abandoned: Vec<usize> = Vec::new();
        let mut index = SpoolIndex::new();
        let mut position: usize = 0;
        assert(positions(abandoned@) =~= Seq::<int>::empty());
        assert(by_start(Seq::<SegmentView>::empty()) =~= Seq::<SegmentView>::empty());
        while position < entries.len()
            invariant
                position <= entries@.len(),
                position <= MAX_SPOOL_ENTRIES,
                recovered(entries@, position as int) matches Ok(all) && {
                    &&& positions(abandoned@) == all.abandoned
                    &&& index@ == IndexView {
                        segments: by_start(all.index.segments),
                        ..all.index
                    }
                    &&& index@.active_bytes == segment_bytes(all.index.segments)
                    &&& index@.active_bytes <= position * MAX_SEGMENT_BYTES
                    &&& index@.recovered_segments <= position
                },
            decreases entries@.len() - position,
        {
            let entry = &entries[position];
            let ghost before = recovered(entries@, position as int)->Ok_0;
            if position >= MAX_SPOOL_ENTRIES {
                proof {
                    lemma_refused(entries@, position as int);
                }
                return (
                    abandoned,
                    Err(ReplaySpoolError::new("Replay spool contains too many entries")),
                );
            }
            if let Some(name) = &entry.name {
                match classify_entry(name.as_str()) {
                    SpoolEntryKind::Foreign => {},
                    SpoolEntryKind::Temporary => {
                        if entry.regular {
                            abandoned.push(position);
                            assert(positions(abandoned@) =~= before.abandoned.push(
                                position as int,
                            ));
                        }
                    },
                    SpoolEntryKind::Segment { sequence, start_timestamp_ns, end_timestamp_ns } => {
                        if !entry.regular || start_timestamp_ns >= end_timestamp_ns || entry.bytes
                            > MAX_SEGMENT_BYTES {
                            proof {
                                lemma_refused(entries@, position as int);
                            }
                            return (
                                abandoned,
                                Err(ReplaySpoolError::new("owned Replay segment is invalid")),
                            );
                        }
                        if (entry.header.len() as u64) < SEGMENT_MAGIC_BYTES {
                            proof {
                                lemma_refused(entries@, position as int);
                            }
                            return (
                                abandoned,
                                Err(
                                    ReplaySpoolError::new(
                                        "could not read Replay segment: failed to fill whole buffer",
                                    ),
                                ),
                            );
                        }
                        if !text::same_bytes(entry.header.as_slice(), SEGMENT_MAGIC.as_bytes()) {
                            proof {
                                lemma_refused(entries@, position as int);
                            }
                            return (
                                abandoned,
                                Err(ReplaySpoolError::new("owned Replay segment header is invalid")),
                            );
                        }
                        let path = entry.path.clone();
                        assert(path@ =~= entry.path@);
                        let segment = ReplaySpoolSegment {
                            path,
                            start_timestamp_ns,
                            end_timestamp_ns,
                            bytes: entry.bytes,
                        };
                        proof {
                            lemma_bytes_push(before.index.segments, segment@);
                            assert(before.index.segments.push(segment@).drop_last()
                                =~= before.index.segments);
                        }
                        index.active_bytes = index.active_bytes + entry.bytes;
                        if index.generation < sequence {
                            index.generation = sequence;
                        }
                        index.recovered_segments = index.recovered_segments + 1;
                        index.place(segment);
                    },
                }
            }
            position = position + 1;
        }
        proof {
            by_start_sorts(recovered(entries@, entries@.len() as int)->Ok_0.index.segments);
        }
        (abandoned, Ok(index))
    }

    fn place(&mut self, segment: ReplaySpoolSegment)
        ensures
            final(self)@ == (IndexView {
                segments: placed(old(self)@.segments, segment@),
                ..old(self)@
            }),
    {
        let ghost all = segment_views(self.segments@);
        let ghost given = segment@;
        let mut at: usize = self.segments.len();
        assert(all.take(all.len() as int) =~= all);
        assert(all.skip(all.len() as int) =~= Seq::<SegmentView>::empty());
        assert(placed(all, given) + Seq::<SegmentView>::empty() =~= placed(all, given));
        while at > 0 && self.segments[at - 1].start_timestamp_ns > segment.start_timestamp_ns
            invariant
                at <= self.segments@.len(),
                all == segment_views(self.segments@),
                given == segment@,
                placed(all, given) == placed(all.take(at as int), given) + all.skip(at as int),
                *self == *old(self),
            decreases at,
        {
            proof {
                let part = all.take(at as int);
                assert(part.drop_last() =~= all.take(at - 1));
                assert(part.last() == all[at - 1]);
                assert(all[at - 1] == self.segments@[at - 1]@);
                assert(seq![all[at - 1]] + all.skip(at as int) =~= all.skip(at - 1));
                assert(placed(part, given) =~= placed(all.take(at - 1), given).push(all[at - 1]));
                assert(placed(all.take(at - 1), given).push(all[at - 1]) + all.skip(at as int)
                    =~= placed(all.take(at - 1), given) + all.skip(at - 1));
            }
            at = at - 1;
        }
        proof {
            let part = all.take(at as int);
            if at > 0 {
                assert(all[at - 1] == self.segments@[at - 1]@);
                assert(part.last() == all[at - 1]);
            }
            assert(placed(part, given) == part.push(given));
        }
        self.segments.insert(at, segment);
        proof {
            assert(segment_views(self.segments@) =~= all.take(at as int).push(given) + all.skip(
                at as int,
            ));
        }
    }

    /// Removes old segments until the rest is within the limits, and hands
    /// them out, oldest first.
    pub fn enforce_limits(&mut self, limits: SpoolLimits) -> (removed: Vec<ReplaySpoolSegment>)
        requires
            old(self).wf(),
        ensures
            final(self).wf(),
            final(self)@ == (IndexView {
                segments: retained_segments(limits, old(self)@.segments),
                active_bytes: segment_bytes(
                    retained_segments(limits, old(self)@.segments),
                ) as u64,
                ..old(self)@
            }),
            old(self)@.segments == segment_views(removed@) + final(self)@.segments,
    {
        let mut removed: Vec<ReplaySpoolSegment> = Vec::new();
        let ghost all = self@.segments;
        assert(segment_views(removed@) + self@.segments =~= all);
        while self.exceeds(limits)
            invariant
                self.wf(),
                self@.generation == old(self)@.generation,
                self@.recovered_segments == old(self)@.recovered_segments,
                self@.dropped_awaiting_keyframe == old(self)@.dropped_awaiting_keyframe,
                all == old(self)@.segments,
                retained_segments(limits, self@.segments) == retained_segments(limits, all),
                segment_views(removed@) + self@.segments == all,
            decreases self@.segments.len(),
        {
            let ghost before = self@.segments;
            let ghost gone = segment_views(removed@);
            let segment = self.segments.remove(0);
            self.active_bytes = self.active_bytes - segment.bytes;
            proof {
                assert(segment@ == before[0]);
                assert(self@.segments =~= before.drop_first());
            }
            removed.push(segment);
            proof {
                assert(segment_views(removed@) =~= gone.push(before[0]));
                assert(gone.push(before[0]) + before.drop_first() =~= gone + before);
            }
        }
        removed
    }

    fn exceeds(&self, limits: SpoolLimits) -> (result: bool)
        requires
            self.wf(),
        ensures
            result == !within_limits(limits, self@.segments),
    {
        let count: usize = self.segments.len();
        let mut too_long = false;
        if count > 0 {
            let newest: u64 = self.segments[count - 1].end_timestamp_ns;
            let oldest: u64 = self.segments[0].start_timestamp_ns;
            assert(self@.segments[count - 1] == self.segments@[count - 1]@);
            assert(self@.segments[0] == self.segments@[0]@);
            too_long = newest.saturating_sub(oldest) > limits.duration_ns;
        }
        count > MAX_SEGMENTS || self.active_bytes > limits.bytes || too_long
    }

    /// Adds a segment that was just completed, and removes what no longer
    /// fits beside it.
    pub fn commit(&mut self, segment: ReplaySpoolSegment, limits: SpoolLimits) -> (removed: Vec<
        ReplaySpoolSegment,
    >)
        requires
            old(self).wf(),
            old(self)@.active_bytes + segment.bytes <= u64::MAX,
        ensures
            final(self).wf(),
            ({
                let all = old(self)@.segments.push(segment@);
                &&& final(self)@ == IndexView {
                    segments: retained_segments(limits, all),
                    active_bytes: segment_bytes(retained_segments(limits, all)) as u64,
                    generation: replay_ring::capped(
                        old(self)@.generation + 1,
                        u64::MAX as int,
                    ) as u64,
                    ..old(self)@
                }
                &&& all == segment_views(removed@) + final(self)@.segments
            }),
    {
        proof {
            lemma_bytes_push(self@.segments, segment@);
        }
        let ghost before = self@.segments;
        self.active_bytes = self.active_bytes + segment.bytes;
        self.generation = self.generation.saturating_add(1);
        self.segments.push(segment);
        assert(self@.segments =~= before.push(segment@));
        self.enforce_limits(limits)
    }

    /// Forgets every complete segment and hands them out, oldest first.
    pub fn clear(&mut self) -> (removed: Vec<ReplaySpoolSegment>)
        requires
            old(self).wf(),
        ensures
            final(self).wf(),
            segment_views(removed@) == old(self)@.segments,
            final(self)@ == (IndexView {
                segments: Seq::empty(),
                active_bytes: 0,
                generation: replay_ring::capped(old(self)@.generation + 1, u64::MAX as int) as u64,
                ..old(self)@
            }),
    {
        let mut removed: Vec<ReplaySpoolSegment> = Vec::new();
        removed.append(&mut self.segments);
        self.active_bytes = 0;
        self.generation = self.generation.saturating_add(1);
        proof {
            assert(segment_views(removed@) =~= old(self)@.segments);
            assert(self@.segments =~= Seq::<SegmentView>::empty());
        }
        removed
    }

    /// Selects the complete segments that hold the last `requested` interval.
    pub fn snapshot_plan(&self, requested: ReplayDuration) -> (result: Result<
        ReplaySpoolSnapshotPlan,
        ReplaySpoolError,
    >)
        ensures
            ({
                let chosen = recent_segments(self@.segments, cutoff(self@.segments, requested));
                match result {
                    Ok(plan) => {
                        &&& self@.segments.len() > 0
                        &&& retained_ns(chosen) >= MIN_SAVABLE_HISTORY_NS
                        &&& segment_views(plan.segments@) == chosen
                        &&& plan.requested_duration == requested
                        &&& plan.available_duration_ns == retained_ns(chosen)
                        &&& plan.generation == self@.generation
                    },
                    Err(error) => if self@.segments.len() == 0 {
                        error@ == "no complete Replay segment is available"@ && !error.is_short()
                    } else {
                        retained_ns(chosen) < MIN_SAVABLE_HISTORY_NS && error.is_short() && error@
                            == "Replay just started; try saving again in a moment"@
                    },
                }
            }),
    {
        let count: usize = self.segments.len();
        if count == 0 {
            return Err(ReplaySpoolError::new("no complete Replay segment is available"));
        }
        let ghost all = self@.segments;
        let newest: u64 = self.segments[count - 1].end_timestamp_ns;
        assert(all.last() == self.segments@[count - 1]@);
        let earliest: u64 = newest.saturating_sub(
            requested.seconds() as u64 * NANOSECONDS_PER_SECOND,
        );
        let mut from: usize = count;
        assert(all.skip(count as int) =~= Seq::<SegmentView>::empty());
        assert(all.take(count as int) =~= all);
        assert(recent_segments(all, earliest as int) + Seq::<SegmentView>::empty()
            =~= recent_segments(all, earliest as int));
        while from > 0 && self.segments[from - 1].end_timestamp_ns > earliest
            invariant
                from <= count == self.segments@.len(),
                all == self@.segments,
                recent_segments(all, earliest as int) == recent_segments(
                    all.take(from as int),
                    earliest as int,
                ) + all.skip(from as int),
            decreases from,
        {
            proof {
                let part = all.take(from as int);
                assert(all[from - 1] == self.segments@[from - 1]@);
                assert(part.drop_last() =~= all.take(from - 1));
                assert(recent_segments(part, earliest as int) =~= recent_segments(
                    all.take(from - 1),
                    earliest as int,
                ).push(all[from - 1]));
                assert(recent_segments(all.take(from - 1), earliest as int).push(all[from - 1])
                    + all.skip(from as int) =~= recent_segments(
                    all.take(from - 1),
                    earliest as int,
                ) + all.skip(from - 1));
            }
            from = from - 1;
        }
        proof {
            let part = all.take(from as int);
            if from > 0 {
                assert(all[from - 1] == self.segments@[from - 1]@);
            }
            assert(recent_segments(part, earliest as int) =~= Seq::<SegmentView>::empty());
            assert(recent_segments(all, earliest as int) =~= all.skip(from as int));
        }
        let mut segments: Vec<ReplaySpoolSegment> = Vec::new();
        let mut index: usize = from;
        assert(segment_views(segments@) =~= all.subrange(from as int, from as int));
        while index < count
            invariant
                from <= index <= count == self.segments@.len(),
                all == self@.segments,
                segment_views(segments@) == all.subrange(from as int, index as int),
            decreases count - index,
        {
            let segment = self.segments[index].clone();
            let ghost before = segment_views(segments@);
            segments.push(segment);
            proof {
                assert(segment@ == all[index as int]);
                assert(segment_views(segments@) =~= before.push(segment@));
                assert(before.push(segment@) =~= all.subrange(from as int, index + 1));
            }
            index = index + 1;
        }
        assert(all.subrange(from as int, count as int) =~= all.skip(from as int));
        let mut available_duration_ns: u64 = 0;
        if segments.len() > 0 {
            assert(segment_views(segments@)[0] == segments@[0]@);
            available_duration_ns = newest.saturating_sub(segments[0].start_timestamp_ns);
        }
        if available_duration_ns < MIN_SAVABLE_HISTORY_NS {
            return Err(ReplaySpoolError::insufficient_history());
        }
        Ok(
            ReplaySpoolSnapshotPlan {
                segments,
                requested_duration: requested,
                available_duration_ns,
                generation: self.generation,
            },
        )
    }
}

/// The time before which segments do not belong to a requested interval.
pub open spec fn cutoff(segments: Seq<SegmentView>, requested: ReplayDuration) -> int {
    let earliest = segments.last().end_timestamp_ns - replay_settings::duration_seconds(requested)
        * NANOSECONDS_PER_SECOND;
    if earliest < 0 {
        0
    } else {
        earliest
    }
}

/// The longest run of newest segments that all end after `earliest`.
pub open spec fn recent_segments(segments: Seq<SegmentView>, earliest: int) -> Seq<SegmentView>
    decreases segments.len(),
{
    if segments.len() == 0 || segments.last().end_timestamp_ns <= earliest {
        Seq::empty()
    } else {
        recent_segments(segments.drop_last(), earliest).push(segments.last())
    }
}

/// The record of one packet: timestamp, duration, keyframe flag, length,
/// payload.
#[verifier::opaque]
pub open spec fn record(packet: PacketView) -> Seq<u8> {
    wire::le64(packet.timestamp_ns) + wire::le64(packet.duration_ns) + seq![
        if packet.keyframe {
            1u8
        } else {
            0u8
        },
    ] + wire::le32(packet.bytes.len() as u32) + packet.bytes
}

/// The records of packets, one after the other.
pub open spec fn records(packets: Seq<PacketView>) -> Seq<u8>
    decreases packets.len(),
{
    if packets.len() == 0 {
        Seq::empty()
    } else {
        record(packets[0]) + records(packets.drop_first())
    }
}

/// Bytes that a packet takes in a segment file.
pub open spec fn record_size(packet: PacketView) -> int {
    RECORD_HEADER_BYTES + packet.bytes.len()
}

/// Writes the record of one packet.
pub fn encode_record(packet: &EncodedReplayPacket) -> (result: Vec<u8>)
    ensures
        result@ == record(packet@),
        result@.len() == record_size(packet@),
{
    reveal(record);
    let mut result: Vec<u8> = Vec::new();
    wire::put_le_u64(&mut result, packet.timestamp_ns());
    assert(result@ =~= wire::le64(packet@.timestamp_ns));
    wire::put_le_u64(&mut result, packet.duration_ns());
    result.push(
        if packet.is_keyframe() {
            1
        } else {
            0
        },
    );
    wire::put_le_u32(&mut result, packet.bytes().len() as u32);
    result.extend_from_slice(packet.bytes());
    assert(result@ =~= record(packet@));
    result
}

/// The reason for a read past the end of a segment file.
pub open spec fn short_read(field: Seq<char>) -> Seq<char> {
    "could not read Replay snapshot "@ + field + ": failed to fill whole buffer"@
}

/// The record at `at` in a segment file whose size is declared: the packet
/// and the place behind it, or the reason there is none.
pub open spec fn read_record(contents: Seq<u8>, at: int, declared: int) -> Result<
    (PacketView, int),
    Seq<char>,
> {
    if at + 8 > contents.len() {
        Err(short_read("timestamp"@))
    } else if at + 16 > contents.len() {
        Err(short_read("duration"@))
    } else if at + 17 > contents.len() {
        Err(short_read("keyframe flag"@))
    } else if contents[at + 16] > 1 {
        Err("Replay snapshot keyframe flag is invalid"@)
    } else if at + 21 > contents.len() {
        Err(short_read("packet length"@))
    } else {
        let length = wire::from_le32(contents.skip(at + 17)) as int;
        let end = at + RECORD_HEADER_BYTES + length;
        if length == 0 || length > MAX_SINGLE_PACKET_BYTES || end > declared {
            Err("Replay snapshot packet length is invalid"@)
        } else if end > contents.len() {
            Err(short_read("packet"@))
        } else {
            let packet = PacketView {
                timestamp_ns: wire::from_le64(contents.skip(at)) as u64,
                duration_ns: wire::from_le64(contents.skip(at + 8)) as u64,
                keyframe: contents[at + 16] == 1,
                bytes: contents.subrange(at + 21, end),
            };
            match replay_ring::packet_error(packet) {
                Some(error) => Err("invalid Replay snapshot packet: "@ + packet_reason(error)),
                None => Ok((packet, end)),
            }
        }
    }
}

/// The sentence of a packet error.
pub open spec fn packet_reason(error: replay_ring::ReplayPacketError) -> Seq<char> {
    match error {
        replay_ring::ReplayPacketError::Empty => "encoded replay packet is empty"@,
        replay_ring::ReplayPacketError::TooLarge => "encoded replay packet exceeds 8 MiB"@,
        replay_ring::ReplayPacketError::InvalidDuration => "encoded replay packet duration is invalid"@,
        replay_ring::ReplayPacketError::TimestampOverflow => "encoded replay packet timestamp overflows"@,
    }
}

/// The sentence of an insertion error.
pub open spec fn ring_reason(error: replay_ring::ReplayRingError) -> Seq<char> {
    match error {
        replay_ring::ReplayRingError::NonMonotonicTimestamp => "replay packet timestamp is not monotonic"@,
        replay_ring::ReplayRingError::PacketExceedsRingBudget => "replay packet exceeds the encoded ring budget"@,
    }
}

/// A ring after the records from `at` to the declared end were inserted.
pub open spec fn loaded(state: RingState, contents: Seq<u8>, at: int, declared: int) -> Result<
    RingState,
    Seq<char>,
>
    decreases declared - at,
{
    if at >= declared {
        Ok(state)
    } else {
        match read_record(contents, at, declared) {
            Err(reason) => Err(reason),
            Ok((packet, end)) => match replay_ring::after_push(state, packet) {
                Err(error) => Err("invalid Replay snapshot order: "@ + ring_reason(error)),
                Ok(next) => loaded(next, contents, end, declared),
            },
        }
    }
}

/// A ring after a segment file was read into it.
pub open spec fn loaded_segment(state: RingState, contents: Seq<u8>, declared: int) -> Result<
    RingState,
    Seq<char>,
> {
    if contents.len() < SEGMENT_MAGIC_BYTES {
        Err(short_read("header"@))
    } else if contents.take(SEGMENT_MAGIC_BYTES as int) != SEGMENT_MAGIC.spec_bytes() {
        Err("Replay snapshot segment header is invalid"@)
    } else if declared < SEGMENT_MAGIC_BYTES {
        Err("Replay snapshot segment is truncated"@)
    } else {
        loaded(state, contents, SEGMENT_MAGIC_BYTES as int, declared)
    }
}

fn short_read_error(field: &str) -> (result: ReplaySpoolError)
    ensures
        result@ == short_read(field@),
        !result.is_short(),
{
    let mut context = "could not read Replay snapshot ".to_owned();
    context.append(field);
    let result = ReplaySpoolError::with_cause(context.as_str(), "failed to fill whole buffer");
    proof {
        reveal_strlit(": ");
        reveal_strlit("failed to fill whole buffer");
        reveal_strlit(": failed to fill whole buffer");
        assert(": "@ + "failed to fill whole buffer"@ =~= ": failed to fill whole buffer"@);
        assert(result@ =~= short_read(field@));
    }
    result
}

fn prefixed_error(prefix: &str, reason: &str) -> (result: ReplaySpoolError)
    ensures
        result@ == prefix@ + reason@,
        !result.is_short(),
{
    let mut message = prefix.to_owned();
    message.append(reason);
    ReplaySpoolError::new(message.as_str())
}

fn decode_record(contents: &[u8], at: usize, declared: u64) -> (result: Result<
    (EncodedReplayPacket, usize),
    ReplaySpoolError,
>)
    requires
        at <= contents@.len(),
        at < declared,
    ensures
        match result {
            Ok((packet, end)) => read_record(contents@, at as int, declared as int) == Ok::<
                (PacketView, int),
                Seq<char>,
            >((packet@, end as int)) && at < end <= contents@.len() && end <= declared,
            Err(error) => read_record(contents@, at as int, declared as int) == Err::<
                (PacketView, int),
                Seq<char>,
            >(error@) && !error.is_short(),
        },
{
    let left: usize = contents.len() - at;
    if left < 8 {
        return Err(short_read_error("timestamp"));
    }
    if left < 16 {
        return Err(short_read_error("duration"));
    }
    if left < 17 {
        return Err(short_read_error("keyframe flag"));
    }
    let timestamp_ns: u64 = wire::get_le_u64(contents, at);
    let duration_ns: u64 = wire::get_le_u64(contents, at + 8);
    let flag: u8 = contents[at + 16];
    if flag > 1 {
        return Err(ReplaySpoolError::new("Replay snapshot keyframe flag is invalid"));
    }
    if left < 21 {
        return Err(short_read_error("packet length"));
    }
    let length: u32 = wire::get_le_u32(contents, at + 17);
    if length == 0 || length as u64 > MAX_SINGLE_PACKET_BYTES as u64 || declared - (at as u64)
        < RECORD_HEADER_BYTES + length as u64 {
        return Err(ReplaySpoolError::new("Replay snapshot packet length is invalid"));
    }
    if ((left - 21) as u64) < length as u64 {
        return Err(short_read_error("packet"));
    }
    let end: usize = at + 21 + length as usize;
    let bytes = vstd::slice::slice_to_vec(vstd::slice::slice_subrange(contents, at + 21, end));
    match EncodedReplayPacket::new(timestamp_ns, duration_ns, flag == 1, bytes) {
        Err(error) => Err(prefixed_error("invalid Replay snapshot packet: ", error.message())),
        Ok(packet) => Ok((packet, end)),
    }
}

/// Reads the records of one segment file into a ring.
pub fn read_segment_packets(declared: u64, contents: &[u8], ring: &mut ReplayRing) -> (result: Result<
    (),
    ReplaySpoolError,
>)
    requires
        old(ring).wf(),
    ensures
        final(ring).wf(),
        match result {
            Ok(()) => loaded_segment(old(ring).state(), contents@, declared as int) == Ok::<
                RingState,
                Seq<char>,
            >(final(ring).state()),
            Err(error) => loaded_segment(old(ring).state(), contents@, declared as int) == Err::<
                RingState,
                Seq<char>,
            >(error@) && !error.is_short(),
        },
{
    if contents.len() < 8 {
        return Err(short_read_error("header"));
    }
    let magic = vstd::slice::slice_subrange(contents, 0, 8);
    assert(magic@ =~= contents@.take(8));
    if !text::same_bytes(magic, SEGMENT_MAGIC.as_bytes()) {
        return Err(ReplaySpoolError::new("Replay snapshot segment header is invalid"));
    }
    if declared < SEGMENT_MAGIC_BYTES {
        return Err(ReplaySpoolError::new("Replay snapshot segment is truncated"));
    }
    let ghost start = ring.state();
    let mut at: usize = 8;
    while (at as u64) < declared
        invariant
            8 <= at <= contents@.len(),
            at <= declared,
            ring.wf(),
            loaded(ring.state(), contents@, at as int, declared as int) == loaded(
                start,
                contents@,
                8,
                declared as int,
            ),
            loaded_segment(start, contents@, declared as int) == loaded(
                start,
                contents@,
                8,
                declared as int,
            ),
            start == old(ring).state(),
        decreases declared - at,
    {
        match decode_record(contents, at, declared) {
            Err(error) => {
                return Err(error);
            },
            Ok((packet, end)) => {
                match ring.push(packet) {
                    Err(error) => {
                        return Err(
                            prefixed_error("invalid Replay snapshot order: ", error.message()),
                        );
                    },
                    Ok(_) => {},
                }
                at = end;
            },
        }
    }
    Ok(())
}

/// A ring after packets were inserted one after the other.
pub open spec fn after_pushes(state: RingState, packets: Seq<PacketView>) -> Result<
    RingState,
    Seq<char>,
>
    decreases packets.len(),
{
    if packets.len() == 0 {
        Ok(state)
    } else {
        match replay_ring::after_push(state, packets[0]) {
            Err(error) => Err("invalid Replay snapshot order: "@ + ring_reason(error)),
            Ok(next) => after_pushes(next, packets.drop_first()),
        }
    }
}

proof fn lemma_record_length(packet: PacketView)
    ensures
        record(packet).len() == record_size(packet),
{
    reveal(record);
}

proof fn lemma_record_fields(packet: PacketView)
    requires
        packet.bytes.len() <= u32::MAX,
    ensures
        ({
            let one = record(packet);
            &&& one.len() == record_size(packet)
            &&& one.subrange(0, 8) == wire::le64(packet.timestamp_ns)
            &&& one.subrange(8, 16) == wire::le64(packet.duration_ns)
            &&& one[16] == (if packet.keyframe {
                1u8
            } else {
                0u8
            })
            &&& one.subrange(17, 21) == wire::le32(packet.bytes.len() as u32)
            &&& one.skip(21) == packet.bytes
        }),
{
    reveal(record);
    let one = record(packet);
    assert(one.subrange(0, 8) =~= wire::le64(packet.timestamp_ns));
    assert(one.subrange(8, 16) =~= wire::le64(packet.duration_ns));
    assert(one.subrange(17, 21) =~= wire::le32(packet.bytes.len() as u32));
    assert(one.skip(21) =~= packet.bytes);
}

proof fn lemma_record_reads_back(before: Seq<u8>, packet: PacketView, after: Seq<u8>, declared: int)
    requires
        replay_ring::packet_error(packet) is None,
        declared >= before.len() + record_size(packet),
    ensures
        read_record(before + record(packet) + after, before.len() as int, declared) == Ok::<
            (PacketView, int),
            Seq<char>,
        >((packet, before.len() + record_size(packet))),
{
    lemma_record_fields(packet);
    let one = record(packet);
    let contents = before + one + after;
    let at = before.len() as int;
    let length = packet.bytes.len() as u32;
    assert(contents.subrange(at, at + 8) =~= one.subrange(0, 8));
    wire::lemma_le64_at(contents, at, packet.timestamp_ns);
    assert(contents.subrange(at + 8, at + 16) =~= one.subrange(8, 16));
    wire::lemma_le64_at(contents, at + 8, packet.duration_ns);
    assert(contents[at + 16] == one[16]);
    assert(contents.subrange(at + 17, at + 21) =~= one.subrange(17, 21));
    wire::lemma_le32_at(contents, at + 17, length);
    assert(contents.subrange(at + 21, at + 21 + packet.bytes.len()) =~= one.skip(21));
}

/// Reading a segment that was written packet by packet inserts exactly those
/// packets, in order.
pub proof fn segment_round_trip(state: RingState, before: Seq<u8>, packets: Seq<PacketView>)
    requires
        replay_ring::all_bounded(packets),
    ensures
        ({
            let contents = before + records(packets);
            loaded(state, contents, before.len() as int, contents.len() as int) == after_pushes(
                state,
                packets,
            )
        }),
    decreases packets.len(),
{
    let contents = before + records(packets);
    if packets.len() > 0 {
        let packet = packets[0];
        let rest = packets.drop_first();
        assert(replay_ring::packet_error(packets[0]) is None);
        assert(contents =~= before + record(packet) + records(rest));
        lemma_record_length(packet);
        lemma_record_reads_back(before, packet, records(rest), contents.len() as int);
        if let Ok(next) = replay_ring::after_push(state, packet) {
            assert forall|i: int| 0 <= i < rest.len() implies replay_ring::packet_error(
                #[trigger] rest[i],
            ) is None by {
                assert(replay_ring::packet_error(packets[i + 1]) is None);
            }
            segment_round_trip(next, before + record(packet), rest);
            assert((before + record(packet)) + records(rest) =~= contents);
        }
    }
}

/// A file with the segment header and the records of packets loads as those
/// packets.
pub proof fn written_segment_loads(state: RingState, packets: Seq<PacketView>)
    requires
        replay_ring::all_bounded(packets),
    ensures
        ({
            let contents = SEGMENT_MAGIC.spec_bytes() + records(packets);
            loaded_segment(state, contents, contents.len() as int) == after_pushes(state, packets)
        }),
{
    reveal_strlit("RDNSEG01");
    assert(SEGMENT_MAGIC.is_ascii());
    let magic = SEGMENT_MAGIC.spec_bytes();
    assert(magic.len() == 8);
    let contents = magic + records(packets);
    assert(contents.take(8) =~= magic);
    segment_round_trip(state, magic, packets);
}

/// The segment file that is being written.
#[derive(Clone, Copy, Debug, PartialEq, Eq, Structural)]
pub struct OpenSegment {
    pub sequence: u64,
    pub start_timestamp_ns: u64,
    pub end_timestamp_ns: u64,
    pub bytes: u64,
}

/// Whether an open segment is within the bounds of a segment.
pub open spec fn segment_bounded(segment: OpenSegment) -> bool {
    &&& SEGMENT_MAGIC_BYTES <= segment.bytes <= MAX_SEGMENT_BYTES
    &&& segment.end_timestamp_ns - segment.start_timestamp_ns <= MAX_SEGMENT_NS
}

/// Whether a packet closes the open segment and starts the next one: a
/// keyframe two seconds after the start, or one that would not fit.
pub open spec fn rotates(current: Option<OpenSegment>, packet: PacketView) -> bool {
    match current {
        None => false,
        Some(segment) => packet.keyframe && (packet.timestamp_ns - segment.start_timestamp_ns
            >= TARGET_SEGMENT_NS || segment.bytes + record_size(packet) > MAX_SEGMENT_BYTES),
    }
}

/// Whether a packet would break the bounds of a segment.
pub open spec fn overflows(segment: OpenSegment, packet: PacketView) -> bool {
    packet.timestamp_ns + packet.duration_ns - segment.start_timestamp_ns > MAX_SEGMENT_NS
        || segment.bytes + record_size(packet) > MAX_SEGMENT_BYTES
}

/// A segment file that holds only its header.
pub open spec fn fresh_segment(sequence: u64, packet: PacketView) -> OpenSegment {
    OpenSegment {
        sequence,
        start_timestamp_ns: packet.timestamp_ns,
        end_timestamp_ns: packet.timestamp_ns,
        bytes: SEGMENT_MAGIC_BYTES,
    }
}

/// A segment with one more packet.
pub open spec fn extended(segment: OpenSegment, packet: PacketView) -> OpenSegment {
    OpenSegment {
        end_timestamp_ns: (packet.timestamp_ns + packet.duration_ns) as u64,
        bytes: (segment.bytes + record_size(packet)) as u64,
        ..segment
    }
}

/// What to do with a packet once a due rotation is done.
#[derive(Clone, Copy, Debug, PartialEq, Eq, Structural)]
pub enum PacketAdmission {
    /// No segment is open and the packet cannot start one.
    Dropped,
    /// Append the packet's record, to a new file where `create` is set.
    Append { create: bool },
    /// The encoder went past the bounds of a segment without a keyframe.
    KeyframeOverdue,
}

/// Time span of the packets that the worker handled in one epoch, and how
/// many of them it wrote.
#[derive(Clone, Copy, Debug, PartialEq, Eq, Structural)]
pub struct BufferedHistory {
    pub first_timestamp_ns: Option<u64>,
    pub latest_end_ns: u64,
    pub accepted_packets: u64,
}

/// Whether a write was quick enough for the worker to go on.
pub open spec fn is_prompt(elapsed_ns: u64) -> bool {
    elapsed_ns <= MAX_WRITE_LATENCY_NS
}

/// A span without packets.
pub open spec fn nothing_buffered() -> BufferedHistory {
    BufferedHistory { first_timestamp_ns: None, latest_end_ns: 0, accepted_packets: 0 }
}

/// A span with one more packet. That it was handled does not count it as
/// accepted.
pub open spec fn also_buffered(history: BufferedHistory, packet: PacketView) -> BufferedHistory {
    let end = (packet.timestamp_ns + packet.duration_ns) as u64;
    BufferedHistory {
        first_timestamp_ns: match history.first_timestamp_ns {
            Some(first) => Some(first),
            None => Some(packet.timestamp_ns),
        },
        latest_end_ns: if history.latest_end_ns < end {
            end
        } else {
            history.latest_end_ns
        },
        ..history
    }
}

/// A span with one more packet counted as written.
pub open spec fn also_accepted(history: BufferedHistory) -> BufferedHistory {
    BufferedHistory {
        accepted_packets: replay_ring::capped(
            history.accepted_packets + 1,
            u64::MAX as int,
        ) as u64,
        ..history
    }
}

/// Nanoseconds from the first packet of an epoch to the latest end.
pub open spec fn buffered_ns(history: BufferedHistory) -> int {
    match history.first_timestamp_ns {
        None => 0,
        Some(first) => if history.latest_end_ns < first {
            0
        } else {
            history.latest_end_ns - first
        },
    }
}

impl BufferedHistory {
    pub fn new() -> (result: Self)
        ensures
            result == nothing_buffered(),
    {
        BufferedHistory { first_timestamp_ns: None, latest_end_ns: 0, accepted_packets: 0 }
    }

    pub fn record(&mut self, packet: &EncodedReplayPacket)
        ensures
            *final(self) == also_buffered(*old(self), packet@),
    {
        if self.first_timestamp_ns.is_none() {
            self.first_timestamp_ns = Some(packet.timestamp_ns());
        }
        let end: u64 = packet.timestamp_ns() + packet.duration_ns();
        if self.latest_end_ns < end {
            self.latest_end_ns = end;
        }
    }

    pub fn accept(&mut self)
        ensures
            *final(self) == also_accepted(*old(self)),
    {
        self.accepted_packets = self.accepted_packets.saturating_add(1);
    }

    pub fn duration_ns(&self) -> (result: u64)
        ensures
            result == buffered_ns(*self),
    {
        match self.first_timestamp_ns {
            None => 0,
            Some(first) => self.latest_end_ns.saturating_sub(first),
        }
    }
}

/// The decisions of the thread that writes a spool. Files are created,
/// written, renamed and removed by whoever drives it.
#[derive(Debug)]
pub struct SpoolWorker {
    limits: SpoolLimits,
    index: SpoolIndex,
    current: Option<OpenSegment>,
    next_sequence: u64,
    observed_discontinuity: u64,
    buffered: BufferedHistory,
    phase: ReplaySpoolPhase,
}

/// What a [`SpoolWorker`] holds.
#[verifier::ext_equal]
pub ghost struct WorkerView {
    pub limits: SpoolLimits,
    pub index: IndexView,
    pub current: Option<OpenSegment>,
    pub next_sequence: u64,
    pub observed_discontinuity: u64,
    pub buffered: BufferedHistory,
    pub phase: ReplaySpoolPhase,
}

impl View for SpoolWorker {
    type V = WorkerView;

    closed spec fn view(&self) -> WorkerView {
        WorkerView {
            limits: self.limits,
            index: self.index@,
            current: self.current,
            next_sequence: self.next_sequence,
            observed_discontinuity: self.observed_discontinuity,
            buffered: self.buffered,
            phase: self.phase,
        }
    }
}

impl SpoolWorker {
    /// The worker's invariant: an exact index, and an open segment within
    /// the bounds of a segment.
    pub open spec fn wf(&self) -> bool {
        &&& self@.index.active_bytes == segment_bytes(self@.index.segments)
        &&& self@.current matches Some(segment) ==> segment_bounded(segment)
    }

    /// A running worker over a recovered index.
    pub fn new(index: SpoolIndex, limits: SpoolLimits, discontinuity: u64) -> (result: Self)
        requires
            index.wf(),
        ensures
            result.wf(),
            result@ == (WorkerView {
                limits,
                index: index@,
                current: None,
                next_sequence: replay_ring::capped(
                    index@.generation + 1,
                    u64::MAX as int,
                ) as u64,
                observed_discontinuity: discontinuity,
                buffered: nothing_buffered(),
                phase: ReplaySpoolPhase::Running,
            }),
    {
        let next_sequence: u64 = index.generation().saturating_add(1);
        SpoolWorker {
            limits,
            index,
            current: None,
            next_sequence,
            observed_discontinuity: discontinuity,
            buffered: BufferedHistory::new(),
            phase: ReplaySpoolPhase::Running,
        }
    }

    pub fn phase(&self) -> (result: ReplaySpoolPhase)
        ensures
            result == self@.phase,
    {
        self.phase
    }

    pub fn index(&self) -> (result: &SpoolIndex)
        ensures
            result@ == self@.index,
    {
        &self.index
    }

    pub fn buffered(&self) -> (result: BufferedHistory)
        ensures
            result == self@.buffered,
    {
        self.buffered
    }

    /// The open segment. A snapshot request and a due rotation commit it.
    pub fn current(&self) -> (result: Option<OpenSegment>)
        ensures
            result == self@.current,
    {
        self.current
    }

    /// Forgets the open segment, whose file is to be removed.
    pub fn abandon(&mut self) -> (result: Option<OpenSegment>)
        requires
            old(self).wf(),
        ensures
            final(self).wf(),
            result == old(self)@.current,
            final(self)@ == (WorkerView { current: None, ..old(self)@ }),
    {
        let abandoned = self.current;
        self.current = None;
        abandoned
    }

    /// Notes packets that were lost before the next one. The open segment
    /// cannot go on across the gap: its file is to be removed.
    pub fn observe_discontinuity(&mut self, discontinuity: u64) -> (result: Option<OpenSegment>)
        requires
            old(self).wf(),
        ensures
            final(self).wf(),
            discontinuity == old(self)@.observed_discontinuity ==> result is None && final(self)@
                == old(self)@,
            discontinuity != old(self)@.observed_discontinuity ==> result == old(self)@.current
                && final(self)@ == (WorkerView {
                current: None,
                observed_discontinuity: discontinuity,
                buffered: nothing_buffered(),
                ..old(self)@
            }),
    {
        if discontinuity == self.observed_discontinuity {
            return None;
        }
        let abandoned = self.abandon();
        self.observed_discontinuity = discontinuity;
        self.buffered = BufferedHistory::new();
        abandoned
    }

    /// The segment to commit before `packet` is placed, where one is due.
    pub fn rotation(&self, packet: &EncodedReplayPacket) -> (result: Option<OpenSegment>)
        requires
            self.wf(),
        ensures
            result == (if rotates(self@.current, packet@) {
                self@.current
            } else {
                None
            }),
    {
        match self.current {
            None => None,
            Some(segment) => {
                let size: u64 = RECORD_HEADER_BYTES + packet.bytes().len() as u64;
                if packet.is_keyframe() && (packet.timestamp_ns().saturating_sub(
                    segment.start_timestamp_ns,
                ) >= TARGET_SEGMENT_NS || segment.bytes + size > MAX_SEGMENT_BYTES) {
                    Some(segment)
                } else {
                    None
                }
            },
        }
    }

    /// Notes that the open segment is now the complete file `path` of `bytes`
    /// bytes. The segments handed out are no longer retained.
    pub fn committed(&mut self, path: Vec<u8>, bytes: u64) -> (removed: Vec<ReplaySpoolSegment>)
        requires
            old(self).wf(),
            old(self)@.current is Some,
            old(self)@.index.active_bytes + bytes <= u64::MAX,
        ensures
            final(self).wf(),
            ({
                let segment = old(self)@.current->0;
                let all = old(self)@.index.segments.push(
                    SegmentView {
                        path: path@,
                        start_timestamp_ns: segment.start_timestamp_ns,
                        end_timestamp_ns: segment.end_timestamp_ns,
                        bytes,
                    },
                );
                let kept = retained_segments(old(self)@.limits, all);
                &&& final(self)@ == WorkerView {
                    current: None,
                    index: IndexView {
                        segments: kept,
                        active_bytes: segment_bytes(kept) as u64,
                        generation: replay_ring::capped(
                            old(self)@.index.generation + 1,
                            u64::MAX as int,
                        ) as u64,
                        ..old(self)@.index
                    },
                    ..old(self)@
                }
                &&& all == segment_views(removed@) + kept
            }),
    {
        let segment = self.current.unwrap();
        self.current = None;
        self.index.commit(
            ReplaySpoolSegment {
                path,
                start_timestamp_ns: segment.start_timestamp_ns,
                end_timestamp_ns: segment.end_timestamp_ns,
                bytes,
            },
            self.limits,
        )
    }

    /// Decides on a packet for which no rotation is due.
    pub fn place_packet(&mut self, packet: &EncodedReplayPacket) -> (result: PacketAdmission)
        requires
            old(self).wf(),
            !rotates(old(self)@.current, packet@),
        ensures
            final(self).wf(),
            match old(self)@.current {
                None => if !packet@.keyframe {
                    &&& result == PacketAdmission::Dropped
                    &&& final(self)@ == WorkerView {
                        index: IndexView {
                            dropped_awaiting_keyframe: replay_ring::capped(
                                old(self)@.index.dropped_awaiting_keyframe + 1,
                                u64::MAX as int,
                            ) as u64,
                            ..old(self)@.index
                        },
                        ..old(self)@
                    }
                } else {
                    &&& result == PacketAdmission::Append { create: true }
                    &&& final(self)@ == WorkerView {
                        current: Some(fresh_segment(old(self)@.next_sequence, packet@)),
                        next_sequence: replay_ring::capped(
                            old(self)@.next_sequence + 1,
                            u64::MAX as int,
                        ) as u64,
                        ..old(self)@
                    }
                    &&& !overflows(final(self)@.current->0, packet@)
                },
                Some(segment) => final(self)@ == old(self)@ && result == if overflows(
                    segment,
                    packet@,
                ) {
                    PacketAdmission::KeyframeOverdue
                } else {
                    PacketAdmission::Append { create: false }
                },
            },
    {
        let size: u64 = RECORD_HEADER_BYTES + packet.bytes().len() as u64;
        match self.current {
            None => {
                if !packet.is_keyframe() {
                    self.index.count_dropped();
                    return PacketAdmission::Dropped;
                }
                self.current = Some(
                    OpenSegment {
                        sequence: self.next_sequence,
                        start_timestamp_ns: packet.timestamp_ns(),
                        end_timestamp_ns: packet.timestamp_ns(),
                        bytes: SEGMENT_MAGIC_BYTES,
                    },
                );
                self.next_sequence = self.next_sequence.saturating_add(1);
                assert(packet@.duration_ns <= MAX_SEGMENT_NS) by {
                    assert(replay_ring::packet_error(packet@) is None);
                }
                PacketAdmission::Append { create: true }
            },
            Some(segment) => {
                let elapsed: u64 = packet.timestamp_ns().saturating_add(
                    packet.duration_ns(),
                ).saturating_sub(segment.start_timestamp_ns);
                if elapsed > MAX_SEGMENT_NS || segment.bytes + size > MAX_SEGMENT_BYTES {
                    PacketAdmission::KeyframeOverdue
                } else {
                    PacketAdmission::Append { create: false }
                }
            },
        }
    }

    /// Notes that the record of a placed packet was written. Only this counts
    /// the packet as accepted.
    pub fn appended(&mut self, packet: &EncodedReplayPacket)
        requires
            old(self).wf(),
            old(self)@.current is Some,
            !overflows(old(self)@.current->0, packet@),
        ensures
            final(self).wf(),
            final(self)@ == (WorkerView {
                current: Some(extended(old(self)@.current->0, packet@)),
                buffered: also_accepted(old(self)@.buffered),
                ..old(self)@
            }),
    {
        let segment = self.current.unwrap();
        let size: u64 = RECORD_HEADER_BYTES + packet.bytes().len() as u64;
        self.current = Some(
            OpenSegment {
                sequence: segment.sequence,
                start_timestamp_ns: segment.start_timestamp_ns,
                end_timestamp_ns: packet.timestamp_ns() + packet.duration_ns(),
                bytes: segment.bytes + size,
            },
        );
        self.buffered.accept();
    }

    /// Ends the handling of one packet: whether the worker goes on. A failure
    /// stops it, and so does a write that took longer than the bound.
    pub fn conclude(&mut self, packet: &EncodedReplayPacket, failed: bool, elapsed_ns: u64) -> (result:
        bool)
        requires
            old(self).wf(),
        ensures
            final(self).wf(),
            result == (!failed && is_prompt(elapsed_ns)),
            result == (!failed && elapsed_ns <= MAX_WRITE_LATENCY_NS),
            final(self)@ == (if failed {
                WorkerView { phase: ReplaySpoolPhase::Failed, ..old(self)@ }
            } else {
                WorkerView {
                    buffered: also_buffered(old(self)@.buffered, packet@),
                    phase: if elapsed_ns > MAX_WRITE_LATENCY_NS {
                        ReplaySpoolPhase::SlowStorage
                    } else {
                        old(self)@.phase
                    },
                    ..old(self)@
                }
            }),
    {
        if failed {
            self.phase = ReplaySpoolPhase::Failed;
            return false;
        }
        self.buffered.record(packet);
        if elapsed_ns > MAX_WRITE_LATENCY_NS {
            self.phase = ReplaySpoolPhase::SlowStorage;
            return false;
        }
        true
    }

    /// Forgets a codec epoch. The open segment, where there is one, and the
    /// complete segments are to be removed.
    pub fn reset_epoch(&mut self) -> (result: (Option<OpenSegment>, Vec<ReplaySpoolSegment>))
        requires
            old(self).wf(),
        ensures
            final(self).wf(),
            result.0 == old(self)@.current,
            segment_views(result.1@) == old(self)@.index.segments,
            final(self)@ == (WorkerView {
                current: None,
                index: IndexView {
                    segments: Seq::empty(),
                    active_bytes: 0,
                    generation: replay_ring::capped(
                        old(self)@.index.generation + 1,
                        u64::MAX as int,
                    ) as u64,
                    ..old(self)@.index
                },
                buffered: nothing_buffered(),
                ..old(self)@
            }),
    {
        let abandoned = self.abandon();
        let removed = self.index.clear();
        self.buffered = BufferedHistory::new();
        (abandoned, removed)
    }

    /// Stops the worker after a failed file operation.
    pub fn fail(&mut self)
        requires
            old(self).wf(),
        ensures
            final(self).wf(),
            final(self)@ == (WorkerView { phase: ReplaySpoolPhase::Failed, ..old(self)@ }),
    {
        self.phase = ReplaySpoolPhase::Failed;
    }

    /// The counters of the spool, with those of its queue.
    pub fn stats(&self, queued_packets: u32, dropped_queue_full: u64) -> (result: ReplaySpoolStats)
        ensures
            result == (ReplaySpoolStats {
                active_segments: replay_ring::capped(
                    self@.index.segments.len() as int,
                    u32::MAX as int,
                ) as u32,
                active_bytes: self@.index.active_bytes,
                buffered_duration_ns: buffered_ns(self@.buffered) as u64,
                accepted_packets: self@.buffered.accepted_packets,
                queued_packets,
                dropped_queue_full,
                dropped_awaiting_keyframe: self@.index.dropped_awaiting_keyframe,
                recovered_segments: self@.index.recovered_segments,
            }),
    {
        let count: usize = self.index.segments().len();
        assert(count == self@.index.segments.len());
        ReplaySpoolStats {
            active_segments: if count as u64 <= u32::MAX as u64 {
                count as u32
            } else {
                u32::MAX
            },
            active_bytes: self.index.active_bytes(),
            buffered_duration_ns: self.buffered.duration_ns(),
            accepted_packets: self.buffered.accepted_packets,
            queued_packets,
            dropped_queue_full,
            dropped_awaiting_keyframe: self.index.dropped_awaiting_keyframe(),
            recovered_segments: self.index.recovered_segments(),
        }
    }
}

/// What came of handing a packet to the worker's queue.
#[derive(Clone, Copy, Debug, PartialEq, Eq, Structural)]
pub enum QueueOutcome {
    Queued,
    Full,
    Disconnected,
}

/// Counters of the queue before the worker.
#[derive(Clone, Copy, Debug, PartialEq, Eq, Structural)]
pub struct SpoolQueue {
    pub queued_packets: u32,
    pub dropped_queue_full: u64,
    /// Changes whenever a packet was dropped.
    pub discontinuity: u64,
}

/// A queue after a packet was handed to it.
pub open spec fn after_submit(queue: SpoolQueue, outcome: QueueOutcome) -> SpoolQueue {
    match outcome {
        QueueOutcome::Queued => SpoolQueue {
            queued_packets: queue.queued_packets.wrapping_add(1),
            ..queue
        },
        QueueOutcome::Full => SpoolQueue {
            dropped_queue_full: queue.dropped_queue_full.wrapping_add(1),
            discontinuity: queue.discontinuity.wrapping_add(1),
            ..queue
        },
        QueueOutcome::Disconnected => queue,
    }
}

impl SpoolQueue {
    /// Decides what becomes of a packet that was handed to the queue, or that
    /// was not because the worker does not run. A packet that finds no room
    /// is dropped: a game never waits.
    pub fn try_submit(
        &mut self,
        phase: ReplaySpoolPhase,
        packet: EncodedReplayPacket,
        outcome: QueueOutcome,
    ) -> (result: Result<(), ReplaySpoolSubmitError>)
        ensures
            if phase != ReplaySpoolPhase::Running {
                &&& *final(self) == *old(self)
                &&& result matches Err(ReplaySpoolSubmitError::NotRunning(back)) && back == packet
            } else {
                &&& *final(self) == after_submit(*old(self), outcome)
                &&& match outcome {
                    QueueOutcome::Queued => result is Ok,
                    QueueOutcome::Full => result matches Err(
                        ReplaySpoolSubmitError::QueueFull(back),
                    ) && back == packet,
                    QueueOutcome::Disconnected => result matches Err(
                        ReplaySpoolSubmitError::NotRunning(back),
                    ) && back == packet,
                }
            },
    {
        if phase != ReplaySpoolPhase::Running {
            return Err(ReplaySpoolSubmitError::NotRunning(packet));
        }
        match outcome {
            QueueOutcome::Queued => {
                self.queued_packets = self.queued_packets.wrapping_add(1);
                Ok(())
            },
            QueueOutcome::Full => {
                self.dropped_queue_full = self.dropped_queue_full.wrapping_add(1);
                self.discontinuity = self.discontinuity.wrapping_add(1);
                Err(ReplaySpoolSubmitError::QueueFull(packet))
            },
            QueueOutcome::Disconnected => Err(ReplaySpoolSubmitError::NotRunning(packet)),
        }
    }

    /// Takes note that the worker took a packet from the queue.
    pub fn taken(&mut self)
        ensures
            *final(self) == (SpoolQueue {
                queued_packets: old(self).queued_packets.wrapping_sub(1),
                ..*old(self)
            }),
    {
        self.queued_packets = self.queued_packets.wrapping_sub(1);
    }
}

/// A dropped packet always shows as a discontinuity, so that no segment goes
/// on across it.
pub proof fn drops_are_discontinuities(queue: SpoolQueue)
    ensures
        after_submit(queue, QueueOutcome::Full).discontinuity != queue.discontinuity,
        after_submit(queue, QueueOutcome::Full).queued_packets == queue.queued_packets,
{
}

/// A new segment starts at a keyframe, and no other packet starts one.
pub proof fn segments_start_at_keyframes(current: Option<OpenSegment>, packet: PacketView)
    ensures
        rotates(current, packet) ==> packet.keyframe,
{
}

/// Whether an owned spool may be used, by its marker file.
pub fn validate_marker(regular: bool, contents: &[u8]) -> (result: Result<(), ReplaySpoolError>)
    ensures
        match result {
            Ok(()) => regular && contents@ == MARKER_CONTENTS.spec_bytes(),
            Err(error) => !(regular && contents@ == MARKER_CONTENTS.spec_bytes()) && error@
                == "Replay spool marker is invalid"@,
        },
{
    if !regular || !text::same_bytes(contents, MARKER_CONTENTS.as_bytes()) {
        return Err(ReplaySpoolError::new("Replay spool marker is invalid"));
    }
    Ok(())
}

/// What to do with a spool directory before its entries are read.
#[derive(Clone, Copy, Debug, PartialEq, Eq, Structural)]
pub enum MarkerPlan {
    Validate,
    Claim,
}

/// Whether a directory may be claimed: it is empty and has no marker yet.
pub open spec fn may_claim(marker_exists: bool, holds_entries: bool) -> bool {
    !marker_exists && !holds_entries
}

/// Decides whether a directory is validated or claimed. A directory that
/// holds anything is never claimed.
pub fn marker_plan(marker_exists: bool, holds_entries: bool) -> (result: Result<
    MarkerPlan,
    ReplaySpoolError,
>)
    ensures
        result matches Ok(MarkerPlan::Claim) <==> may_claim(marker_exists, holds_entries),
        match result {
            Ok(MarkerPlan::Validate) => marker_exists,
            Ok(MarkerPlan::Claim) => !marker_exists && !holds_entries,
            Err(error) => !marker_exists && holds_entries && error@
                == "refusing to claim a non-empty Replay spool"@,
        },
{
    if marker_exists {
        Ok(MarkerPlan::Validate)
    } else if holds_entries {
        Err(ReplaySpoolError::new("refusing to claim a non-empty Replay spool"))
    } else {
        Ok(MarkerPlan::Claim)
    }
}

/// Whether a selected segment is still the file that was selected.
pub fn check_snapshot_segment(segment: &ReplaySpoolSegment, regular: bool, bytes: u64) -> (result:
    Result<(), ReplaySpoolError>)
    ensures
        match result {
            Ok(()) => regular && bytes == segment.bytes,
            Err(error) => !(regular && bytes == segment.bytes) && error@
                == "Replay snapshot segment changed before assembly"@,
        },
{
    if !regular || bytes != segment.bytes {
        return Err(ReplaySpoolError::new("Replay snapshot segment changed before assembly"));
    }
    Ok(())
}

/// The contents of one selected segment file.
#[derive(Debug, PartialEq, Eq)]
pub struct SegmentContents {
    pub declared: u64,
    pub contents: Vec<u8>,
}

/// A ring after segment files were read into it one after the other.
pub open spec fn loaded_files(state: RingState, files: Seq<SegmentContents>, count: int) -> Result<
    RingState,
    Seq<char>,
>
    decreases count,
{
    if count <= 0 {
        Ok(state)
    } else {
        match loaded_files(state, files, count - 1) {
            Err(reason) => Err(reason),
            Ok(before) => loaded_segment(
                before,
                files[count - 1].contents@,
                files[count - 1].declared as int,
            ),
        }
    }
}

proof fn lemma_files_error_stays(
    state: RingState,
    files: Seq<SegmentContents>,
    early: int,
    late: int,
)
    requires
        0 <= early <= late,
        loaded_files(state, files, early) is Err,
    ensures
        loaded_files(state, files, late) == loaded_files(state, files, early),
    decreases late,
{
    if early < late {
        lemma_files_error_stays(state, files, early, late - 1);
    }
}

/// Reads the files of a snapshot into a ring, which then holds what the saved
/// clip will hold.
pub fn assemble_snapshot(files: &[SegmentContents], ring: &mut ReplayRing) -> (result: Result<
    (),
    ReplaySpoolError,
>)
    requires
        old(ring).wf(),
    ensures
        final(ring).wf(),
        match loaded_files(old(ring).state(), files@, files@.len() as int) {
            Err(reason) => result matches Err(error) && error@ == reason,
            Ok(state) => final(ring).state() == state && match result {
                Ok(()) => state.history.len() > 0,
                Err(error) => state.history.len() == 0 && error@
                    == "Replay snapshot contains no decodable encoded packets"@,
            },
        },
{
    let ghost start = ring.state();
    let mut index: usize = 0;
    while index < files.len()
        invariant
            index <= files@.len(),
            ring.wf(),
            start == old(ring).state(),
            loaded_files(start, files@, index as int) == Ok::<RingState, Seq<char>>(ring.state()),
        decreases files@.len() - index,
    {
        let file = &files[index];
        if let Err(error) = read_segment_packets(file.declared, file.contents.as_slice(), ring) {
            proof {
                lemma_files_error_stays(start, files@, index + 1, files@.len() as int);
            }
            return Err(error);
        }
        index = index + 1;
    }
    if ring.stats().stored_packets == 0 {
        return Err(ReplaySpoolError::new("Replay snapshot contains no decodable encoded packets"));
    }
    Ok(())
}

/// Handling a packet does not count it as accepted; writing it does, once.
pub proof fn only_written_packets_are_accepted(history: BufferedHistory, packet: PacketView)
    ensures
        also_buffered(history, packet).accepted_packets == history.accepted_packets,
        history.accepted_packets < u64::MAX ==> also_accepted(history).accepted_packets
            == history.accepted_packets + 1,
        buffered_ns(also_accepted(history)) == buffered_ns(history),
{
}

proof fn lemma_recent_is_a_suffix(segments: Seq<SegmentView>, earliest: int)
    ensures
        ({
            let chosen = recent_segments(segments, earliest);
            let from = segments.len() - chosen.len();
            &&& 0 <= from <= segments.len()
            &&& chosen == segments.skip(from)
            &&& forall|i: int| from <= i < segments.len() ==> (#[trigger] segments[i]).end_timestamp_ns
                > earliest
            &&& from > 0 ==> segments[from - 1].end_timestamp_ns <= earliest
        }),
    decreases segments.len(),
{
    let chosen = recent_segments(segments, earliest);
    if segments.len() == 0 || segments.last().end_timestamp_ns <= earliest {
        assert(chosen =~= segments.skip(segments.len() as int));
    } else {
        let shorter = segments.drop_last();
        lemma_recent_is_a_suffix(shorter, earliest);
        let from = segments.len() - chosen.len();
        assert(chosen =~= segments.skip(from));
        assert forall|i: int| from <= i < segments.len() implies (
        #[trigger] segments[i]).end_timestamp_ns > earliest by {
            if i < shorter.len() {
                assert(shorter[i] == segments[i]);
            }
        }
        if from > 0 {
            assert(shorter[from - 1] == segments[from - 1]);
        }
    }
}

/// A plan covers the interval that was asked for. It holds the newest
/// segments, all that end within that many seconds before the newest end and
/// none that ends before. So where segments follow each other without a gap it
/// holds all of them, or at least that many seconds.
pub proof fn plans_cover_the_request(segments: Seq<SegmentView>, requested: ReplayDuration)
    requires
        segments.len() > 0,
        forall|i: int, j: int|
            0 <= i < j < segments.len() ==> (#[trigger] segments[i]).end_timestamp_ns <= (
            #[trigger] segments[j]).end_timestamp_ns,
        segments.last().end_timestamp_ns > 0,
    ensures
        ({
            let asked_ns = match requested {
                ReplayDuration::Seconds15 => 15_000_000_000int,
                ReplayDuration::Seconds30 => 30_000_000_000,
                ReplayDuration::Seconds60 => 60_000_000_000,
                ReplayDuration::Seconds120 => 120_000_000_000,
                ReplayDuration::Seconds180 => 180_000_000_000,
                ReplayDuration::Seconds300 => 300_000_000_000,
                ReplayDuration::Seconds600 => 600_000_000_000,
                ReplayDuration::Seconds900 => 900_000_000_000,
            };
            let newest = segments.last().end_timestamp_ns;
            let chosen = recent_segments(segments, cutoff(segments, requested));
            let from = segments.len() - chosen.len();
            &&& 0 <= from < segments.len()
            &&& chosen == segments.skip(from)
            &&& forall|i: int|
                0 <= i < segments.len() ==> (from <= i <==> (
                #[trigger] segments[i]).end_timestamp_ns > newest - asked_ns
                    && segments[i].end_timestamp_ns > 0)
            &&& from > 0 && segments[from].start_timestamp_ns <= segments[from - 1].end_timestamp_ns
                && segments[from - 1].end_timestamp_ns > 0 ==> newest
                - chosen.first().start_timestamp_ns >= asked_ns && retained_ns(chosen) >= asked_ns
        }),
{
    let earliest = cutoff(segments, requested);
    lemma_recent_is_a_suffix(segments, earliest);
    let chosen = recent_segments(segments, earliest);
    let from = segments.len() - chosen.len();
    assert(segments[segments.len() - 1].end_timestamp_ns > earliest);
    if from == segments.len() {
        assert(segments[from - 1].end_timestamp_ns <= earliest);
    }
    assert forall|i: int| 0 <= i < from implies (#[trigger] segments[i]).end_timestamp_ns
        <= earliest by {
        if i < from - 1 {
            assert(segments[i].end_timestamp_ns <= segments[from - 1].end_timestamp_ns);
        }
    }
    assert(chosen.last() == segments.last());
    assert(chosen.first() == segments[from]);
}

/// A longer request holds all that a shorter one holds, and older segments
/// before it.
pub proof fn longer_requests_hold_more(
    segments: Seq<SegmentView>,
    shorter: ReplayDuration,
    longer: ReplayDuration,
)
    requires
        segments.len() > 0,
        replay_settings::duration_seconds(shorter) <= replay_settings::duration_seconds(longer),
    ensures
        recent_segments(segments, cutoff(segments, shorter)).is_suffix_of(
            recent_segments(segments, cutoff(segments, longer)),
        ),
{
    let near = cutoff(segments, shorter);
    let far = cutoff(segments, longer);
    lemma_recent_is_a_suffix(segments, near);
    lemma_recent_is_a_suffix(segments, far);
    let less = recent_segments(segments, near);
    let more = recent_segments(segments, far);
    let from = segments.len() - less.len();
    let start = segments.len() - more.len();
    if start > from {
        assert(segments[start - 1].end_timestamp_ns > near);
    }
    assert(more.skip(from - start) =~= less);
}

/// The disk history lasts as long as the user asked for, and has room for that
/// long at the encoder's rate and a tenth more, to the byte.
pub proof fn the_disk_history_has_a_tenth_to_spare(duration: ReplayDuration, quality: ReplayQuality)
    ensures
        ({
            let limits = chosen_limits(duration, quality);
            let seconds = match duration {
                ReplayDuration::Seconds15 => 15int,
                ReplayDuration::Seconds30 => 30int,
                ReplayDuration::Seconds60 => 60int,
                ReplayDuration::Seconds120 => 120int,
                ReplayDuration::Seconds180 => 180int,
                ReplayDuration::Seconds300 => 300int,
                ReplayDuration::Seconds600 => 600int,
                ReplayDuration::Seconds900 => 900int,
            };
            let megabits = match quality {
                ReplayQuality::Efficient => 12int,
                ReplayQuality::Balanced => 24int,
                ReplayQuality::High => 40int,
            };
            let bits = seconds * megabits * 1_000_000;
            &&& limits.duration_ns == seconds * 1_000_000_000
            &&& 10 * (8 * limits.bytes) >= 11 * bits
            &&& 10 * (8 * (limits.bytes - 1)) < 11 * bits
        }),
{
}

/// A segment that takes a packet in lasts four seconds and has 32 mebibytes at
/// most, and one that refuses it would go past one of these.
pub proof fn segments_stay_small(segment: OpenSegment, packet: PacketView)
    requires
        packet.timestamp_ns + packet.duration_ns <= u64::MAX,
        segment.bytes + 21 + packet.bytes.len() <= u64::MAX,
        segment.start_timestamp_ns <= packet.timestamp_ns,
    ensures
        ({
            let longer = extended(segment, packet);
            overflows(segment, packet) <==> longer.end_timestamp_ns - longer.start_timestamp_ns > 4
                * 1_000_000_000 || longer.bytes > 32 * 1_024 * 1_024
        }),
        extended(segment, packet).bytes - segment.bytes == record(packet).len(),
        extended(segment, packet).end_timestamp_ns == packet.timestamp_ns + packet.duration_ns,
        extended(segment, packet).start_timestamp_ns == segment.start_timestamp_ns,
{
    lemma_record_bytes(packet);
}

proof fn lemma_record_bytes(packet: PacketView)
    ensures
        record(packet).len() == 21 + packet.bytes.len(),
{
    lemma_record_length(packet);
}

/// A keyframe starts another segment once the open one is two seconds old, or
/// where it would no longer fit. No other packet does.
pub proof fn segments_turn_over_at_keyframes(segment: OpenSegment, packet: PacketView)
    requires
        packet.timestamp_ns >= segment.start_timestamp_ns,
    ensures
        rotates(Some(segment), packet) <==> packet.keyframe && (packet.timestamp_ns
            - segment.start_timestamp_ns >= 2 * 1_000_000_000 || segment.bytes + record(
            packet,
        ).len() > 32 * 1_024 * 1_024),
        !rotates(None, packet),
{
    lemma_record_bytes(packet);
}

/// A new segment starts at its first packet, under its number.
pub proof fn segments_start_at_their_first_packet(sequence: u64, packet: PacketView)
    requires
        replay_ring::packet_error(packet) is None,
    ensures
        ({
            let segment = extended(fresh_segment(sequence, packet), packet);
            &&& segment.sequence == sequence
            &&& segment.start_timestamp_ns == packet.timestamp_ns
            &&& segment.end_timestamp_ns == packet.timestamp_ns + packet.duration_ns
            &&& segment.bytes == 8 + record(packet).len()
        }),
{
    lemma_record_bytes(packet);
}

/// What is buffered lasts from the first packet's start to the latest end.
pub proof fn buffered_time_runs_from_first_to_latest(history: BufferedHistory, packet: PacketView)
    requires
        packet.timestamp_ns + packet.duration_ns <= u64::MAX,
        history.first_timestamp_ns matches Some(first) ==> first <= packet.timestamp_ns
            && history.latest_end_ns <= packet.timestamp_ns + packet.duration_ns,
        history.first_timestamp_ns is None ==> history.latest_end_ns == 0,
    ensures
        buffered_ns(also_buffered(history, packet)) == packet.timestamp_ns + packet.duration_ns - (
        match history.first_timestamp_ns {
            Some(first) => first as int,
            None => packet.timestamp_ns as int,
        }),
        also_buffered(history, packet).accepted_packets == history.accepted_packets,
        history.accepted_packets < u64::MAX ==> also_accepted(history).accepted_packets
            == history.accepted_packets + 1,
        buffered_ns(also_accepted(history)) == buffered_ns(history),
{
}

/// A disk history within its limits has 512 segments at most, which lie within
/// the time and the bytes that were chosen for it. A save needs one second of
/// it, and a write that takes longer than half a second is slow.
pub proof fn the_disk_history_is_bounded(limits: SpoolLimits, segments: Seq<SegmentView>)
    requires
        segments.len() > 0,
    ensures
        within_limits(limits, segments) <==> segments.len() <= 512 && segment_bytes(segments)
            <= limits.bytes && segments.last().end_timestamp_ns - segments[0].start_timestamp_ns
            <= limits.duration_ns,
        MIN_SAVABLE_HISTORY_NS == 1_000_000_000,
        2 * MAX_WRITE_LATENCY_NS == 1_000_000_000,
{
}

/// Segments and unfinished files are told by their names, which hold the
/// segment's number and its two times in base sixteen.
pub proof fn segment_files_have_telling_names(sequence: u64, start: u64, end: u64)
    ensures
        segment_file_name(sequence, start, end) == "redunar-segment-"@ + text::hex_fixed(
            sequence as nat,
            16,
        ) + "-"@ + text::hex_fixed(start as nat, 16) + "-"@ + text::hex_fixed(end as nat, 16)
            + ".rseg"@,
        temporary_file_name(sequence) == ".redunar-segment-"@ + text::hex_fixed(
            sequence as nat,
            16,
        ) + ".tmp"@,
{
    reveal_strlit("-");
    assert("-"@ =~= seq!['-']);
}

/// A write that takes up to half a second is prompt, and a longer one is not.
pub proof fn prompt_writes_take_half_a_second(elapsed_ns: u64)
    ensures
        is_prompt(elapsed_ns) <==> 2 * elapsed_ns <= 1_000_000_000,
{
}

/// A disk history is found by its marker, and looked through up to 576 entries.
/// Four packets wait to be written at most.
pub proof fn the_disk_history_is_marked()
    ensures
        MARKER@ == ".redunar-replay-spool-v1"@,
        MARKER_CONTENTS@ == "redunar-replay-spool-v1\n"@,
        SEGMENT_MAGIC@ == "RDNSEG01"@,
        MAX_SPOOL_ENTRIES == 576,
        COMMAND_CAPACITY == 4,
{
}

/// A complete segment that was left behind is taken up again, with the times and
/// the number in its name. Unfinished files are given up, and other files are
/// none of the history's.
pub proof fn segments_are_taken_up_again(
    entries: Seq<SpoolEntry>,
    at: int,
    sequence: u64,
    start: u64,
    end: u64,
)
    requires
        0 <= at < entries.len(),
        at < 576,
        recovered(entries, at) is Ok,
        recovered(entries, at)->Ok_0.index.active_bytes + entries[at].bytes <= u64::MAX,
        recovered(entries, at)->Ok_0.index.recovered_segments < u32::MAX,
        entries[at].name matches Some(name) && name@ == segment_file_name(sequence, start, end),
        entries[at].regular,
        start < end,
        entries[at].bytes <= 32 * 1_024 * 1_024,
        entries[at].header@ == "RDNSEG01".spec_bytes(),
    ensures
        ({
            let before = recovered(entries, at)->Ok_0;
            recovered(entries, at + 1) matches Ok(after) && {
                &&& after.abandoned == before.abandoned
                &&& after.index.segments == before.index.segments.push(
                    SegmentView {
                        path: entries[at].path@,
                        start_timestamp_ns: start,
                        end_timestamp_ns: end,
                        bytes: entries[at].bytes,
                    },
                )
                &&& after.index.active_bytes == before.index.active_bytes + entries[at].bytes
                &&& after.index.recovered_segments == before.index.recovered_segments + 1
                &&& after.index.generation >= sequence
                &&& after.index.generation >= before.index.generation
            }
        }),
{
    let name = segment_file_name(sequence, start, end);
    segment_name_round_trip(sequence, start, end);
    reveal_strlit("redunar-segment-");
    reveal_strlit(".redunar-segment-");
    reveal_strlit("RDNSEG01");
    assert("RDNSEG01".is_ascii());
    assert("RDNSEG01".spec_bytes().len() == 8);
    assert(name[0] == 'r');
    assert(TEMPORARY_PREFIX@[0] == '.');
    if text::after_prefix(name, TEMPORARY_PREFIX@) is Some {
        assert(name.take(TEMPORARY_PREFIX@.len() as int)[0] == name[0]);
    }
    assert(entry_kind(name) == SpoolEntryKind::Segment {
        sequence,
        start_timestamp_ns: start,
        end_timestamp_ns: end,
    });
}

/// A directory with anything in it is never claimed.
pub proof fn only_empty_directories_are_claimed(marker_exists: bool)
    ensures
        !may_claim(marker_exists, true),
        !may_claim(true, false),
        may_claim(false, false),
{
}

} // verus!
