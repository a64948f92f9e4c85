//! Bounded in-memory history of already encoded video packets.
use std::collections::VecDeque;
use vstd::prelude::*;

verus! {

pub const NANOSECONDS_PER_SECOND: u64 = 1_000_000_000;

pub const MAX_PACKET_DURATION_NS: u64 = 1_000_000_000;

pub const MAX_SINGLE_PACKET_BYTES: usize = 8_388_608;

/// One already-encoded video packet in capture order.
#[derive(Debug, PartialEq, Eq)]
pub struct EncodedReplayPacket {
    timestamp_ns: u64,
    duration_ns: u64,
    keyframe: bool,
    bytes: Vec<u8>,
}

/// What an [`EncodedReplayPacket`] holds.
#[verifier::ext_equal]
pub ghost struct PacketView {
    pub timestamp_ns: u64,
    pub duration_ns: u64,
    pub keyframe: bool,
    pub bytes: Seq<u8>,
}

/// Why packet fields were refused.
#[derive(Clone, Copy, Debug, PartialEq, Eq, Structural)]
pub enum ReplayPacketError {
    Empty,
    TooLarge,
    InvalidDuration,
    TimestampOverflow,
}

/// The reason to refuse a packet, or none.
pub open spec fn packet_error(packet: PacketView) -> Option<ReplayPacketError> {
    if packet.bytes.len() == 0 {
        Some(ReplayPacketError::Empty)
    } else if packet.bytes.len() > MAX_SINGLE_PACKET_BYTES {
        Some(ReplayPacketError::TooLarge)
    } else if packet.duration_ns == 0 || packet.duration_ns > MAX_PACKET_DURATION_NS {
        Some(ReplayPacketError::InvalidDuration)
    } else if packet.timestamp_ns + packet.duration_ns > u64::MAX {
        Some(ReplayPacketError::TimestampOverflow)
    } else {
        None
    }
}

impl View for EncodedReplayPacket {
    type V = PacketView;

    closed spec fn view(&self) -> PacketView {
        PacketView {
            timestamp_ns: self.timestamp_ns,
            duration_ns: self.duration_ns,
            keyframe: self.keyframe,
            bytes: self.bytes@,
        }
    }
}

impl EncodedReplayPacket {
    #[verifier::type_invariant]
    spec fn bounded(self) -> bool {
        packet_error(self@) is None
    }

    /// Builds one bounded encoded packet.
    pub fn new(timestamp_ns: u64, duration_ns: u64, keyframe: bool, bytes: Vec<u8>) -> (result:
        Result<Self, ReplayPacketError>)
        ensures
            ({
                let fields = PacketView { timestamp_ns, duration_ns, keyframe, bytes: bytes@ };
                match packet_error(fields) {
                    Some(error) => result == Err::<Self, ReplayPacketError>(error),
                    None => result matches Ok(packet) && packet@ == fields,
                }
            }),
    {
        if bytes.len() == 0 {
            return Err(ReplayPacketError::Empty);
        }
        if bytes.len() > MAX_SINGLE_PACKET_BYTES {
            return Err(ReplayPacketError::TooLarge);
        }
        if duration_ns == 0 || duration_ns > MAX_PACKET_DURATION_NS {
            return Err(ReplayPacketError::InvalidDuration);
        }
        if timestamp_ns.checked_add(duration_ns).is_none() {
            return Err(ReplayPacketError::TimestampOverflow);
        }
        Ok(EncodedReplayPacket { timestamp_ns, duration_ns, keyframe, bytes })
    }

    pub fn timestamp_ns(&self) -> (result: u64)
        ensures
            result == self@.timestamp_ns,
            packet_error(self@) is None,
    {
        proof {
            use_type_invariant(self);
        }
        self.timestamp_ns
    }

    pub fn duration_ns(&self) -> (result: u64)
        ensures
            result == self@.duration_ns,
            packet_error(self@) is None,
    {
        proof {
            use_type_invariant(self);
        }
        self.duration_ns
    }

    pub fn is_keyframe(&self) -> (result: bool)
        ensures
            result == self@.keyframe,
    {
        self.keyframe
    }

    pub fn bytes(&self) -> (result: &[u8])
        ensures
            result@ == self@.bytes,
            packet_error(self@) is None,
    {
        proof {
            use_type_invariant(self);
        }
        self.bytes.as_slice()
    }
}

impl Clone for EncodedReplayPacket {
    fn clone(&self) -> (result: Self)
        ensures
            result@ == self@,
    {
        proof {
            use_type_invariant(self);
        }
        let bytes = self.bytes.clone();
        assert(bytes@ =~= self.bytes@);
        EncodedReplayPacket {
            timestamp_ns: self.timestamp_ns,
            duration_ns: self.duration_ns,
            keyframe: self.keyframe,
            bytes,
        }
    }
}

impl ReplayPacketError {
    /// The user-facing sentence for this error.
    pub fn message(&self) -> (result: &'static str)
        ensures
            result@ == (match *self {
                ReplayPacketError::Empty => "encoded replay packet is empty"@,
                ReplayPacketError::TooLarge => "encoded replay packet exceeds 8 MiB"@,
                ReplayPacketError::InvalidDuration => "encoded replay packet duration is invalid"@,
                ReplayPacketError::TimestampOverflow => "encoded replay packet timestamp overflows"@,
            }),
    {
        match self {
            ReplayPacketError::Empty => "encoded replay packet is empty",
            ReplayPacketError::TooLarge => "encoded replay packet exceeds 8 MiB",
            ReplayPacketError::InvalidDuration => "encoded replay packet duration is invalid",
            ReplayPacketError::TimestampOverflow => "encoded replay packet timestamp overflows",
        }
    }
}

/// Limits that one replay configuration puts on the in-memory history.
#[derive(Clone, Copy, Debug, PartialEq, Eq, Structural)]
pub struct ReplayBudget {
    pub frame_capacity: u32,
    pub maximum_ring_bytes: u64,
}

/// Counters over the lifetime of one ring.
#[derive(Clone, Copy, Debug, Default, PartialEq, Eq, Structural)]
pub struct ReplayRingStats {
    pub stored_packets: u32,
    pub stored_bytes: u64,
    pub dropped_awaiting_keyframe: u64,
    pub evicted_packets: u64,
    pub evicted_bytes: u64,
}

/// What a successful insertion did.
#[derive(Clone, Copy, Debug, PartialEq, Eq, Structural)]
pub enum ReplayPushOutcome {
    Stored { evicted_packets: u32, evicted_bytes: u64 },
    DroppedAwaitingKeyframe,
}

/// Why an insertion was refused.
#[derive(Clone, Copy, Debug, PartialEq, Eq, Structural)]
pub enum ReplayRingError {
    NonMonotonicTimestamp,
    PacketExceedsRingBudget,
}

impl ReplayRingError {
    /// The user-facing sentence for this error.
    pub fn message(&self) -> (result: &'static str)
        ensures
            result@ == (match *self {
                ReplayRingError::NonMonotonicTimestamp => "replay packet timestamp is not monotonic"@,
                ReplayRingError::PacketExceedsRingBudget => "replay packet exceeds the encoded ring budget"@,
            }),
    {
        match self {
            ReplayRingError::NonMonotonicTimestamp => "replay packet timestamp is not monotonic",
            ReplayRingError::PacketExceedsRingBudget => "replay packet exceeds the encoded ring budget",
        }
    }
}

/// The three fixed limits of a ring.
pub ghost struct RingLimits {
    pub duration_ns: u64,
    pub packets: u32,
    pub bytes: u64,
}

/// The limits of a ring for some seconds and a budget.
pub open spec fn limits_for(duration_seconds: u32, budget: ReplayBudget) -> RingLimits {
    RingLimits {
        duration_ns: (duration_seconds * NANOSECONDS_PER_SECOND) as u64,
        packets: if budget.frame_capacity == 0 {
            1
        } else {
            budget.frame_capacity
        },
        bytes: if budget.maximum_ring_bytes == 0 {
            1
        } else {
            budget.maximum_ring_bytes
        },
    }
}

/// Payload bytes of a history.
pub open spec fn total_bytes(packets: Seq<PacketView>) -> nat
    decreases packets.len(),
{
    if packets.len() == 0 {
        0
    } else {
        packets.first().bytes.len() + total_bytes(packets.drop_first())
    }
}

/// Nanoseconds from the first timestamp to the end of the last packet.
pub open spec fn span_ns(packets: Seq<PacketView>) -> int {
    if packets.len() == 0 {
        0
    } else {
        packets.last().timestamp_ns + packets.last().duration_ns - packets.first().timestamp_ns
    }
}

/// Whether a history is within all three limits.
pub open spec fn fits(limits: RingLimits, packets: Seq<PacketView>) -> bool {
    &&& packets.len() <= limits.packets
    &&& total_bytes(packets) <= limits.bytes
    &&& span_ns(packets) <= limits.duration_ns
}

/// Whether playback can begin at the first packet of a history.
pub open spec fn decodable(packets: Seq<PacketView>) -> bool {
    packets.len() > 0 ==> packets.first().keyframe
}

/// The longest suffix that begins at a keyframe and is within the limits.
pub open spec fn retained(limits: RingLimits, packets: Seq<PacketView>) -> Seq<PacketView>
    decreases packets.len(),
{
    if packets.len() == 0 || (packets.first().keyframe && fits(limits, packets)) {
        packets
    } else {
        retained(limits, packets.drop_first())
    }
}

/// Whether timestamps strictly increase.
pub open spec fn strictly_ordered(packets: Seq<PacketView>) -> bool {
    forall|i: int, j: int|
        0 <= i < j < packets.len() ==> packets[i].timestamp_ns < packets[j].timestamp_ns
}

/// Whether every packet of a history is one that construction accepts.
pub open spec fn all_bounded(packets: Seq<PacketView>) -> bool {
    forall|i: int| 0 <= i < packets.len() ==> packet_error(#[trigger] packets[i]) is None
}

/// A ring without its counters.
#[verifier::ext_equal]
pub ghost struct RingState {
    pub limits: RingLimits,
    pub history: Seq<PacketView>,
    pub last_timestamp_ns: Option<u64>,
}

/// What inserting a packet does to a ring.
pub open spec fn after_push(state: RingState, packet: PacketView) -> Result<
    RingState,
    ReplayRingError,
> {
    if packet.bytes.len() > state.limits.bytes {
        Err(ReplayRingError::PacketExceedsRingBudget)
    } else if state.last_timestamp_ns matches Some(last) && packet.timestamp_ns <= last {
        Err(ReplayRingError::NonMonotonicTimestamp)
    } else if state.history.len() == 0 && !packet.keyframe {
        Ok(RingState { last_timestamp_ns: Some(packet.timestamp_ns), ..state })
    } else {
        Ok(
            RingState {
                history: retained(state.limits, state.history.push(packet)),
                last_timestamp_ns: Some(packet.timestamp_ns),
                ..state
            },
        )
    }
}

/// The smaller of a count and a machine limit.
pub open spec fn capped(value: int, limit: int) -> int {
    if value <= limit {
        value
    } else {
        limit
    }
}

/// Fixed-budget encoded packet history.
///
/// All limits hold after every insertion, and every non-empty history begins
/// at a keyframe.
pub struct ReplayRing {
    duration_limit_ns: u64,
    packet_limit: u32,
    byte_limit: u64,
    packets: VecDeque<EncodedReplayPacket>,
    last_timestamp_ns: Option<u64>,
    stored_bytes: u64,
    dropped_awaiting_keyframe: u64,
    evicted_packets: u64,
    evicted_bytes: u64,
}

proof fn lemma_total_push(packets: Seq<PacketView>, packet: PacketView)
    ensures
        total_bytes(packets.push(packet)) == total_bytes(packets) + packet.bytes.len(),
    decreases packets.len(),
{
    reveal_with_fuel(total_bytes, 2);
    if packets.len() == 0 {
        assert(packets.push(packet).drop_first() =~= Seq::<PacketView>::empty());
    } else {
        assert(packets.push(packet).drop_first() =~= packets.drop_first().push(packet));
        lemma_total_push(packets.drop_first(), packet);
    }
}

proof fn lemma_total_bound(packets: Seq<PacketView>)
    requires
        all_bounded(packets),
    ensures
        total_bytes(packets) <= packets.len() * MAX_SINGLE_PACKET_BYTES,
    decreases packets.len(),
{
    if packets.len() > 0 {
        assert(packet_error(packets[0]) is None);
        assert forall|i: int| 0 <= i < packets.drop_first().len() implies packet_error(
            #[trigger] packets.drop_first()[i],
        ) is None by {
            assert(packet_error(packets[i + 1]) is None);
        }
        lemma_total_bound(packets.drop_first());
    }
}

proof fn lemma_retained_is_suffix(limits: RingLimits, packets: Seq<PacketView>)
    ensures
        retained(limits, packets).len() <= packets.len(),
        retained(limits, packets) == packets.skip(packets.len() - retained(limits, packets).len()),
    decreases packets.len(),
{
    if packets.len() == 0 || (packets.first().keyframe && fits(limits, packets)) {
        assert(packets.skip(0) =~= packets);
    } else {
        let rest = packets.drop_first();
        lemma_retained_is_suffix(limits, rest);
        let kept = retained(limits, rest).len();
        assert(rest.skip(rest.len() - kept) =~= packets.skip(packets.len() - kept));
    }
}

/// What remains of a history after trimming is decodable and within the
/// limits, and no longer suffix of it is both.
pub proof fn retained_is_longest(limits: RingLimits, packets: Seq<PacketView>, from: int)
    requires
        0 <= from < packets.len() - retained(limits, packets).len(),
    ensures
        decodable(retained(limits, packets)),
        retained(limits, packets).len() > 0 ==> fits(limits, retained(limits, packets)),
        !(packets.skip(from).first().keyframe && fits(limits, packets.skip(from))),
    decreases packets.len(),
{
    if packets.len() == 0 || (packets.first().keyframe && fits(limits, packets)) {
    } else if from == 0 {
        assert(packets.skip(0) =~= packets);
        lemma_retained_good(limits, packets);
    } else {
        let rest = packets.drop_first();
        assert(rest.skip(from - 1) =~= packets.skip(from));
        retained_is_longest(limits, rest, from - 1);
    }
}

proof fn lemma_retained_good(limits: RingLimits, packets: Seq<PacketView>)
    ensures
        decodable(retained(limits, packets)),
        retained(limits, packets).len() > 0 ==> fits(limits, retained(limits, packets)),
    decreases packets.len(),
{
    if packets.len() == 0 || (packets.first().keyframe && fits(limits, packets)) {
    } else {
        lemma_retained_good(limits, packets.drop_first());
    }
}

proof fn lemma_drop_first_keeps(limits: RingLimits, packets: Seq<PacketView>)
    requires
        packets.len() > 0,
        strictly_ordered(packets),
        all_bounded(packets),
    ensures
        strictly_ordered(packets.drop_first()),
        all_bounded(packets.drop_first()),
        total_bytes(packets) == packets.first().bytes.len() + total_bytes(packets.drop_first()),
        fits(limits, packets) ==> fits(limits, packets.drop_first()),
{
    let rest = packets.drop_first();
    assert forall|i: int, j: int| 0 <= i < j < rest.len() implies rest[i].timestamp_ns
        < rest[j].timestamp_ns by {
        assert(packets[i + 1].timestamp_ns < packets[j + 1].timestamp_ns);
    }
    assert forall|i: int| 0 <= i < rest.len() implies packet_error(#[trigger] rest[i]) is None by {
        assert(packet_error(packets[i + 1]) is None);
    }
    if rest.len() > 0 {
        assert(rest.last() == packets.last());
        assert(packets[0].timestamp_ns < packets[1].timestamp_ns);
    }
}

/// The counters of a ring after inserting a packet brought it from one state
/// to another.
pub open spec fn counters_after_push(
    was: ReplayRingStats,
    before: Seq<PacketView>,
    packet: PacketView,
    after: Seq<PacketView>,
) -> ReplayRingStats {
    if before.len() == 0 && !packet.keyframe {
        ReplayRingStats {
            dropped_awaiting_keyframe: capped(
                was.dropped_awaiting_keyframe + 1,
                u64::MAX as int,
            ) as u64,
            ..was
        }
    } else {
        let gone = before.len() + 1 - after.len();
        let gone_bytes = total_bytes(before) + packet.bytes.len() - total_bytes(after);
        ReplayRingStats {
            stored_packets: after.len() as u32,
            stored_bytes: total_bytes(after) as u64,
            dropped_awaiting_keyframe: was.dropped_awaiting_keyframe,
            evicted_packets: capped(
                was.evicted_packets + capped(gone, u32::MAX as int),
                u64::MAX as int,
            ) as u64,
            evicted_bytes: capped(was.evicted_bytes + gone_bytes, u64::MAX as int) as u64,
        }
    }
}

/// The counters of a ring after it forgot an epoch with some history.
pub open spec fn counters_after_reset(was: ReplayRingStats, history: Seq<PacketView>) -> ReplayRingStats {
    ReplayRingStats {
        stored_packets: 0,
        stored_bytes: 0,
        dropped_awaiting_keyframe: was.dropped_awaiting_keyframe,
        evicted_packets: capped(was.evicted_packets + history.len(), u64::MAX as int) as u64,
        evicted_bytes: capped(was.evicted_bytes + total_bytes(history), u64::MAX as int) as u64,
    }
}

impl ReplayRing {
    /// The stored packets, oldest first.
    pub closed spec fn history(&self) -> Seq<PacketView> {
        self.packets@.map_values(|packet: EncodedReplayPacket| packet@)
    }

    pub closed spec fn limits(&self) -> RingLimits {
        RingLimits {
            duration_ns: self.duration_limit_ns,
            packets: self.packet_limit,
            bytes: self.byte_limit,
        }
    }

    /// The timestamp of the last accepted packet of this epoch.
    pub closed spec fn last_timestamp(&self) -> Option<u64> {
        self.last_timestamp_ns
    }

    /// The ring without its counters.
    pub open spec fn state(&self) -> RingState {
        RingState {
            limits: self.limits(),
            history: self.history(),
            last_timestamp_ns: self.last_timestamp(),
        }
    }

    /// The lifetime counters.
    pub closed spec fn counters(&self) -> ReplayRingStats {
        ReplayRingStats {
            stored_packets: capped(self.packets@.len() as int, u32::MAX as int) as u32,
            stored_bytes: self.stored_bytes,
            dropped_awaiting_keyframe: self.dropped_awaiting_keyframe,
            evicted_packets: self.evicted_packets,
            evicted_bytes: self.evicted_bytes,
        }
    }

    /// The ring's invariant: within every limit, decodable, in strict
    /// timestamp order, with an exact byte count.
    pub open spec fn wf(&self) -> bool {
        &&& fits(self.limits(), self.history())
        &&& decodable(self.history())
        &&& strictly_ordered(self.history())
        &&& all_bounded(self.history())
        &&& self.counters().stored_packets == self.history().len()
        &&& self.counters().stored_bytes == total_bytes(self.history())
        &&& self.history().len() > 0 ==> self.last_timestamp() == Some(
            self.history().last().timestamp_ns,
        )
    }

    /// An empty ring for a replay of `duration_seconds` under `budget`.
    pub fn new(duration_seconds: u32, budget: ReplayBudget) -> (ring: Self)
        ensures
            ring.wf(),
            ring.history() == Seq::<PacketView>::empty(),
            ring.last_timestamp() is None,
            ring.limits() == limits_for(duration_seconds, budget),
            ring.limits() == (RingLimits {
                duration_ns: (duration_seconds * NANOSECONDS_PER_SECOND) as u64,
                packets: if budget.frame_capacity == 0 { 1 } else { budget.frame_capacity },
                bytes: if budget.maximum_ring_bytes == 0 { 1 } else { budget.maximum_ring_bytes },
            }),
            ring.counters() == (ReplayRingStats {
                stored_packets: 0,
                stored_bytes: 0,
                dropped_awaiting_keyframe: 0,
                evicted_packets: 0,
                evicted_bytes: 0,
            }),
    {
        let ring = ReplayRing {
            duration_limit_ns: duration_seconds as u64 * NANOSECONDS_PER_SECOND,
            packet_limit: if budget.frame_capacity == 0 { 1 } else { budget.frame_capacity },
            byte_limit: if budget.maximum_ring_bytes == 0 { 1 } else { budget.maximum_ring_bytes },
            packets: VecDeque::new(),
            last_timestamp_ns: None,
            stored_bytes: 0,
            dropped_awaiting_keyframe: 0,
            evicted_packets: 0,
            evicted_bytes: 0,
        };
        assert(ring.history() =~= Seq::<PacketView>::empty());
        ring
    }

    /// Inserts one packet while preserving all fixed limits.
    pub fn push(&mut self, packet: EncodedReplayPacket) -> (result: Result<
        ReplayPushOutcome,
        ReplayRingError,
    >)
        requires
            old(self).wf(),
        ensures
            final(self).wf(),
            match after_push(old(self).state(), packet@) {
                Err(error) => result == Err::<ReplayPushOutcome, ReplayRingError>(error)
                    && *final(self) == *old(self),
                Ok(state) => {
                    let before = old(self).history();
                    let gone = before.len() + 1 - state.history.len();
                    let gone_bytes = total_bytes(before) + packet@.bytes.len() - total_bytes(
                        state.history,
                    );
                    &&& final(self).state() == state
                    &&& final(self).counters() == counters_after_push(
                        old(self).counters(),
                        before,
                        packet@,
                        state.history,
                    )
                    &&& if before.len() == 0 && !packet@.keyframe {
                        result == Ok::<ReplayPushOutcome, ReplayRingError>(
                            ReplayPushOutcome::DroppedAwaitingKeyframe,
                        )
                    } else {
                        &&& result == Ok::<ReplayPushOutcome, ReplayRingError>(
                            ReplayPushOutcome::Stored {
                                evicted_packets: capped(gone, u32::MAX as int) as u32,
                                evicted_bytes: gone_bytes as u64,
                            },
                        )
                        &&& 0 <= gone_bytes <= u64::MAX
                    }
                },
            },
    {
        let size: u64 = packet.bytes().len() as u64;
        if size > self.byte_limit {
            return Err(ReplayRingError::PacketExceedsRingBudget);
        }
        if let Some(last) = self.last_timestamp_ns {
            if packet.timestamp_ns() <= last {
                return Err(ReplayRingError::NonMonotonicTimestamp);
            }
        }
        let ghost before = self.history();
        let ghost full = before.push(packet@);
        let ghost limits = self.limits();
        self.last_timestamp_ns = Some(packet.timestamp_ns());
        if self.packets.len() == 0 && !packet.is_keyframe() {
            self.dropped_awaiting_keyframe = self.dropped_awaiting_keyframe.saturating_add(1);
            assert(self.history() =~= before);
            return Ok(ReplayPushOutcome::DroppedAwaitingKeyframe);
        }
        proof {
            lemma_total_push(before, packet@);
            assert(all_bounded(full)) by {
                assert forall|i: int| 0 <= i < full.len() implies packet_error(
                    #[trigger] full[i],
                ) is None by {
                    if i < before.len() {
                        assert(packet_error(before[i]) is None);
                    }
                }
            }
            lemma_total_bound(full);
            assert(strictly_ordered(full)) by {
                assert forall|i: int, j: int| 0 <= i < j < full.len() implies full[i].timestamp_ns
                    < full[j].timestamp_ns by {
                    if j < before.len() {
                        assert(before[i].timestamp_ns < before[j].timestamp_ns);
                    } else if i < before.len() - 1 {
                        assert(before[i].timestamp_ns < before.last().timestamp_ns);
                    }
                }
            }
        }
        self.stored_bytes = self.stored_bytes + size;
        self.packets.push_back(packet);
        assert(self.history() =~= full);
        let mut evicted_packets: u32 = 0;
        let mut evicted_bytes: u64 = 0;
        let ghost start = *self;
        while self.exceeds_any_limit()
            invariant
                self.evicting(start, full, evicted_packets, evicted_bytes),
                total_bytes(full) <= u64::MAX,
                limits == self.limits(),
                retained(limits, self.history()) == retained(limits, full),
            ensures
                fits(limits, self.history()),
            decreases self.history().len(),
        {
            proof {
                lemma_drop_first_keeps(limits, self.history());
            }
            self.evict_front(&mut evicted_packets, &mut evicted_bytes);
        }
        while self.front_is_dependent()
            invariant
                self.evicting(start, full, evicted_packets, evicted_bytes),
                total_bytes(full) <= u64::MAX,
                limits == self.limits(),
                retained(limits, self.history()) == retained(limits, full),
                fits(limits, self.history()),
            decreases self.history().len(),
        {
            proof {
                lemma_drop_first_keeps(limits, self.history());
            }
            self.evict_front(&mut evicted_packets, &mut evicted_bytes);
        }
        self.evicted_packets = self.evicted_packets.saturating_add(evicted_packets as u64);
        self.evicted_bytes = self.evicted_bytes.saturating_add(evicted_bytes);
        Ok(ReplayPushOutcome::Stored { evicted_packets, evicted_bytes })
    }

    /// The state of an insertion that has evicted some packets from the front.
    spec fn evicting(
        &self,
        start: ReplayRing,
        full: Seq<PacketView>,
        evicted_packets: u32,
        evicted_bytes: u64,
    ) -> bool {
        let now = self.history();
        &&& self.limits() == start.limits()
        &&& self.last_timestamp_ns == start.last_timestamp_ns
        &&& self.dropped_awaiting_keyframe == start.dropped_awaiting_keyframe
        &&& self.evicted_packets == start.evicted_packets
        &&& self.evicted_bytes == start.evicted_bytes
        &&& strictly_ordered(now)
        &&& all_bounded(now)
        &&& self.stored_bytes == total_bytes(now)
        &&& now.len() <= full.len()
        &&& now.len() > 0 ==> now.last() == full.last()
        &&& evicted_packets == capped(full.len() - now.len(), u32::MAX as int)
        &&& evicted_bytes == total_bytes(full) - total_bytes(now)
    }

    /// The stored packets, oldest first.
    pub fn packets(&self) -> (result: Vec<&EncodedReplayPacket>)
        ensures
            result@.len() == self.history().len(),
            forall|i: int| 0 <= i < result@.len() ==> (#[trigger] result@[i])@ == self.history()[i],
    {
        let mut result: Vec<&EncodedReplayPacket> = Vec::new();
        let mut index: usize = 0;
        while index < self.packets.len()
            invariant
                index <= self.packets@.len(),
                result@.len() == index,
                forall|i: int| 0 <= i < index ==> (#[trigger] result@[i])@ == self.history()[i],
            decreases self.packets@.len() - index,
        {
            result.push(&self.packets[index]);
            index = index + 1;
        }
        result
    }

    /// Maximum packet slots of this history.
    pub fn packet_capacity(&self) -> (result: u32)
        ensures
            result == self.limits().packets,
    {
        self.packet_limit
    }

    /// Maximum payload bytes of this history.
    pub fn byte_capacity(&self) -> (result: u64)
        ensures
            result == self.limits().bytes,
    {
        self.byte_limit
    }

    pub fn stats(&self) -> (result: ReplayRingStats)
        ensures
            result == self.counters(),
    {
        let count: usize = self.packets.len();
        ReplayRingStats {
            stored_packets: if count as u64 <= u32::MAX as u64 { count as u32 } else { u32::MAX },
            stored_bytes: self.stored_bytes,
            dropped_awaiting_keyframe: self.dropped_awaiting_keyframe,
            evicted_packets: self.evicted_packets,
            evicted_bytes: self.evicted_bytes,
        }
    }

    /// Discards one encoded stream epoch. The next epoch may restart its
    /// timestamps, while the eviction counters go on.
    pub fn reset_epoch(&mut self)
        requires
            old(self).wf(),
        ensures
            final(self).wf(),
            final(self).limits() == old(self).limits(),
            final(self).history() == Seq::<PacketView>::empty(),
            final(self).last_timestamp() is None,
            final(self).counters() == counters_after_reset(
                old(self).counters(),
                old(self).history(),
            ),
    {
        let removed_packets: u64 = self.packets.len() as u64;
        self.evicted_packets = self.evicted_packets.saturating_add(removed_packets);
        self.evicted_bytes = self.evicted_bytes.saturating_add(self.stored_bytes);
        self.packets.clear();
        self.last_timestamp_ns = None;
        self.stored_bytes = 0;
        assert(self.history() =~= Seq::<PacketView>::empty());
    }

    fn exceeds_any_limit(&self) -> (result: bool)
        requires
            strictly_ordered(self.history()),
            all_bounded(self.history()),
            self.stored_bytes == total_bytes(self.history()),
        ensures
            result == !fits(self.limits(), self.history()),
    {
        let count: usize = self.packets.len();
        let mut duration_exceeded = false;
        if count > 0 {
            let first = self.packets[0].timestamp_ns();
            let end = self.packets[count - 1].timestamp_ns().saturating_add(
                self.packets[count - 1].duration_ns(),
            );
            assert(packet_error(self.history()[count - 1]) is None);
            assert(count > 1 ==> self.history()[0].timestamp_ns < self.history()[count
                - 1].timestamp_ns);
            duration_exceeded = end.saturating_sub(first) > self.duration_limit_ns;
        }
        count > self.packet_limit as usize || self.stored_bytes > self.byte_limit
            || duration_exceeded
    }

    fn front_is_dependent(&self) -> (result: bool)
        ensures
            result == !decodable(self.history()),
    {
        self.packets.len() > 0 && !self.packets[0].is_keyframe()
    }

    fn evict_front(&mut self, packet_count: &mut u32, byte_count: &mut u64)
        requires
            old(self).history().len() > 0,
            old(self).stored_bytes == total_bytes(old(self).history()),
            *old(byte_count) + old(self).history().first().bytes.len() <= u64::MAX,
        ensures
            final(self).history() == old(self).history().drop_first(),
            final(self).stored_bytes == total_bytes(final(self).history()),
            final(self).limits() == old(self).limits(),
            final(self).last_timestamp_ns == old(self).last_timestamp_ns,
            final(self).dropped_awaiting_keyframe == old(self).dropped_awaiting_keyframe,
            final(self).evicted_packets == old(self).evicted_packets,
            final(self).evicted_bytes == old(self).evicted_bytes,
            *final(packet_count) == capped(*old(packet_count) + 1, u32::MAX as int),
            *final(byte_count) == *old(byte_count) + old(self).history().first().bytes.len(),
    {
        if let Some(packet) = self.packets.pop_front() {
            let size: u64 = packet.bytes().len() as u64;
            assert(self.history() =~= old(self).history().drop_first());
            self.stored_bytes = self.stored_bytes - size;
            *packet_count = packet_count.saturating_add(1);
            *byte_count = *byte_count + size;
        }
    }
}

/// Inserting a packet keeps a decodable history decodable and within the
/// limits, and never reorders or invents packets: the new history is a suffix
/// of the old one with the packet behind it.
pub proof fn push_keeps_decodable_bounded_suffix(state: RingState, packet: PacketView)
    requires
        fits(state.limits, state.history),
        decodable(state.history),
    ensures
        after_push(state, packet) matches Ok(next) ==> {
            let full = state.history.push(packet);
            &&& decodable(next.history)
            &&& fits(state.limits, next.history)
            &&& next.limits == state.limits
            &&& next.history.len() <= full.len()
            &&& next.history == full.skip(full.len() - next.history.len()) || next.history
                == state.history
        },
{
    let full = state.history.push(packet);
    lemma_retained_good(state.limits, full);
    lemma_retained_is_suffix(state.limits, full);
}

/// A ring that forgot its epoch accepts any timestamp again.
pub proof fn reset_allows_timestamp_restart(limits: RingLimits, packet: PacketView)
    requires
        packet.bytes.len() <= limits.bytes,
    ensures
        after_push(
            RingState { limits, history: Seq::empty(), last_timestamp_ns: None },
            packet,
        ) is Ok,
{
}

/// An encoded packet has between one byte and eight mebibytes, is shown for
/// some time but no longer than a second, and ends at a time that fits its
/// clock.
pub proof fn packets_are_bounded(packet: PacketView)
    ensures
        packet_error(packet) is None <==> 1 <= packet.bytes.len() <= 8 * 1_024 * 1_024 && 1
            <= packet.duration_ns <= 1_000_000_000 && packet.timestamp_ns + packet.duration_ns
            < 0x1_0000_0000_0000_0000,
{
}

/// What is kept of a history starts at a keyframe, ends with the newest packet
/// and lasts no longer than the ring.
pub proof fn the_newest_packets_are_kept(state: RingState, packet: PacketView)
    requires
        after_push(state, packet) is Ok,
        state.history.len() > 0 || packet.keyframe,
    ensures
        ({
            let kept = after_push(state, packet)->Ok_0.history;
            kept.len() > 0 ==> {
                &&& kept.last() == packet
                &&& kept[0].keyframe
                &&& packet.timestamp_ns + packet.duration_ns - kept[0].timestamp_ns
                    <= state.limits.duration_ns
                &&& kept.len() <= state.limits.packets
            }
        }),
{
    let pushed = state.history.push(packet);
    lemma_kept_end(state.limits, pushed);
    assert(pushed.last() == packet);
}

proof fn lemma_kept_end(limits: RingLimits, packets: Seq<PacketView>)
    ensures
        retained(limits, packets).len() > 0 ==> {
            &&& retained(limits, packets).last() == packets.last()
            &&& retained(limits, packets).first().keyframe
            &&& fits(limits, retained(limits, packets))
        },
    decreases packets.len(),
{
    if packets.len() > 0 && !(packets.first().keyframe && fits(limits, packets)) {
        lemma_kept_end(limits, packets.drop_first());
        if packets.len() > 1 {
            assert(packets.drop_first().last() == packets.last());
        }
    }
}

/// A packet is taken where it fits the ring and comes after the last one. The
/// two reasons to refuse it are told apart.
pub proof fn packets_come_one_after_another(state: RingState, packet: PacketView)
    ensures
        after_push(state, packet) is Ok <==> packet.bytes.len() <= state.limits.bytes && (
        state.last_timestamp_ns matches Some(last) ==> last < packet.timestamp_ns),
        packet.bytes.len() > state.limits.bytes ==> after_push(state, packet) == Err::<
            RingState,
            ReplayRingError,
        >(ReplayRingError::PacketExceedsRingBudget),
        packet.bytes.len() <= state.limits.bytes && (state.last_timestamp_ns matches Some(last)
            && packet.timestamp_ns <= last) ==> after_push(state, packet) == Err::<
            RingState,
            ReplayRingError,
        >(ReplayRingError::NonMonotonicTimestamp),
        after_push(state, packet) matches Ok(next) ==> next.last_timestamp_ns == Some(
            packet.timestamp_ns,
        ) && next.limits == state.limits,
{
}

/// Every packet is either stored, evicted or counted as dropped.
pub proof fn no_packet_goes_uncounted(
    was: ReplayRingStats,
    before: Seq<PacketView>,
    packet: PacketView,
    after: Seq<PacketView>,
)
    requires
        after.len() <= before.len() + 1 <= u32::MAX,
        total_bytes(after) <= total_bytes(before) + packet.bytes.len(),
        total_bytes(before) + packet.bytes.len() <= u64::MAX,
        was.evicted_packets + before.len() < u64::MAX,
        was.evicted_bytes + total_bytes(before) + packet.bytes.len() <= u64::MAX,
        was.dropped_awaiting_keyframe < u64::MAX,
        before.len() == 0 && !packet.keyframe ==> after.len() == 0,
        was.stored_packets == before.len(),
        was.stored_bytes == total_bytes(before),
    ensures
        ({
            let now = counters_after_push(was, before, packet, after);
            &&& now.stored_packets + now.evicted_packets + now.dropped_awaiting_keyframe
                == was.stored_packets + was.evicted_packets + was.dropped_awaiting_keyframe + 1
            &&& now.stored_packets == after.len()
            &&& before.len() > 0 || packet.keyframe ==> now.stored_bytes + now.evicted_bytes
                == was.stored_bytes + was.evicted_bytes + packet.bytes.len()
        }),
{
}

/// A ring lasts as many seconds as it was made for, and holds what its budget
/// allows, one packet and one byte at least.
pub proof fn rings_last_their_seconds(seconds: u32, budget: ReplayBudget)
    ensures
        ({
            let limits = limits_for(seconds, budget);
            &&& limits.duration_ns == seconds * 1_000_000_000
            &&& limits.packets >= 1 && limits.bytes >= 1
            &&& budget.frame_capacity > 0 ==> limits.packets == budget.frame_capacity
            &&& budget.maximum_ring_bytes > 0 ==> limits.bytes == budget.maximum_ring_bytes
        }),
{
}

/// A ring that starts anew counts what it held as evicted.
pub proof fn a_new_start_evicts_everything(was: ReplayRingStats, history: Seq<PacketView>)
    requires
        was.evicted_packets + history.len() <= u64::MAX,
        was.evicted_bytes + total_bytes(history) <= u64::MAX,
    ensures
        ({
            let now = counters_after_reset(was, history);
            &&& now.stored_packets == 0 && now.stored_bytes == 0
            &&& now.evicted_packets == was.evicted_packets + history.len()
            &&& now.evicted_bytes == was.evicted_bytes + total_bytes(history)
            &&& now.dropped_awaiting_keyframe == was.dropped_awaiting_keyframe
        }),
{
}

} // verus!
