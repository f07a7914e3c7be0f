//! Packet clumping: packets wait in a pool and leave together, once enough of
//! them have gathered or the oldest has waited long enough. Both thresholds are
//! drawn anew for every burst.
use crate::clock::{Duration, Instant, NANOS_PER_MICRO, NANOS_PER_MILLI};
use crate::primitives::blake3_keyed;
use crate::rng::{Draw, RngState, SeededRng};
use crate::seeds::{EphemeralSeed, SeedRole};
use std::collections::VecDeque;
use vstd::prelude::*;
use vstd::string::*;

verus! {

/// Smallest packet threshold drawn by default.
pub const DEFAULT_MIN_PACKETS_PER_BURST: usize = 2;

/// Largest packet threshold drawn by default.
pub const DEFAULT_MAX_PACKETS_PER_BURST: usize = 7;

/// Shortest timeout drawn by default, in milliseconds.
pub const DEFAULT_MIN_TIMEOUT: u64 = 12;

/// Longest timeout drawn by default, in milliseconds.
pub const DEFAULT_MAX_TIMEOUT: u64 = 85;

/// The domain under which the pool's generator is seeded.
pub open spec fn clumping_domain() -> Seq<u8> {
    "mixtor.clumping.v1".spec_bytes()
}

/// A payload on its way to the wire; never empty.
#[derive(Debug, PartialEq, Eq)]
pub struct Packet {
    bytes: Vec<u8>,
}

impl Clone for Packet {
    fn clone(&self) -> (p: Packet)
        ensures
            p@ == self@,
    {
        proof {
            use_type_invariant(self);
        }
        let bytes = self.bytes.clone();
        assert(bytes@ =~= self.bytes@);
        Packet { bytes }
    }
}

impl View for Packet {
    type V = Seq<u8>;

    closed spec fn view(&self) -> Seq<u8> {
        self.bytes@
    }
}

impl Packet {
    #[verifier::type_invariant]
    spec fn never_empty(&self) -> bool {
        self.bytes@.len() > 0
    }

    /// The packet with this payload, which must not be empty.
    pub fn new(bytes: Vec<u8>) -> (r: Result<Packet, ClumpingError>)
        ensures
            bytes@.len() == 0 <==> r is Err,
            r is Err ==> r->Err_0 == ClumpingError::EmptyPacket,
            r is Ok ==> r->Ok_0@ == bytes@,
    {
        if bytes.len() == 0 {
            return Err(ClumpingError::EmptyPacket);
        }
        Ok(Packet { bytes })
    }

    /// The payload.
    pub fn bytes(&self) -> (b: &[u8])
        ensures
            b@ == self@,
    {
        self.bytes.as_slice()
    }

    /// The payload, taken out of the packet.
    pub fn into_bytes(self) -> (b: Vec<u8>)
        ensures
            b@ == self@,
    {
        self.bytes
    }

    /// Bytes in the payload.
    pub fn len(&self) -> (n: usize)
        ensures
            n == self@.len(),
            n > 0,
    {
        proof {
            use_type_invariant(self);
        }
        self.bytes.len()
    }

    /// Whether the payload is empty, which it never is.
    pub fn is_empty(&self) -> (b: bool)
        ensures
            b == (self@.len() == 0),
            !b,
    {
        proof {
            use_type_invariant(self);
        }
        self.bytes.len() == 0
    }
}

/// The payloads of a sequence of packets.
pub open spec fn payloads(packets: Seq<Packet>) -> Seq<Seq<u8>> {
    packets.map_values(|p: Packet| p@)
}

/// Bytes in the first `n` payloads.
pub open spec fn payload_bytes(packets: Seq<Packet>, n: nat) -> nat
    decreases n,
{
    if n == 0 {
        0
    } else {
        payload_bytes(packets, (n - 1) as nat) + packets[n - 1]@.len()
    }
}

/// Whether no payload is empty.
pub open spec fn none_empty(packets: Seq<Packet>) -> bool {
    forall|i: int| 0 <= i < packets.len() ==> (#[trigger] packets[i])@.len() > 0
}

/// Packets that are not empty weigh at least a byte each.
pub proof fn lemma_a_byte_a_packet(packets: Seq<Packet>, n: nat)
    requires
        none_empty(packets),
        n <= packets.len(),
    ensures
        payload_bytes(packets, n) >= n,
    decreases n,
{
    if n > 0 {
        lemma_a_byte_a_packet(packets, (n - 1) as nat);
        assert(packets[n - 1]@.len() > 0);
    }
}

/// The partial sums of payload lengths only grow.
pub proof fn lemma_payload_bytes_monotonic(packets: Seq<Packet>, m: nat, n: nat)
    requires
        m <= n,
    ensures
        payload_bytes(packets, m) <= payload_bytes(packets, n),
    decreases n,
{
    if m < n {
        lemma_payload_bytes_monotonic(packets, m, (n - 1) as nat);
    }
}

/// The thresholds one burst is collected under.
#[derive(Clone, Copy, Debug, PartialEq, Eq, Structural)]
pub struct CycleThresholds {
    pub max_packets: usize,
    pub timeout: Duration,
}

/// Why a burst left the pool.
#[derive(Clone, Copy, Debug, PartialEq, Eq, Structural)]
pub enum FlushReason {
    SizeThreshold,
    Timeout,
    Manual,
}

/// Packets that left the pool together.
#[derive(Debug, PartialEq, Eq)]
pub struct Burst {
    packets: Vec<Packet>,
    threshold: CycleThresholds,
    reason: FlushReason,
}

/// What a burst holds.
pub struct BurstView {
    pub packets: Seq<Packet>,
    pub threshold: CycleThresholds,
    pub reason: FlushReason,
}

impl View for Burst {
    type V = BurstView;

    closed spec fn view(&self) -> BurstView {
        BurstView { packets: self.packets@, threshold: self.threshold, reason: self.reason }
    }
}

impl Clone for Burst {
    fn clone(&self) -> (b: Burst)
        ensures
            payloads(b@.packets) == payloads(self@.packets),
            b@.threshold == self@.threshold,
            b@.reason == self@.reason,
    {
        let mut packets: Vec<Packet> = Vec::new();
        let mut i: usize = 0;
        while i < self.packets.len()
            invariant
                i <= self.packets@.len(),
                packets@.len() == i,
                forall|j: int| 0 <= j < i ==> (#[trigger] packets@[j])@ == self.packets@[j]@,
            decreases self.packets@.len() - i,
        {
            packets.push(self.packets[i].clone());
            i = i + 1;
        }
        assert(payloads(packets@) =~= payloads(self.packets@));
        Burst { packets, threshold: self.threshold, reason: self.reason }
    }
}

impl Burst {
    /// The burst with these parts.
    pub fn from_parts(packets: Vec<Packet>, threshold: CycleThresholds, reason: FlushReason) -> (b:
        Burst)
        ensures
            b@ == (BurstView { packets: packets@, threshold, reason }),
    {
        Burst { packets, threshold, reason }
    }

    /// The packets, oldest first.
    pub fn packets(&self) -> (p: &[Packet])
        ensures
            p@ == self@.packets,
    {
        self.packets.as_slice()
    }

    /// The packets, taken out of the burst.
    pub fn into_packets(self) -> (p: Vec<Packet>)
        ensures
            p@ == self@.packets,
    {
        self.packets
    }

    /// Packets in the burst.
    pub fn packet_count(&self) -> (n: usize)
        ensures
            n == self@.packets.len(),
    {
        self.packets.len()
    }

    /// Bytes in the burst's payloads; at least one for each packet.
    pub fn total_bytes(&self) -> (n: usize)
        requires
            payload_bytes(self@.packets, self@.packets.len()) <= usize::MAX,
        ensures
            n == payload_bytes(self@.packets, self@.packets.len()),
            n >= self@.packets.len(),
    {
        let mut total: usize = 0;
        let mut i: usize = 0;
        while i < self.packets.len()
            invariant
                i <= self.packets@.len(),
                self@.packets == self.packets@,
                total == payload_bytes(self.packets@, i as nat),
                total >= i,
                payload_bytes(self.packets@, self.packets@.len()) <= usize::MAX,
            decreases self.packets@.len() - i,
        {
            proof {
                lemma_payload_bytes_monotonic(self.packets@, (i + 1) as nat, self.packets@.len());
            }
            total = total + self.packets[i].len();
            i = i + 1;
        }
        total
    }

    /// The thresholds the burst was collected under.
    pub fn threshold(&self) -> (t: CycleThresholds)
        ensures
            t == self@.threshold,
    {
        self.threshold
    }

    /// Why the burst left the pool.
    pub fn reason(&self) -> (r: FlushReason)
        ensures
            r == self@.reason,
    {
        self.reason
    }
}

/// Why a packet, a configuration or a seed was refused.
#[derive(Debug, PartialEq, Eq)]
pub enum ClumpingError {
    EmptyPacket,
    InvalidConfig(&'static str),
    WrongSeedRole { expected: SeedRole, actual: SeedRole },
}

/// How a seed with the wrong role is reported.
pub open spec fn wrong_role_text(expected: SeedRole, actual: SeedRole) -> Seq<char> {
    "wrong seed role: expected "@ + expected.name_spec() + ", got "@ + actual.name_spec()
}

/// How a seed with the wrong role is reported.
pub fn wrong_role_message(expected: SeedRole, actual: SeedRole) -> (s: String)
    ensures
        s@ == wrong_role_text(expected, actual),
{
    let mut s = String::from_str("wrong seed role: expected ");
    s.append(expected.name());
    s.append(", got ");
    s.append(actual.name());
    s
}

impl ClumpingError {
    /// The error in words.
    pub open spec fn text(self) -> Seq<char> {
        match self {
            ClumpingError::EmptyPacket => "packet cannot be empty"@,
            ClumpingError::InvalidConfig(message) => "invalid clumping config: "@ + message@,
            ClumpingError::WrongSeedRole { expected, actual } => wrong_role_text(expected, actual),
        }
    }

    /// The error in words.
    pub fn message(&self) -> (s: String)
        ensures
            s@ == self.text(),
    {
        match self {
            ClumpingError::EmptyPacket => String::from_str("packet cannot be empty"),
            ClumpingError::InvalidConfig(message) => {
                let mut s = String::from_str("invalid clumping config: ");
                s.append(message);
                s
            },
            ClumpingError::WrongSeedRole { expected, actual } => wrong_role_message(
                *expected,
                *actual,
            ),
        }
    }
}

/// The ranges thresholds are drawn from.
#[derive(Clone, Copy, Debug, PartialEq, Eq, Structural)]
pub struct ClumpingConfig {
    pub min_packets_per_burst: usize,
    pub max_packets_per_burst: usize,
    pub min_timeout: Duration,
    pub max_timeout: Duration,
}

impl Default for ClumpingConfig {
    fn default() -> (c: ClumpingConfig)
        ensures
            c.min_packets_per_burst == DEFAULT_MIN_PACKETS_PER_BURST,
            c.max_packets_per_burst == DEFAULT_MAX_PACKETS_PER_BURST,
            c.min_timeout.nanos == DEFAULT_MIN_TIMEOUT * NANOS_PER_MILLI,
            c.max_timeout.nanos == DEFAULT_MAX_TIMEOUT * NANOS_PER_MILLI,
    {
        ClumpingConfig {
            min_packets_per_burst: DEFAULT_MIN_PACKETS_PER_BURST,
            max_packets_per_burst: DEFAULT_MAX_PACKETS_PER_BURST,
            min_timeout: Duration::from_millis(DEFAULT_MIN_TIMEOUT),
            max_timeout: Duration::from_millis(DEFAULT_MAX_TIMEOUT),
        }
    }
}

impl ClumpingConfig {
    /// The first rule the configuration breaks, if any.
    pub open spec fn fault(self) -> Option<Seq<char>> {
        if self.min_packets_per_burst == 0 {
            Some("minimum packet threshold must be at least one"@)
        } else if self.min_packets_per_burst > self.max_packets_per_burst {
            Some("minimum packet threshold cannot exceed maximum packet threshold"@)
        } else if self.min_timeout.nanos == 0 {
            Some("minimum timeout must be non-zero"@)
        } else if self.min_timeout.nanos > self.max_timeout.nanos {
            Some("minimum timeout cannot exceed maximum timeout"@)
        } else {
            None
        }
    }

    /// Hands the configuration back if it breaks no rule, and else reports the
    /// first rule it breaks.
    pub fn validate(self) -> (r: Result<ClumpingConfig, ClumpingError>)
        ensures
            match self.fault() {
                None => r == Ok::<ClumpingConfig, ClumpingError>(self),
                Some(text) => r is Err && r->Err_0 is InvalidConfig && r->Err_0->InvalidConfig_0@
                    == text,
            },
    {
        if self.min_packets_per_burst == 0 {
            return Err(
                ClumpingError::InvalidConfig("minimum packet threshold must be at least one"),
            );
        }
        if self.min_packets_per_burst > self.max_packets_per_burst {
            return Err(
                ClumpingError::InvalidConfig(
                    "minimum packet threshold cannot exceed maximum packet threshold",
                ),
            );
        }
        if self.min_timeout.is_zero() {
            return Err(ClumpingError::InvalidConfig("minimum timeout must be non-zero"));
        }
        if self.min_timeout.nanos > self.max_timeout.nanos {
            return Err(
                ClumpingError::InvalidConfig("minimum timeout cannot exceed maximum timeout"),
            );
        }
        Ok(self)
    }
}

/// Whole microseconds in a span, as the 64-bit integer timeouts are drawn as.
pub open spec fn micros(d: Duration) -> u64 {
    (d.nanos / NANOS_PER_MICRO) as u64
}

impl ClumpingConfig {
    /// Whether thresholds can be drawn: neither range is empty, the timeouts
    /// taken in whole microseconds.
    pub open spec fn drawable(self) -> bool {
        &&& self.min_packets_per_burst <= self.max_packets_per_burst
        &&& micros(self.min_timeout) <= micros(self.max_timeout)
    }

    /// The thresholds drawn from a generator in state `rng`.
    pub open spec fn thresholds_from(self, rng: RngState) -> CycleThresholds {
        CycleThresholds {
            max_packets: rng.count(self.min_packets_per_burst, self.max_packets_per_burst),
            timeout: Duration {
                nanos: (self.packets_drawn(rng).range64(
                    micros(self.min_timeout),
                    micros(self.max_timeout),
                ) * NANOS_PER_MICRO) as u128,
            },
        }
    }

    /// The generator once the packet threshold is drawn.
    pub open spec fn packets_drawn(self, rng: RngState) -> RngState {
        rng.then_draw(Draw::count(self.min_packets_per_burst, self.max_packets_per_burst))
    }

    /// The generator once both thresholds are drawn.
    pub open spec fn thresholds_drawn(self, rng: RngState) -> RngState {
        self.packets_drawn(rng).then_draw(
            Draw::Range64 { lo: micros(self.min_timeout), hi: micros(self.max_timeout) },
        )
    }

    /// Whether thresholds lie in the ranges they are drawn from.
    pub open spec fn in_range(self, t: CycleThresholds) -> bool {
        &&& self.min_packets_per_burst <= t.max_packets <= self.max_packets_per_burst
        &&& micros(self.min_timeout) * NANOS_PER_MICRO <= t.timeout.nanos
        &&& t.timeout.nanos <= micros(self.max_timeout) * NANOS_PER_MICRO
    }
}

/// Draws thresholds for one cycle.
pub fn draw_thresholds(config: ClumpingConfig, rng: &mut SeededRng) -> (t: CycleThresholds)
    requires
        config.drawable(),
    ensures
        t == config.thresholds_from(old(rng)@),
        config.in_range(t),
        final(rng)@ == config.thresholds_drawn(old(rng)@),
{
    let max_packets: usize = rng.range_usize(
        config.min_packets_per_burst,
        config.max_packets_per_burst,
    );
    let min_micros: u64 = config.min_timeout.as_micros() as u64;
    let max_micros: u64 = config.max_timeout.as_micros() as u64;
    let timeout = Duration::from_micros(rng.range_u64(min_micros, max_micros));
    CycleThresholds { max_packets, timeout }
}

/// What a pool holds.
pub struct PoolState {
    pub config: ClumpingConfig,
    pub rng: RngState,
    pub buffered: Seq<Packet>,
    pub thresholds: CycleThresholds,
    pub deadline: Option<Instant>,
}

impl PoolState {
    /// Fewer packets wait than make a burst, none of them is empty, and a deadline
    /// is set exactly while packets wait.
    pub open spec fn wf(self) -> bool {
        &&& self.config.fault() is None
        &&& self.config.drawable()
        &&& self.config.in_range(self.thresholds)
        &&& self.buffered.len() < self.thresholds.max_packets
        &&& self.deadline is Some <==> self.buffered.len() > 0
        &&& none_empty(self.buffered)
    }

    /// The burst that leaves when everything that waits is flushed.
    pub open spec fn burst(self, reason: FlushReason) -> BurstView {
        BurstView { packets: self.buffered, threshold: self.thresholds, reason }
    }

    /// The pool once everything that waits has left: empty, under new
    /// thresholds, with no deadline.
    pub open spec fn emptied(self) -> PoolState {
        PoolState {
            config: self.config,
            rng: self.config.thresholds_drawn(self.rng),
            buffered: Seq::empty(),
            thresholds: self.config.thresholds_from(self.rng),
            deadline: None,
        }
    }

    /// The pool with one more packet waiting. The first packet sets the
    /// deadline.
    pub open spec fn joined(self, packet: Packet, now: Instant) -> PoolState {
        PoolState {
            buffered: self.buffered.push(packet),
            deadline: if self.buffered.len() == 0 {
                Some(Instant { nanos: (now.nanos + self.thresholds.timeout.nanos) as u128 })
            } else {
                self.deadline
            },
            ..self
        }
    }

    /// The bursts that leave and the pool that stays when a packet is added.
    pub open spec fn pushed(self, packet: Packet, now: Instant) -> (Seq<BurstView>, PoolState) {
        let joined = self.joined(packet, now);
        if joined.buffered.len() < joined.thresholds.max_packets {
            (Seq::empty(), joined)
        } else {
            (seq![joined.burst(FlushReason::SizeThreshold)], joined.emptied())
        }
    }

    /// The burst that leaves, if any, and the pool that stays when the clock
    /// is checked.
    pub open spec fn ticked(self, now: Instant) -> (Seq<BurstView>, PoolState) {
        if self.deadline is Some && now.nanos >= self.deadline->Some_0.nanos {
            (seq![self.burst(FlushReason::Timeout)], self.emptied())
        } else {
            (Seq::empty(), self)
        }
    }

    /// The burst that leaves, if any, and the pool that stays when the pool is
    /// flushed.
    pub open spec fn flushed(self) -> (Seq<BurstView>, PoolState) {
        if self.buffered.len() > 0 {
            (seq![self.burst(FlushReason::Manual)], self.emptied())
        } else {
            (Seq::empty(), self)
        }
    }

    /// The bursts that leave and the pool that stays after a run of events.
    pub open spec fn run(self, events: Seq<PoolEvent>) -> (Seq<BurstView>, PoolState)
        decreases events.len(),
    {
        if events.len() == 0 {
            (Seq::empty(), self)
        } else {
            let (bursts, pool) = self.run(events.drop_last());
            let (more, after) = match events.last() {
                PoolEvent::Push(packet, now) => pool.pushed(packet, now),
                PoolEvent::Tick(now) => pool.ticked(now),
                PoolEvent::Flush => pool.flushed(),
            };
            (bursts + more, after)
        }
    }
}

/// Something that happens to a pool.
pub enum PoolEvent {
    Push(Packet, Instant),
    Tick(Instant),
    Flush,
}

/// The packets that a run of events adds, in order.
pub open spec fn packets_pushed(events: Seq<PoolEvent>) -> Seq<Packet>
    decreases events.len(),
{
    if events.len() == 0 {
        Seq::empty()
    } else {
        let before = packets_pushed(events.drop_last());
        match events.last() {
            PoolEvent::Push(packet, _) => before.push(packet),
            _ => before,
        }
    }
}

/// The packets of a sequence of bursts, one burst after the other.
pub open spec fn packets_of(bursts: Seq<BurstView>) -> Seq<Packet>
    decreases bursts.len(),
{
    if bursts.len() == 0 {
        Seq::empty()
    } else {
        packets_of(bursts.drop_last()) + bursts.last().packets
    }
}

proof fn lemma_packets_of_one_more(bursts: Seq<BurstView>, burst: BurstView)
    ensures
        packets_of(bursts + seq![burst]) == packets_of(bursts) + burst.packets,
{
    let all = bursts + seq![burst];
    assert(all.drop_last() =~= bursts);
    assert(all.last() == burst);
}

/// No packet is lost, duplicated or reordered: whatever is done to a pool, the
/// packets of the bursts that left, followed by those that still wait, are the
/// packets that waited at first, followed by those that were added.
pub proof fn law_bursts_keep_every_packet_in_order(pool: PoolState, events: Seq<PoolEvent>)
    ensures
        ({
            let (bursts, after) = pool.run(events);
            packets_of(bursts) + after.buffered == pool.buffered + packets_pushed(events)
        }),
    decreases events.len(),
{
    if events.len() == 0 {
        assert(packets_of(Seq::<BurstView>::empty()) + pool.buffered =~= pool.buffered
            + Seq::<Packet>::empty());
    } else {
        law_bursts_keep_every_packet_in_order(pool, events.drop_last());
        let (bursts, mid) = pool.run(events.drop_last());
        let added = packets_pushed(events.drop_last());
        assert(bursts + Seq::<BurstView>::empty() =~= bursts);
        match events.last() {
            PoolEvent::Push(packet, now) => {
                let joined = mid.joined(packet, now);
                lemma_packets_of_one_more(bursts, joined.burst(FlushReason::SizeThreshold));
                assert(packets_of(bursts) + mid.buffered.push(packet) =~= (pool.buffered
                    + added).push(packet));
                assert((pool.buffered + added).push(packet) =~= pool.buffered + added.push(packet));
                assert((packets_of(bursts) + joined.buffered) + Seq::<Packet>::empty()
                    =~= packets_of(bursts) + joined.buffered);
            },
            PoolEvent::Tick(now) => {
                lemma_packets_of_one_more(bursts, mid.burst(FlushReason::Timeout));
                assert((packets_of(bursts) + mid.buffered) + Seq::<Packet>::empty()
                    =~= packets_of(bursts) + mid.buffered);
            },
            PoolEvent::Flush => {
                lemma_packets_of_one_more(bursts, mid.burst(FlushReason::Manual));
                assert((packets_of(bursts) + mid.buffered) + Seq::<Packet>::empty()
                    =~= packets_of(bursts) + mid.buffered);
            },
        }
    }
}

/// Whether a burst is one that a pool lets go: not empty, no larger than its
/// threshold, as large as that where the threshold let it go, and weighing at
/// least a byte a packet.
pub open spec fn is_pool_burst(burst: BurstView) -> bool {
    &&& 1 <= burst.packets.len() <= burst.threshold.max_packets
    &&& payload_bytes(burst.packets, burst.packets.len()) >= burst.packets.len()
    &&& burst.reason == FlushReason::SizeThreshold ==> burst.packets.len()
        == burst.threshold.max_packets
}

/// Each way in which packets leave a pool has its reason, and no burst is empty.
/// A packet that is added lets go only bursts that are full.
pub proof fn law_bursts_have_their_reason(pool: PoolState, packet: Packet, now: Instant)
    requires
        pool.wf(),
        packet@.len() > 0,
    ensures
        forall|i: int|
            0 <= i < pool.pushed(packet, now).0.len() ==> is_pool_burst(
                #[trigger] pool.pushed(packet, now).0[i],
            ) && pool.pushed(packet, now).0[i].reason == FlushReason::SizeThreshold,
        forall|i: int|
            0 <= i < pool.ticked(now).0.len() ==> is_pool_burst(#[trigger] pool.ticked(now).0[i])
                && pool.ticked(now).0[i].reason == FlushReason::Timeout,
        forall|i: int|
            0 <= i < pool.flushed().0.len() ==> is_pool_burst(#[trigger] pool.flushed().0[i])
                && pool.flushed().0[i].reason == FlushReason::Manual,
{
    lemma_a_byte_a_packet(pool.buffered, pool.buffered.len());
    let joined = pool.joined(packet, now);
    lemma_a_byte_a_packet(joined.buffered, joined.buffered.len());
}

/// Whatever is done to a pool, fewer packets wait in it than make a burst, a
/// deadline is set exactly while packets wait, and every burst that left is not
/// empty, full where the packet threshold let it go, and weighs at least a byte a
/// packet.
pub proof fn law_pools_keep_their_rules(pool: PoolState, events: Seq<PoolEvent>)
    requires
        pool.wf(),
        none_empty(packets_pushed(events)),
    ensures
        ({
            let (bursts, after) = pool.run(events);
            &&& after.wf()
            &&& after.config == pool.config
            &&& after.buffered.len() < after.thresholds.max_packets
            &&& after.deadline is Some <==> after.buffered.len() > 0
            &&& forall|i: int| 0 <= i < bursts.len() ==> is_pool_burst(#[trigger] bursts[i])
        }),
    decreases events.len(),
{
    if events.len() > 0 {
        let added = packets_pushed(events.drop_last());
        if let PoolEvent::Push(packet, _) = events.last() {
            assert forall|i: int| 0 <= i < added.len() implies (#[trigger] added[i])@.len() > 0 by {
                assert(packets_pushed(events)[i] == added[i]);
            }
            assert(packets_pushed(events)[added.len() as int] == packet);
        }
        law_pools_keep_their_rules(pool, events.drop_last());
        let (bursts, mid) = pool.run(events.drop_last());
        let (more, after) = match events.last() {
            PoolEvent::Push(packet, now) => {
                law_bursts_have_their_reason(mid, packet, now);
                mid.pushed(packet, now)
            },
            PoolEvent::Tick(now) => {
                lemma_a_byte_a_packet(mid.buffered, mid.buffered.len());
                mid.ticked(now)
            },
            PoolEvent::Flush => {
                lemma_a_byte_a_packet(mid.buffered, mid.buffered.len());
                mid.flushed()
            },
        };
        assert forall|i: int| 0 <= i < (bursts + more).len() implies is_pool_burst(
            #[trigger] (bursts + more)[i],
        ) by {
            if i < bursts.len() {
                assert((bursts + more)[i] == bursts[i]);
            } else {
                assert((bursts + more)[i] == more[i - bursts.len()]);
            }
        }
    }
}

/// The views of a sequence of bursts.
pub open spec fn burst_views(bursts: Seq<Burst>) -> Seq<BurstView> {
    bursts.map_values(|b: Burst| b@)
}

/// The view of a burst that may be there.
pub open spec fn burst_view(burst: Option<Burst>) -> Seq<BurstView> {
    match burst {
        Some(b) => seq![b@],
        None => Seq::empty(),
    }
}

/// A pool that collects packets into bursts.
pub struct ClumpingPool {
    config: ClumpingConfig,
    rng: SeededRng,
    buffered: VecDeque<Packet>,
    thresholds: CycleThresholds,
    deadline: Option<Instant>,
}

impl View for ClumpingPool {
    type V = PoolState;

    closed spec fn view(&self) -> PoolState {
        PoolState {
            config: self.config,
            rng: self.rng@,
            buffered: self.buffered@,
            thresholds: self.thresholds,
            deadline: self.deadline,
        }
    }
}

impl ClumpingPool {
    /// The pool made from a seed: empty, under thresholds drawn from a
    /// generator seeded for this purpose alone.
    pub open spec fn started(seed_a: &EphemeralSeed, config: ClumpingConfig) -> PoolState {
        PoolState {
            config,
            rng: config.thresholds_drawn(
                RngState::fresh(blake3_keyed(seed_a.material()@, clumping_domain())),
            ),
            buffered: Seq::empty(),
            thresholds: config.thresholds_from(
                RngState::fresh(blake3_keyed(seed_a.material()@, clumping_domain())),
            ),
            deadline: None,
        }
    }

    /// A pool under the default configuration.
    pub fn new(seed_a: &EphemeralSeed) -> (r: Result<ClumpingPool, ClumpingError>)
        ensures
            seed_a.spec_role() != SeedRole::TimingAndPool ==> r == Err::<ClumpingPool, ClumpingError>(
                ClumpingError::WrongSeedRole {
                    expected: SeedRole::TimingAndPool,
                    actual: seed_a.spec_role(),
                },
            ),
            seed_a.spec_role() == SeedRole::TimingAndPool ==> r is Ok && r->Ok_0@.wf() && r->Ok_0@
                == Self::started(
                seed_a,
                ClumpingConfig {
                    min_packets_per_burst: DEFAULT_MIN_PACKETS_PER_BURST,
                    max_packets_per_burst: DEFAULT_MAX_PACKETS_PER_BURST,
                    min_timeout: Duration { nanos: (DEFAULT_MIN_TIMEOUT * NANOS_PER_MILLI) as u128 },
                    max_timeout: Duration { nanos: (DEFAULT_MAX_TIMEOUT * NANOS_PER_MILLI) as u128 },
                },
            ),
    {
        Self::with_config(seed_a, ClumpingConfig::default())
    }

    /// A pool under `config`. The seed must be the one for timing and pooling.
    pub fn with_config(seed_a: &EphemeralSeed, config: ClumpingConfig) -> (r: Result<
        ClumpingPool,
        ClumpingError,
    >)
        requires
            config.fault() is None ==> config.drawable(),
        ensures
            seed_a.spec_role() != SeedRole::TimingAndPool ==> r == Err::<ClumpingPool, ClumpingError>(
                ClumpingError::WrongSeedRole {
                    expected: SeedRole::TimingAndPool,
                    actual: seed_a.spec_role(),
                },
            ),
            seed_a.spec_role() == SeedRole::TimingAndPool ==> match config.fault() {
                None => r is Ok && r->Ok_0@.wf() && r->Ok_0@ == Self::started(seed_a, config),
                Some(text) => r is Err && r->Err_0 is InvalidConfig && r->Err_0->InvalidConfig_0@
                    == text,
            },
    {
        if seed_a.role() != SeedRole::TimingAndPool {
            return Err(
                ClumpingError::WrongSeedRole {
                    expected: SeedRole::TimingAndPool,
                    actual: seed_a.role(),
                },
            );
        }
        let config = match config.validate() {
            Ok(config) => config,
            Err(e) => {
                return Err(e);
            },
        };
        let mut rng = SeededRng::new(
            seed_a.derive_rng_seed("mixtor.clumping.v1".as_bytes()),
        );
        let thresholds = draw_thresholds(config, &mut rng);
        Ok(ClumpingPool { config, rng, buffered: VecDeque::new(), thresholds, deadline: None })
    }

    /// Adds a packet at `now`. Once the packet threshold is reached everything
    /// that waits leaves as one burst; nothing leaves before.
    pub fn push(&mut self, packet: Packet, now: Instant) -> (bursts: Vec<Burst>)
        requires
            old(self)@.wf(),
            now.nanos + old(self)@.config.max_timeout.nanos <= u128::MAX,
        ensures
            final(self)@.wf(),
            (burst_views(bursts@), final(self)@) == old(self)@.pushed(packet, now),
    {
        proof {
            use_type_invariant(&packet);
        }
        if self.buffered.len() == 0 {
            self.deadline = Some(now.after(self.thresholds.timeout));
        }
        self.buffered.push_back(packet);
        let ghost joined = old(self)@.joined(packet, now);
        assert(self@.buffered =~= joined.buffered);
        let mut bursts: Vec<Burst> = Vec::new();
        while self.buffered.len() >= self.thresholds.max_packets
            invariant
                joined.config.fault() is None,
                joined.config.drawable(),
                joined.config.in_range(joined.thresholds),
                now.nanos + joined.config.max_timeout.nanos <= u128::MAX,
                joined.buffered.len() <= joined.thresholds.max_packets,
                bursts@.len() == 0 ==> self@ == joined,
                bursts@.len() > 0 ==> {
                    &&& bursts@.len() == 1
                    &&& joined.buffered.len() == joined.thresholds.max_packets
                    &&& bursts@[0]@ == joined.burst(FlushReason::SizeThreshold)
                    &&& self@ == joined.emptied()
                    &&& self@.thresholds.max_packets > 0
                    &&& joined.config.in_range(self@.thresholds)
                },
            decreases self@.buffered.len(),
        {
            let burst = self.flush_ready(FlushReason::SizeThreshold, now);
            bursts.push(burst);
            if self.buffered.len() != 0 {
                self.deadline = Some(now.after(self.thresholds.timeout));
            }
        }
        assert(burst_views(bursts@) =~= old(self)@.pushed(packet, now).0);
        bursts
    }

    /// Flushes the pool if its deadline has come at `now`.
    pub fn tick(&mut self, now: Instant) -> (burst: Option<Burst>)
        requires
            old(self)@.wf(),
            now.nanos + old(self)@.config.max_timeout.nanos <= u128::MAX,
        ensures
            final(self)@.wf(),
            (burst_view(burst), final(self)@) == old(self)@.ticked(now),
    {
        match self.deadline {
            Some(deadline) => {
                if now.nanos >= deadline.nanos && self.buffered.len() != 0 {
                    Some(self.flush_ready(FlushReason::Timeout, now))
                } else {
                    None
                }
            },
            None => None,
        }
    }

    /// Flushes the pool if packets wait.
    pub fn flush(&mut self, now: Instant) -> (burst: Option<Burst>)
        requires
            old(self)@.wf(),
            now.nanos + old(self)@.config.max_timeout.nanos <= u128::MAX,
        ensures
            final(self)@.wf(),
            (burst_view(burst), final(self)@) == old(self)@.flushed(),
    {
        if self.buffered.len() == 0 {
            None
        } else {
            Some(self.flush_ready(FlushReason::Manual, now))
        }
    }

    /// Packets that wait.
    pub fn pending_packets(&self) -> (n: usize)
        ensures
            n == self@.buffered.len(),
    {
        self.buffered.len()
    }

    /// The thresholds of the current cycle.
    pub fn current_thresholds(&self) -> (t: CycleThresholds)
        ensures
            t == self@.thresholds,
    {
        self.thresholds
    }

    /// When the packets that wait leave at the latest.
    pub fn deadline(&self) -> (d: Option<Instant>)
        ensures
            d == self@.deadline,
    {
        self.deadline
    }

    /// Takes as many of the oldest packets as make a burst, and draws new
    /// thresholds.
    fn flush_ready(&mut self, reason: FlushReason, now: Instant) -> (burst: Burst)
        requires
            old(self)@.config.fault() is None,
            old(self)@.config.drawable(),
            now.nanos + old(self)@.config.max_timeout.nanos <= u128::MAX,
            0 < old(self)@.buffered.len() <= old(self)@.thresholds.max_packets,
        ensures
            burst@ == old(self)@.burst(reason),
            final(self)@ == old(self)@.emptied(),
            final(self)@.config.in_range(final(self)@.thresholds),
    {
        let threshold = self.thresholds;
        let packet_count: usize = if self.buffered.len() < threshold.max_packets {
            self.buffered.len()
        } else {
            threshold.max_packets
        };
        let mut packets: Vec<Packet> = Vec::new();
        let ghost before = self.buffered@;
        let mut taken: usize = 0;
        while taken < packet_count
            invariant
                taken <= packet_count <= before.len(),
                packets@ == before.take(taken as int),
                self.buffered@ == before.skip(taken as int),
                self.config == old(self).config,
                self.rng == old(self).rng,
                self.thresholds == old(self).thresholds,
            decreases packet_count - taken,
        {
            if let Some(packet) = self.buffered.pop_front() {
                packets.push(packet);
            }
            taken = taken + 1;
            assert(packets@ =~= before.take(taken as int));
            assert(self.buffered@ =~= before.skip(taken as int));
        }
        assert(packets@ =~= before);
        assert(self.buffered@ =~= Seq::empty());
        self.thresholds = draw_thresholds(self.config, &mut self.rng);
        self.deadline = if self.buffered.len() == 0 {
            None
        } else {
            Some(now.after(self.thresholds.timeout))
        };
        Burst { packets, threshold, reason }
    }
}

/// The timeout is kept: where packets wait, a check at or after the deadline lets
/// one burst go, with all of them in order, and leaves the pool empty; a check
/// before the deadline lets nothing go and changes nothing. Where none waits,
/// nothing ever goes.
pub proof fn law_timeouts_let_everything_go(pool: PoolState, now: Instant)
    requires
        pool.wf(),
    ensures
        pool.buffered.len() > 0 && now.nanos >= pool.deadline->Some_0.nanos ==> {
            &&& pool.ticked(now).0.len() == 1
            &&& pool.ticked(now).0[0].packets == pool.buffered
            &&& pool.ticked(now).0[0].reason == FlushReason::Timeout
            &&& pool.ticked(now).0[0].threshold == pool.thresholds
            &&& pool.ticked(now).1.buffered.len() == 0
            &&& pool.ticked(now).1.deadline is None
        },
        pool.buffered.len() > 0 && now.nanos < pool.deadline->Some_0.nanos ==> pool.ticked(now).0.len()
            == 0 && pool.ticked(now).1 == pool,
        pool.buffered.len() == 0 ==> pool.ticked(now).0.len() == 0 && pool.ticked(now).1 == pool,
{
}

/// A flush lets everything that waits go at once, in order, and leaves the pool
/// empty.
pub proof fn law_flushes_let_everything_go(pool: PoolState)
    requires
        pool.wf(),
    ensures
        pool.buffered.len() > 0 ==> {
            &&& pool.flushed().0.len() == 1
            &&& pool.flushed().0[0].packets == pool.buffered
            &&& pool.flushed().0[0].reason == FlushReason::Manual
            &&& pool.flushed().0[0].threshold == pool.thresholds
            &&& pool.flushed().1.buffered.len() == 0
        },
        pool.buffered.len() == 0 ==> pool.flushed().0.len() == 0 && pool.flushed().1 == pool,
{
}

/// A burst goes exactly when the threshold is reached: the packet that makes as
/// many as the threshold asks for lets them all go, itself last, and any other
/// packet waits behind the others.
pub proof fn law_pushes_let_full_bursts_go(pool: PoolState, packet: Packet, now: Instant)
    requires
        pool.wf(),
    ensures
        pool.buffered.len() + 1 == pool.thresholds.max_packets ==> {
            &&& pool.pushed(packet, now).0.len() == 1
            &&& pool.pushed(packet, now).0[0].packets == pool.buffered.push(packet)
            &&& pool.pushed(packet, now).0[0].threshold == pool.thresholds
            &&& pool.pushed(packet, now).1.buffered.len() == 0
        },
        pool.buffered.len() + 1 != pool.thresholds.max_packets ==> {
            &&& pool.pushed(packet, now).0.len() == 0
            &&& pool.pushed(packet, now).1.buffered == pool.buffered.push(packet)
            &&& pool.pushed(packet, now).1.thresholds == pool.thresholds
        },
{
}

/// When the packets of a run of events came, in order.
pub open spec fn arrivals(events: Seq<PoolEvent>) -> Seq<Instant>
    decreases events.len(),
{
    if events.len() == 0 {
        Seq::empty()
    } else {
        let before = arrivals(events.drop_last());
        match events.last() {
            PoolEvent::Push(_, now) => before.push(now),
            _ => before,
        }
    }
}

/// The oldest packet that waits sets the deadline: in a pool that was empty at
/// first, the deadline lies exactly the cycle's timeout after the oldest of the
/// packets that wait came, whatever happened in between.
pub proof fn law_the_oldest_packet_sets_the_deadline(pool: PoolState, events: Seq<PoolEvent>)
    requires
        pool.wf(),
        pool.buffered.len() == 0,
        none_empty(packets_pushed(events)),
        forall|i: int|
            0 <= i < arrivals(events).len() ==> (#[trigger] arrivals(events)[i]).nanos
                + pool.config.max_timeout.nanos <= u128::MAX,
    ensures
        ({
            let after = pool.run(events).1;
            let came = arrivals(events);
            &&& after.buffered.len() <= came.len()
            &&& after.buffered.len() > 0 ==> after.deadline->Some_0.nanos == came[came.len()
                - after.buffered.len()].nanos + after.thresholds.timeout.nanos
        }),
    decreases events.len(),
{
    if events.len() > 0 {
        let before = events.drop_last();
        let came = arrivals(before);
        let added = packets_pushed(before);
        assert forall|i: int| 0 <= i < came.len() implies (#[trigger] came[i]).nanos
            + pool.config.max_timeout.nanos <= u128::MAX by {
            assert(arrivals(events)[i] == came[i]);
        }
        assert forall|i: int| 0 <= i < added.len() implies (#[trigger] added[i])@.len() > 0 by {
            assert(packets_pushed(events)[i] == added[i]);
        }
        law_the_oldest_packet_sets_the_deadline(pool, before);
        law_pools_keep_their_rules(pool, before);
        let mid = pool.run(before).1;
        if let PoolEvent::Push(packet, now) = events.last() {
            assert(arrivals(events)[came.len() as int] == now);
            assert(mid.thresholds.timeout.nanos <= mid.config.max_timeout.nanos);
        }
    }
}

/// Every cycle draws its thresholds anew: once packets have left, the generator
/// has been asked for two more numbers, and the thresholds are those it gave, the
/// packet threshold first. Generators that give other numbers give other
/// thresholds.
pub proof fn law_every_cycle_draws_anew(pool: PoolState, other: PoolState)
    requires
        pool.wf(),
        other.wf(),
        pool.config == other.config,
    ensures
        pool.emptied().rng.seed == pool.rng.seed,
        pool.emptied().rng.log.len() == pool.rng.log.len() + 2,
        pool.emptied().rng.log.take(pool.rng.log.len() as int) == pool.rng.log,
        pool.rng.count(pool.config.min_packets_per_burst, pool.config.max_packets_per_burst)
            != other.rng.count(pool.config.min_packets_per_burst, pool.config.max_packets_per_burst)
            ==> pool.emptied().thresholds.max_packets != other.emptied().thresholds.max_packets,
        pool.config.in_range(pool.emptied().thresholds),
{
    assert(pool.emptied().rng.log.take(pool.rng.log.len() as int) =~= pool.rng.log);
}

/// What a configuration must be: bursts have a packet at least, timeouts are not
/// zero, and neither range's lower end exceeds its upper end.
pub proof fn law_pools_have_ranges(config: ClumpingConfig)
    ensures
        config.fault() is None <==> 1 <= config.min_packets_per_burst
            <= config.max_packets_per_burst && 1 <= config.min_timeout.nanos
            <= config.max_timeout.nanos,
{
}

/// Thresholds are the numbers drawn: the packets first, and then the timeout, in
/// whole microseconds.
pub proof fn law_thresholds_are_the_draws(config: ClumpingConfig, rng: RngState)
    requires
        config.max_timeout.nanos / 1000 <= u64::MAX,
        config.fault() is None,
    ensures
        ({
            let t = config.thresholds_from(rng);
            let lo = (config.min_timeout.nanos / 1000) as u64;
            let hi = (config.max_timeout.nanos / 1000) as u64;
            let second = rng.then_draw(
                Draw::count(config.min_packets_per_burst, config.max_packets_per_burst),
            );
            &&& t.max_packets == rng.count(
                config.min_packets_per_burst,
                config.max_packets_per_burst,
            )
            &&& config.min_packets_per_burst <= t.max_packets <= config.max_packets_per_burst
            &&& t.timeout.nanos == 1000 * second.range64(lo, hi)
            &&& lo * 1000 <= t.timeout.nanos <= hi * 1000
            &&& config.thresholds_drawn(rng) == second.then_draw(Draw::Range64 { lo, hi })
        }),
{
    assert(config.min_timeout.nanos / 1000 <= config.max_timeout.nanos / 1000);
}

/// A packet more adds its own bytes.
pub proof fn law_payloads_add_up(a: Seq<Packet>, b: Seq<Packet>)
    ensures
        payload_bytes(a + b, (a + b).len()) == payload_bytes(a, a.len()) + payload_bytes(
            b,
            b.len(),
        ),
        a.len() == 1 ==> payload_bytes(a, a.len()) == a[0]@.len(),
    decreases b.len(),
{
    if a.len() == 1 {
        reveal_with_fuel(payload_bytes, 2);
    }
    let all = a + b;
    if b.len() == 0 {
        assert(all =~= a);
    } else {
        let before = b.drop_last();
        law_payloads_add_up(a, before);
        lemma_payload_prefix(a + before, all, (a + before).len());
        lemma_payload_prefix(before, b, before.len());
    }
}

proof fn lemma_payload_prefix(a: Seq<Packet>, b: Seq<Packet>, n: nat)
    requires
        n <= a.len(),
        n <= b.len(),
        forall|i: int| 0 <= i < n ==> a[i] == b[i],
    ensures
        payload_bytes(a, n) == payload_bytes(b, n),
    decreases n,
{
    if n > 0 {
        lemma_payload_prefix(a, b, (n - 1) as nat);
    }
}

} // verus!
