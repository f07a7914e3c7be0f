//! The departure clock: frames leave in slots whose times do not depend on when
//! real traffic arrives. A slot carries the oldest waiting packet, or cover.
use crate::clock::{Duration, Instant};
use crate::clumping::{payloads, Packet};
use crate::frames::{fit_drawn, fit_to_cell, fitted, frame_views, FrameView, MixedFrame};
use crate::rng::{Draw, RngState, SeededRng};
use std::collections::VecDeque;
use vstd::prelude::*;
use vstd::string::*;

verus! {

/// How far the schedule may lag behind the clock before the debt is dropped,
/// in nanoseconds.
pub const MAX_CATCHUP_LAG_NANOS: u128 = 200_000_000;

/// Bytes in a cell by default.
pub const DEFAULT_CELL_BYTES: usize = 514;

/// Packets that may wait by default.
pub const DEFAULT_QUEUE_DEPTH: usize = 256;

/// Why a configuration or a packet was refused.
#[derive(Debug, PartialEq, Eq)]
pub enum TimingCorrelatorError {
    InvalidConfig(&'static str),
    QueueFull,
}

impl TimingCorrelatorError {
    /// The error in words.
    pub open spec fn text(self) -> Seq<char> {
        match self {
            TimingCorrelatorError::InvalidConfig(message) => "invalid TimingCorrelator config: "@
                + message@,
            TimingCorrelatorError::QueueFull =>
                "real packet queue is full — apply back-pressure"@,
        }
    }

    /// The error in words.
    pub fn message(&self) -> (s: String)
        ensures
            s@ == self.text(),
    {
        match self {
            TimingCorrelatorError::InvalidConfig(message) => {
                let mut s = String::from_str("invalid TimingCorrelator config: ");
                s.append(message);
                s
            },
            TimingCorrelatorError::QueueFull => String::from_str(
                "real packet queue is full — apply back-pressure",
            ),
        }
    }
}

/// Cell size, queue depth and whether the slot rate follows real arrivals.
#[derive(Clone, Copy, Debug, PartialEq, Eq, Structural)]
pub struct TimingCorrelatorConfig {
    pub cell_bytes: usize,
    pub max_queue_depth: usize,
    pub adapt_rate: bool,
}

/// What holds of the real-valued settings of a departure clock.
#[derive(Clone, Copy, Debug, PartialEq, Eq, Structural)]
pub struct ClockChecks {
    /// The first mean gap between slots is positive.
    pub initial_iat_positive: bool,
    /// The weight of a new observation is above zero and at most one.
    pub ema_alpha_in_range: bool,
    /// The shortest gap is positive.
    pub min_iat_positive: bool,
    /// The shortest gap is shorter than the longest.
    pub min_iat_below_max: bool,
    /// The least share of cover is at least zero and below one.
    pub min_dummy_fraction_in_range: bool,
}

impl Default for TimingCorrelatorConfig {
    fn default() -> (c: TimingCorrelatorConfig)
        ensures
            c == (TimingCorrelatorConfig {
                cell_bytes: DEFAULT_CELL_BYTES,
                max_queue_depth: DEFAULT_QUEUE_DEPTH,
                adapt_rate: true,
            }),
    {
        TimingCorrelatorConfig {
            cell_bytes: DEFAULT_CELL_BYTES,
            max_queue_depth: DEFAULT_QUEUE_DEPTH,
            adapt_rate: true,
        }
    }
}

impl TimingCorrelatorConfig {
    /// The first rule that the settings break, if any.
    pub open spec fn fault(self, checks: ClockChecks) -> Option<Seq<char>> {
        if self.cell_bytes == 0 {
            Some("cell_bytes must be non-zero"@)
        } else if !checks.initial_iat_positive {
            Some("initial_iat_ms must be positive"@)
        } else if !checks.ema_alpha_in_range {
            Some("ema_alpha must be in (0, 1]"@)
        } else if !checks.min_iat_positive {
            Some("min_iat_ms must be positive"@)
        } else if !checks.min_iat_below_max {
            Some("min_iat_ms must be less than max_iat_ms"@)
        } else if self.max_queue_depth == 0 {
            Some("max_queue_depth must be non-zero"@)
        } else if !checks.min_dummy_fraction_in_range {
            Some("min_dummy_fraction must be in [0.0, 1.0)"@)
        } else {
            None
        }
    }

    /// Hands the configuration back if the settings break no rule, and else
    /// reports the first rule they break.
    pub fn validate(self, checks: ClockChecks) -> (r: Result<
        TimingCorrelatorConfig,
        TimingCorrelatorError,
    >)
        ensures
            match self.fault(checks) {
                None => r == Ok::<TimingCorrelatorConfig, TimingCorrelatorError>(self),
                Some(text) => r is Err && r->Err_0 is InvalidConfig && r->Err_0->InvalidConfig_0@
                    == text,
            },
    {
        if self.cell_bytes == 0 {
            return Err(TimingCorrelatorError::InvalidConfig("cell_bytes must be non-zero"));
        }
        if !checks.initial_iat_positive {
            return Err(TimingCorrelatorError::InvalidConfig("initial_iat_ms must be positive"));
        }
        if !checks.ema_alpha_in_range {
            return Err(TimingCorrelatorError::InvalidConfig("ema_alpha must be in (0, 1]"));
        }
        if !checks.min_iat_positive {
            return Err(TimingCorrelatorError::InvalidConfig("min_iat_ms must be positive"));
        }
        if !checks.min_iat_below_max {
            return Err(
                TimingCorrelatorError::InvalidConfig("min_iat_ms must be less than max_iat_ms"),
            );
        }
        if self.max_queue_depth == 0 {
            return Err(TimingCorrelatorError::InvalidConfig("max_queue_depth must be non-zero"));
        }
        if !checks.min_dummy_fraction_in_range {
            return Err(
                TimingCorrelatorError::InvalidConfig("min_dummy_fraction must be in [0.0, 1.0)"),
            );
        }
        Ok(self)
    }
}

/// The slot after one at `last`, a `step` later; if that lies more than the
/// permitted lag in the past at `now`, a `step` after `now` instead.
pub open spec fn next_slot(last: Instant, step: Duration, now: Instant) -> Instant {
    if last.nanos + step.nanos + MAX_CATCHUP_LAG_NANOS < now.nanos {
        Instant { nanos: (now.nanos + step.nanos) as u128 }
    } else {
        Instant { nanos: (last.nanos + step.nanos) as u128 }
    }
}

/// Whether the clock can be advanced by `step` without passing the largest
/// instant.
pub open spec fn clock_fits(last: Instant, step: Duration, now: Instant) -> bool {
    &&& last.nanos + step.nanos + MAX_CATCHUP_LAG_NANOS <= u128::MAX
    &&& now.nanos + step.nanos <= u128::MAX
}

/// What a correlator holds.
pub struct CorrelatorState {
    pub config: TimingCorrelatorConfig,
    pub rng: RngState,
    pub queue: Seq<Seq<u8>>,
    pub next_departure: Instant,
    pub last_real_arrival: Option<Instant>,
    pub real_emitted: nat,
    pub dummy_emitted: nat,
}

impl CorrelatorState {
    /// Cells are not empty and no more packets wait than may.
    pub open spec fn wf(self) -> bool {
        &&& self.config.cell_bytes > 0
        &&& self.config.max_queue_depth > 0
        &&& self.queue.len() <= self.config.max_queue_depth
    }

    /// The clock moved to its next slot.
    pub open spec fn advanced(self, step: Duration, now: Instant) -> CorrelatorState {
        CorrelatorState { next_departure: next_slot(self.next_departure, step, now), ..self }
    }

    /// The queue once a payload has joined at `now`.
    pub open spec fn joined(self, payload: Seq<u8>, now: Instant) -> CorrelatorState {
        CorrelatorState {
            queue: self.queue.push(payload),
            last_real_arrival: if self.config.adapt_rate {
                Some(now)
            } else {
                self.last_real_arrival
            },
            ..self
        }
    }

    /// Whether a slot that is now due carries the oldest packet, and not cover.
    pub open spec fn sends_real(self, force_dummy: bool) -> bool {
        !force_dummy && self.queue.len() > 0
    }

    /// The frame that leaves in a slot that is due.
    pub open spec fn slot_frame(self, force_dummy: bool) -> FrameView {
        let cell = self.config.cell_bytes as nat;
        if self.sends_real(force_dummy) {
            FrameView::Real(fitted(self.queue[0], cell, self.rng))
        } else {
            FrameView::Dummy(self.rng.bytes(cell))
        }
    }

    /// The correlator after a slot that was due.
    pub open spec fn slot_done(self, step: Duration, force_dummy: bool, now: Instant) -> CorrelatorState {
        let cell = self.config.cell_bytes as nat;
        let moved = self.advanced(step, now);
        if self.sends_real(force_dummy) {
            CorrelatorState {
                queue: self.queue.drop_first(),
                rng: fit_drawn(self.queue[0].len(), cell, self.rng),
                real_emitted: self.real_emitted + 1,
                ..moved
            }
        } else {
            CorrelatorState {
                rng: self.rng.then_draw(Draw::Bytes { len: cell }),
                dummy_emitted: self.dummy_emitted + 1,
                ..moved
            }
        }
    }

    /// Whether the next slot is due at `now`.
    pub open spec fn due(self, now: Instant) -> bool {
        now.nanos >= self.next_departure.nanos
    }

    /// The frame that leaves at `now`, if a slot is due, and the correlator
    /// after it. A slot that is not due changes nothing.
    pub open spec fn ticked(self, step: Duration, force_dummy: bool, now: Instant) -> (
        Option<FrameView>,
        CorrelatorState,
    ) {
        if self.due(now) {
            (Some(self.slot_frame(force_dummy)), self.slot_done(step, force_dummy, now))
        } else {
            (None, self)
        }
    }
}

/// When a slot is due does not depend on the packets that wait: two
/// correlators whose clocks agree have the same next slot, whatever happens to
/// their queues.
pub proof fn law_departures_ignore_the_queue(
    a: CorrelatorState,
    b: CorrelatorState,
    step: Duration,
    force_a: bool,
    force_b: bool,
    now: Instant,
)
    requires
        a.next_departure == b.next_departure,
    ensures
        a.due(now) == b.due(now),
        a.ticked(step, force_a, now).1.next_departure == b.ticked(
            step,
            force_b,
            now,
        ).1.next_departure,
        a.ticked(step, force_a, now).0 is Some == b.ticked(step, force_b, now).0 is Some,
{
}

/// A clock that has fallen behind never owes more than the permitted lag: the
/// next slot lies at most that far in the past.
pub proof fn law_catch_up_is_bounded(last: Instant, step: Duration, now: Instant)
    requires
        clock_fits(last, step, now),
    ensures
        next_slot(last, step, now).nanos + MAX_CATCHUP_LAG_NANOS >= now.nanos,
{
}

/// Something that happens to a correlator.
pub enum CorrelatorEvent {
    Inject(Seq<u8>, Instant),
    Tick(Duration, bool, Instant),
}

impl CorrelatorState {
    /// The correlator after one event.
    pub open spec fn after(self, event: CorrelatorEvent) -> CorrelatorState {
        match event {
            CorrelatorEvent::Inject(payload, now) => if self.queue.len()
                < self.config.max_queue_depth {
                self.joined(payload, now)
            } else {
                self
            },
            CorrelatorEvent::Tick(step, force_dummy, now) => self.ticked(step, force_dummy, now).1,
        }
    }

    /// The payload that an event adds to the queue, if any.
    pub open spec fn accepted(self, event: CorrelatorEvent) -> Seq<Seq<u8>> {
        match event {
            CorrelatorEvent::Inject(payload, _) => if self.queue.len()
                < self.config.max_queue_depth {
                seq![payload]
            } else {
                Seq::empty()
            },
            _ => Seq::empty(),
        }
    }

    /// The payload that an event sends, if any.
    pub open spec fn sent(self, event: CorrelatorEvent) -> Seq<Seq<u8>> {
        match event {
            CorrelatorEvent::Tick(_, force_dummy, now) => if self.due(now) && self.sends_real(
                force_dummy,
            ) {
                seq![self.queue[0]]
            } else {
                Seq::empty()
            },
            _ => Seq::empty(),
        }
    }

    /// The correlator after a run of events, the payloads added to its queue
    /// and the payloads sent.
    pub open spec fn run(self, events: Seq<CorrelatorEvent>) -> (
        CorrelatorState,
        Seq<Seq<u8>>,
        Seq<Seq<u8>>,
    )
        decreases events.len(),
    {
        if events.len() == 0 {
            (self, Seq::empty(), Seq::empty())
        } else {
            let (state, accepted, sent) = self.run(events.drop_last());
            (
                state.after(events.last()),
                accepted + state.accepted(events.last()),
                sent + state.sent(events.last()),
            )
        }
    }
}

/// Packets leave in the order in which they came, none lost and none twice:
/// those sent, followed by those that still wait, are those that waited at
/// first, followed by those added.
pub proof fn law_packets_leave_in_order(state: CorrelatorState, events: Seq<CorrelatorEvent>)
    ensures
        ({
            let (end, accepted, sent) = state.run(events);
            sent + end.queue == state.queue + accepted
        }),
    decreases events.len(),
{
    if events.len() == 0 {
        assert(Seq::<Seq<u8>>::empty() + state.queue =~= state.queue + Seq::<Seq<u8>>::empty());
    } else {
        law_packets_leave_in_order(state, events.drop_last());
        let (mid, accepted, sent) = state.run(events.drop_last());
        let event = events.last();
        assert(mid.sent(event) + mid.after(event).queue =~= mid.queue + mid.accepted(event));
        assert((sent + mid.sent(event)) + mid.after(event).queue =~= sent + (mid.queue
            + mid.accepted(event)));
        assert((sent + mid.queue) + mid.accepted(event) =~= sent + (mid.queue + mid.accepted(
            event,
        )));
        assert((state.queue + accepted) + mid.accepted(event) =~= state.queue + (accepted
            + mid.accepted(event)));
    }
}

/// The slots that events let pass, if they are due: the step to the slot after,
/// and the instant.
pub open spec fn slots_in(events: Seq<CorrelatorEvent>) -> Seq<(Duration, Instant)>
    decreases events.len(),
{
    if events.len() == 0 {
        Seq::empty()
    } else {
        let before = slots_in(events.drop_last());
        match events.last() {
            CorrelatorEvent::Tick(step, _, now) => before.push((step, now)),
            _ => before,
        }
    }
}

/// When frames leave on a clock whose next slot is at `next`, and when its next
/// slot then is.
pub open spec fn departures(next: Instant, slots: Seq<(Duration, Instant)>) -> (
    Seq<Instant>,
    Instant,
)
    decreases slots.len(),
{
    if slots.len() == 0 {
        (Seq::empty(), next)
    } else {
        let (left, at) = departures(next, slots.drop_last());
        let (step, now) = slots.last();
        if now.nanos >= at.nanos {
            (left.push(now), next_slot(at, step, now))
        } else {
            (left, at)
        }
    }
}

impl CorrelatorState {
    /// When frames leave in a run of events.
    pub open spec fn left_at(self, events: Seq<CorrelatorEvent>) -> Seq<Instant>
        decreases events.len(),
    {
        if events.len() == 0 {
            Seq::empty()
        } else {
            let before = self.left_at(events.drop_last());
            match events.last() {
                CorrelatorEvent::Tick(step, force_dummy, now) => if self.run(
                    events.drop_last(),
                ).0.ticked(step, force_dummy, now).0 is Some {
                    before.push(now)
                } else {
                    before
                },
                _ => before,
            }
        }
    }
}

/// When frames leave follows from the clock and its slots alone.
proof fn lemma_departures(state: CorrelatorState, events: Seq<CorrelatorEvent>)
    ensures
        state.left_at(events) == departures(state.next_departure, slots_in(events)).0,
        state.run(events).0.next_departure == departures(
            state.next_departure,
            slots_in(events),
        ).1,
    decreases events.len(),
{
    if events.len() > 0 {
        lemma_departures(state, events.drop_last());
        if let CorrelatorEvent::Tick(step, _, now) = events.last() {
            assert(slots_in(events).drop_last() =~= slots_in(events.drop_last()));
            assert(slots_in(events).last() == (step, now));
        }
    }
}

/// When frames leave tells nothing of real traffic: two correlators whose clocks
/// agree, and for which the same slots are sampled, send their frames at the
/// same instants, whatever packets join their queues and whichever slots are
/// forced to be cover.
pub proof fn law_real_traffic_moves_no_frame(
    a: CorrelatorState,
    b: CorrelatorState,
    events_a: Seq<CorrelatorEvent>,
    events_b: Seq<CorrelatorEvent>,
)
    requires
        a.next_departure == b.next_departure,
        slots_in(events_a) == slots_in(events_b),
    ensures
        a.left_at(events_a) == b.left_at(events_b),
        a.run(events_a).0.next_departure == b.run(events_b).0.next_departure,
{
    lemma_departures(a, events_a);
    lemma_departures(b, events_b);
}

/// Packets that wait and the clock that lets them go.
pub struct TimingCorrelator {
    config: TimingCorrelatorConfig,
    rng: SeededRng,
    real_queue: VecDeque<Packet>,
    next_departure: Instant,
    last_real_arrival: Option<Instant>,
    real_emitted: u64,
    dummy_emitted: u64,
}

impl View for TimingCorrelator {
    type V = CorrelatorState;

    closed spec fn view(&self) -> CorrelatorState {
        CorrelatorState {
            config: self.config,
            rng: self.rng@,
            queue: payloads(self.real_queue@),
            next_departure: self.next_departure,
            last_real_arrival: self.last_real_arrival,
            real_emitted: self.real_emitted as nat,
            dummy_emitted: self.dummy_emitted as nat,
        }
    }
}

impl TimingCorrelator {
    /// A correlator with an empty queue whose clock stands at `now`. The first
    /// call of [`TimingCorrelator::advance_clock`] sets the first slot.
    pub fn new(
        config: TimingCorrelatorConfig,
        checks: ClockChecks,
        rng: SeededRng,
        now: Instant,
    ) -> (r: Result<TimingCorrelator, TimingCorrelatorError>)
        ensures
            match config.fault(checks) {
                None => r is Ok && r->Ok_0@.wf() && r->Ok_0@ == (CorrelatorState {
                    config,
                    rng: rng@,
                    queue: Seq::empty(),
                    next_departure: now,
                    last_real_arrival: None,
                    real_emitted: 0,
                    dummy_emitted: 0,
                }),
                Some(text) => r is Err && r->Err_0 is InvalidConfig && r->Err_0->InvalidConfig_0@
                    == text,
            },
    {
        let config = match config.validate(checks) {
            Ok(config) => config,
            Err(e) => {
                return Err(e);
            },
        };
        let real_queue: VecDeque<Packet> = VecDeque::new();
        assert(payloads(real_queue@) =~= Seq::empty());
        Ok(
            TimingCorrelator {
                config,
                rng,
                real_queue,
                next_departure: now,
                last_real_arrival: None,
                real_emitted: 0,
                dummy_emitted: 0,
            },
        )
    }

    /// Adds a packet to the queue at `now`, unless the queue is full.
    pub fn inject_real(&mut self, packet: Packet, now: Instant) -> (r: Result<
        (),
        TimingCorrelatorError,
    >)
        requires
            old(self)@.wf(),
        ensures
            final(self)@.wf(),
            if old(self)@.queue.len() < old(self)@.config.max_queue_depth {
                r is Ok && final(self)@ == old(self)@.joined(packet@, now)
            } else {
                r == Err::<(), TimingCorrelatorError>(TimingCorrelatorError::QueueFull)
                    && final(self)@ == old(self)@
            },
    {
        if self.real_queue.len() >= self.config.max_queue_depth {
            return Err(TimingCorrelatorError::QueueFull);
        }
        if self.config.adapt_rate {
            self.last_real_arrival = Some(now);
        }
        self.real_queue.push_back(packet);
        assert(self@.queue =~= old(self)@.queue.push(packet@));
        Ok(())
    }

    /// Adds packets at `now`, in order, until the queue is full.
    #[verifier::loop_isolation(false)]
    pub fn inject_burst(&mut self, packets: Vec<Packet>, now: Instant) -> (r: Result<
        usize,
        TimingCorrelatorError,
    >)
        requires
            old(self)@.wf(),
        ensures
            final(self)@.wf(),
            ({
                let space = old(self)@.config.max_queue_depth - old(self)@.queue.len();
                let fits = if packets@.len() <= space {
                    packets@.len() as int
                } else {
                    space
                };
                &&& final(self)@ == (CorrelatorState {
                    queue: old(self)@.queue + payloads(packets@).take(fits),
                    last_real_arrival: if old(self)@.config.adapt_rate && fits > 0 {
                        Some(now)
                    } else {
                        old(self)@.last_real_arrival
                    },
                    ..old(self)@
                })
                &&& match r {
                    Ok(n) => n == packets@.len() && packets@.len() <= space,
                    Err(e) => e == TimingCorrelatorError::QueueFull && packets@.len() > space,
                }
            }),
    {
        let ghost before = self@;
        let ghost space = before.config.max_queue_depth - before.queue.len();
        let ghost given = payloads(packets@);
        assert(self@.queue =~= before.queue + given.take(0));
        let mut count: usize = 0;
        for packet in it: packets
            invariant
                payloads(it.seq()) == given,
                count == it.index(),
                before.wf(),
                self@.wf(),
                space == before.config.max_queue_depth - before.queue.len(),
                count <= space,
                self@ == (CorrelatorState {
                    queue: before.queue + given.take(count as int),
                    last_real_arrival: if before.config.adapt_rate && count > 0 {
                        Some(now)
                    } else {
                        before.last_real_arrival
                    },
                    ..before
                }),
        {
            if let Err(e) = self.inject_real(packet, now) {
                assert(count == space);
                return Err(e);
            }
            count = count + 1;
            assert(self@.queue =~= before.queue + given.take(count as int));
        }
        assert(given.take(count as int) =~= given);
        Ok(count)
    }

    /// What leaves at `now`: nothing before the next slot is due; then the
    /// oldest packet that waits, or cover where none waits or `force_dummy`
    /// holds. The slot after it comes a `step` later.
    pub fn tick(&mut self, step: Duration, force_dummy: bool, now: Instant) -> (frame: Option<
        MixedFrame,
    >)
        requires
            old(self)@.wf(),
            clock_fits(old(self)@.next_departure, step, now),
            old(self)@.real_emitted < u64::MAX,
            old(self)@.dummy_emitted < u64::MAX,
        ensures
            final(self)@.wf(),
            final(self)@ == old(self)@.ticked(step, force_dummy, now).1,
            match frame {
                Some(f) => old(self)@.ticked(step, force_dummy, now).0 == Some(f@)
                    && f@.bytes().len() == old(self)@.config.cell_bytes,
                None => old(self)@.ticked(step, force_dummy, now).0 is None,
            },
    {
        if now.nanos < self.next_departure.nanos {
            return None;
        }
        self.advance_clock(step, now);
        if !force_dummy {
            if let Some(waiting) = self.real_queue.pop_front() {
                assert(self@.queue =~= old(self)@.queue.drop_first());
                assert(waiting@ == old(self)@.queue[0]);
                let frame = self.make_real_frame(waiting);
                self.real_emitted = self.real_emitted + 1;
                return Some(frame);
            }
        }
        let frame = self.make_dummy_frame();
        self.dummy_emitted = self.dummy_emitted + 1;
        Some(frame)
    }

    /// When the next slot is due.
    pub fn next_departure(&self) -> (t: Instant)
        ensures
            t == self@.next_departure,
    {
        self.next_departure
    }

    /// Whether the next slot is due at `now`.
    pub fn slot_ready(&self, now: Instant) -> (b: bool)
        ensures
            b == self@.due(now),
    {
        now.nanos >= self.next_departure.nanos
    }

    /// Packets that wait.
    pub fn queue_depth(&self) -> (n: usize)
        ensures
            n == self@.queue.len(),
    {
        self.real_queue.len()
    }

    /// Whether another packet may join.
    pub fn has_queue_space(&self) -> (b: bool)
        ensures
            b == (self@.queue.len() < self@.config.max_queue_depth),
    {
        self.real_queue.len() < self.config.max_queue_depth
    }

    /// Real frames and cover frames sent so far.
    pub fn emission_counts(&self) -> (c: (u64, u64))
        ensures
            c.0 == self@.real_emitted,
            c.1 == self@.dummy_emitted,
    {
        (self.real_emitted, self.dummy_emitted)
    }

    /// Time since the last packet arrived, where the slot rate follows
    /// arrivals and one has arrived.
    pub fn arrival_gap(&self, now: Instant) -> (gap: Option<Duration>)
        ensures
            match self@.last_real_arrival {
                Some(last) if self@.config.adapt_rate => gap is Some && gap->Some_0.nanos
                    == if now.nanos >= last.nanos {
                    now.nanos - last.nanos
                } else {
                    0
                },
                _ => gap is None,
            },
    {
        if !self.config.adapt_rate {
            return None;
        }
        match self.last_real_arrival {
            Some(last) => Some(now.since(last)),
            None => None,
        }
    }

    /// Moves the clock to its next slot.
    pub fn advance_clock(&mut self, step: Duration, now: Instant)
        requires
            clock_fits(old(self)@.next_departure, step, now),
        ensures
            final(self)@ == old(self)@.advanced(step, now),
    {
        let candidate = self.next_departure.after(step);
        self.next_departure = if candidate.nanos + MAX_CATCHUP_LAG_NANOS < now.nanos {
            now.after(step)
        } else {
            candidate
        };
    }

    /// Starts the clock anew: the next slot comes a `step` after `now`,
    /// whatever slots were due.
    pub fn restart_clock(&mut self, step: Duration, now: Instant)
        requires
            now.nanos + step.nanos <= u128::MAX,
        ensures
            final(self)@ == (CorrelatorState {
                next_departure: Instant { nanos: (now.nanos + step.nanos) as u128 },
                ..old(self)@
            }),
    {
        self.next_departure = now.after(step);
    }

    /// The generator that slot times are sampled with.
    pub fn rng(&mut self) -> (r: &mut SeededRng)
        ensures
            r@ == old(self)@.rng,
            final(self)@ == (CorrelatorState { rng: final(r)@, ..old(self)@ }),
    {
        &mut self.rng
    }

    fn make_real_frame(&mut self, packet: Packet) -> (f: MixedFrame)
        requires
            old(self)@.config.cell_bytes > 0,
        ensures
            f@ == FrameView::Real(
                fitted(packet@, old(self)@.config.cell_bytes as nat, old(self)@.rng),
            ),
            f@.bytes().len() == old(self)@.config.cell_bytes,
            final(self)@ == (CorrelatorState {
                rng: fit_drawn(
                    packet@.len(),
                    old(self)@.config.cell_bytes as nat,
                    old(self)@.rng,
                ),
                ..old(self)@
            }),
    {
        let padded = fit_to_cell(packet.into_bytes(), self.config.cell_bytes, &mut self.rng);
        match Packet::new(padded) {
            Ok(p) => MixedFrame::Real(p),
            Err(_) => {
                assert(false);
                MixedFrame::Dummy(Vec::new())
            },
        }
    }

    fn make_dummy_frame(&mut self) -> (f: MixedFrame)
        ensures
            f@ == FrameView::Dummy(old(self)@.rng.bytes(old(self)@.config.cell_bytes as nat)),
            f@.bytes().len() == old(self)@.config.cell_bytes,
            final(self)@ == (CorrelatorState {
                rng: old(self)@.rng.then_draw(
                    Draw::Bytes { len: old(self)@.config.cell_bytes as nat },
                ),
                ..old(self)@
            }),
    {
        MixedFrame::Dummy(self.rng.bytes(self.config.cell_bytes))
    }
}

impl CorrelatorState {
    /// The frames that leave at `now` and the correlator after them, if slots
    /// pass with the first `n` of these samples.
    pub open spec fn drained(self, samples: Seq<(Duration, bool)>, n: nat, now: Instant) -> (
        Seq<FrameView>,
        CorrelatorState,
    )
        decreases n,
    {
        if n == 0 {
            (Seq::empty(), self)
        } else {
            let (frames, state) = self.drained(samples, (n - 1) as nat, now);
            let (frame, after) = state.ticked(samples[n - 1].0, samples[n - 1].1, now);
            match frame {
                Some(f) => (frames.push(f), after),
                None => (frames, state),
            }
        }
    }
}

/// Lets all slots pass that are due at `now`, as far as there are samples for
/// them: a step and whether cover is forced.
pub fn drain_ready(tc: &mut TimingCorrelator, samples: &[(Duration, bool)], now: Instant) -> (out:
    Vec<MixedFrame>)
    requires
        old(tc)@.wf(),
        old(tc)@.real_emitted + samples@.len() <= u64::MAX,
        old(tc)@.dummy_emitted + samples@.len() <= u64::MAX,
        now.nanos + MAX_CATCHUP_LAG_NANOS <= u128::MAX,
        forall|i: int|
            0 <= i < samples@.len() ==> (#[trigger] samples@[i]).0.nanos + now.nanos
                + MAX_CATCHUP_LAG_NANOS <= u128::MAX,
    ensures
        final(tc)@.wf(),
        (frame_views(out@), final(tc)@) == old(tc)@.drained(samples@, samples@.len(), now),
        forall|i: int|
            0 <= i < out@.len() ==> (#[trigger] frame_views(out@)[i]).bytes().len()
                == old(tc)@.config.cell_bytes,
{
    let ghost start = tc@;
    let mut out: Vec<MixedFrame> = Vec::new();
    assert(frame_views(out@) =~= Seq::empty());
    let mut n: usize = 0;
    while n < samples.len()
        invariant
            n <= samples@.len(),
            start == old(tc)@,
            tc@.wf(),
            tc@.config == start.config,
            tc@.real_emitted <= start.real_emitted + n,
            tc@.dummy_emitted <= start.dummy_emitted + n,
            start.real_emitted + samples@.len() <= u64::MAX,
            start.dummy_emitted + samples@.len() <= u64::MAX,
            forall|i: int|
                0 <= i < samples@.len() ==> (#[trigger] samples@[i]).0.nanos + now.nanos
                    + MAX_CATCHUP_LAG_NANOS <= u128::MAX,
            (frame_views(out@), tc@) == start.drained(samples@, n as nat, now),
            forall|i: int|
                0 <= i < out@.len() ==> (#[trigger] frame_views(out@)[i]).bytes().len()
                    == start.config.cell_bytes,
        decreases samples@.len() - n,
    {
        let (step, force_dummy) = samples[n];
        assert(samples@[n as int].0.nanos + now.nanos + MAX_CATCHUP_LAG_NANOS <= u128::MAX);
        let ghost before = out@;
        if tc.slot_ready(now) {
            if let Some(frame) = tc.tick(step, force_dummy, now) {
                let ghost view = frame@;
                out.push(frame);
                assert(frame_views(out@) =~= frame_views(before).push(view));
            }
        }
        n = n + 1;
    }
    out
}

/// Waiting packets take the slots: a slot that is due carries the oldest packet
/// that waits, brought to cell size, unless it is forced to be cover; where none
/// waits it is cover. Either way exactly one frame of cell size leaves and is
/// counted. A slot that is not due sends nothing and changes nothing.
pub proof fn law_waiting_packets_take_the_slot(
    state: CorrelatorState,
    step: Duration,
    force_dummy: bool,
    now: Instant,
)
    requires
        state.wf(),
    ensures
        now.nanos < state.next_departure.nanos ==> state.ticked(step, force_dummy, now) == (
            None::<FrameView>,
            state,
        ),
        now.nanos >= state.next_departure.nanos ==> {
            let (frame, after) = state.ticked(step, force_dummy, now);
            &&& frame is Some
            &&& frame->Some_0.bytes().len() == state.config.cell_bytes
            &&& frame->Some_0 is Real <==> !force_dummy && state.queue.len() > 0
            &&& frame->Some_0 is Real && state.queue[0].len() <= state.config.cell_bytes
                ==> frame->Some_0.bytes().take(state.queue[0].len() as int) == state.queue[0]
            &&& frame->Some_0 is Real && state.queue[0].len() > state.config.cell_bytes
                ==> frame->Some_0.bytes() == state.queue[0].take(state.config.cell_bytes as int)
            &&& frame->Some_0 is Real ==> after.queue == state.queue.drop_first()
                && after.real_emitted == state.real_emitted + 1 && after.dummy_emitted
                == state.dummy_emitted
            &&& frame->Some_0 is Dummy ==> after.queue == state.queue && after.dummy_emitted
                == state.dummy_emitted + 1 && after.real_emitted == state.real_emitted
        },
{
    if now.nanos >= state.next_departure.nanos && !force_dummy && state.queue.len() > 0 {
        let cell = state.config.cell_bytes as nat;
        if state.queue[0].len() <= cell {
            assert(fitted(state.queue[0], cell, state.rng).take(state.queue[0].len() as int)
                =~= state.queue[0]);
        }
    }
}

/// Slots keep their distance: the next slot comes a step after the one that
/// passed, as long as that is no more than a fifth of a second ago, and else a
/// step after now.
pub proof fn law_slots_keep_their_distance(last: Instant, step: Duration, now: Instant)
    requires
        clock_fits(last, step, now),
    ensures
        last.nanos + step.nanos + 200_000_000 >= now.nanos ==> next_slot(last, step, now).nanos
            == last.nanos + step.nanos,
        last.nanos + step.nanos + 200_000_000 < now.nanos ==> next_slot(last, step, now).nanos
            == now.nanos + step.nanos,
{
}

/// A packet that is handed over waits behind all others if fewer wait than may,
/// and changes nothing else than, where the rate follows arrivals, when the last
/// one came. Where as many wait as may it is refused, and nothing changes.
pub proof fn law_packets_wait_in_line(state: CorrelatorState, payload: Seq<u8>, now: Instant)
    ensures
        state.queue.len() < state.config.max_queue_depth ==> {
            let after = state.after(CorrelatorEvent::Inject(payload, now));
            &&& after.queue.len() == state.queue.len() + 1
            &&& after.queue.last() == payload
            &&& after.queue.drop_last() == state.queue
            &&& after.next_departure == state.next_departure
            &&& after.last_real_arrival == if state.config.adapt_rate {
                Some(now)
            } else {
                state.last_real_arrival
            }
        },
        state.queue.len() >= state.config.max_queue_depth ==> state.after(
            CorrelatorEvent::Inject(payload, now),
        ) == state,
{
    assert(state.queue.push(payload).drop_last() =~= state.queue);
}

/// What a clock's settings must be: cells and the queue have room, and every check
/// of the real-valued settings holds.
pub proof fn law_clocks_have_room(config: TimingCorrelatorConfig, checks: ClockChecks)
    ensures
        config.fault(checks) is None <==> config.cell_bytes >= 1 && config.max_queue_depth >= 1
            && checks.initial_iat_positive && checks.ema_alpha_in_range && checks.min_iat_positive
            && checks.min_iat_below_max && checks.min_dummy_fraction_in_range,
{
}

} // verus!
