//! A shaped session: a composer that pads and keeps the books, and a departure
//! clock that decides when frames leave.
use crate::clock::{Duration, Instant, NANOS_PER_MILLI};
use crate::clumping::{payload_bytes, Burst, BurstView, Packet};
use crate::composer::{
    composer_made, composition_domain, config_refused, lesser, role_refused, ComposerState, SeedBComposer,
};
use crate::composition::{CompositionConfig, CompositionError, RatioRegime};
use crate::frames::{fitted, law_fitting_keeps_what_fits, FrameView, MixedFrame};
use crate::primitives::blake3_keyed;
use crate::rng::{Draw, RngState, SeededRng};
use crate::seeds::{EphemeralSeed, SeedRole};
use crate::self_test::SelfTester;
use crate::timing_correlator::{
    clock_fits, ClockChecks, CorrelatorState, TimingCorrelator, TimingCorrelatorConfig,
    TimingCorrelatorError,
};
use vstd::prelude::*;
use vstd::string::*;

verus! {

/// The domain under which the departure clock's generator is seeded.
pub open spec fn correlator_domain() -> Seq<u8> {
    "mixtor.correlator.v1".spec_bytes()
}

/// What a session holds.
pub struct SessionState {
    pub composer: ComposerState,
    pub correlator: CorrelatorState,
}

impl SessionState {
    /// Both halves are well-formed and agree on the cell size.
    pub open spec fn wf(self) -> bool {
        &&& self.composer.wf()
        &&& self.correlator.wf()
        &&& self.composer.config.cell_bytes == Some(self.correlator.config.cell_bytes)
    }

    /// Whether another packet may join the queue.
    pub open spec fn has_space(self) -> bool {
        self.correlator.queue.len() < self.correlator.config.max_queue_depth
    }

    /// The session once a payload has been handed over at `now`. It is brought
    /// to cell size either way, and joins the queue if there is space.
    pub open spec fn injected(self, payload: Seq<u8>, now: Instant) -> SessionState {
        SessionState {
            composer: self.composer.payload_padded(payload),
            correlator: if self.has_space() {
                self.correlator.joined(self.composer.padded_payload(payload), now)
            } else {
                self.correlator
            },
        }
    }

    /// The session once the first `n` packets of a burst have been handed over.
    pub open spec fn injected_all(self, packets: Seq<Packet>, n: nat, now: Instant) -> SessionState
        decreases n,
    {
        if n == 0 {
            self
        } else {
            self.injected_all(packets, (n - 1) as nat, now).injected(packets[n - 1]@, now)
        }
    }

    /// The session once a burst's lengths are noted and its dummies counted.
    pub open spec fn prepared(self, burst: BurstView) -> SessionState {
        SessionState { composer: self.composer.prepared(burst), ..self }
    }

    /// Packets of a burst for which the queue has space.
    pub open spec fn space_for(self, n: nat) -> nat {
        lesser(n, (self.correlator.config.max_queue_depth - self.correlator.queue.len()) as nat)
    }

    /// The session after a burst for which there is space: all packets wait,
    /// and the burst is counted.
    pub open spec fn burst_taken(self, burst: BurstView, keepalive_ms: u64, now: Instant) -> SessionState {
        let all = self.prepared(burst).injected_all(burst.packets, burst.packets.len(), now);
        SessionState {
            composer: all.composer.observed(
                payload_bytes(burst.packets, burst.packets.len()) as u64,
                burst.packets.len() as u64,
                now,
            ).rested(keepalive_ms, now),
            ..all
        }
    }

    /// The session after a burst for which there is no space: the packets that
    /// fit wait, one more was brought to cell size, and nothing is counted.
    pub open spec fn burst_refused(self, burst: BurstView, now: Instant) -> SessionState {
        self.prepared(burst).injected_all(
            burst.packets,
            (self.space_for(burst.packets.len()) + 1) as nat,
            now,
        )
    }

    /// The frame that leaves at `now`, if a slot is due, and the session after
    /// it: the frame is entered into the composer's books.
    pub open spec fn ticked(self, step: Duration, force_dummy: bool, now: Instant) -> (
        Option<FrameView>,
        SessionState,
    ) {
        let (frame, correlator) = self.correlator.ticked(step, force_dummy, now);
        match frame {
            Some(f) => (
                Some(f),
                SessionState { composer: self.composer.entered(seq![f]), correlator },
            ),
            None => (None, self),
        }
    }
}

/// A composer and a departure clock.
pub struct ShapedSession {
    composer: SeedBComposer,
    correlator: TimingCorrelator,
}

impl View for ShapedSession {
    type V = SessionState;

    closed spec fn view(&self) -> SessionState {
        SessionState { composer: self.composer@, correlator: self.correlator@ }
    }
}

impl CompositionConfig {
    /// The departure clock's part of the configuration.
    pub open spec fn clock_config(self) -> TimingCorrelatorConfig {
        TimingCorrelatorConfig {
            cell_bytes: self.cell_bytes->Some_0,
            max_queue_depth: (self.max_dummy_packets_per_burst * 4) as usize,
            adapt_rate: match self.clock_adapt_rate {
                Some(adapt) => adapt,
                None => true,
            },
        }
    }
}

impl ShapedSession {
    /// The session made from a seed: an idle composer, and a clock that stands
    /// at `now` and draws from a generator of its own.
    pub open spec fn started(
        seed_b: &EphemeralSeed,
        config: CompositionConfig,
        keepalive_ms: u64,
        now: Instant,
    ) -> SessionState {
        SessionState {
            composer: SeedBComposer::started(seed_b, config, keepalive_ms, now),
            correlator: CorrelatorState {
                config: config.clock_config(),
                rng: RngState::fresh(
                    blake3_keyed(seed_b.material()@, correlator_domain()),
                ).then_draw(Draw::Word64),
                queue: Seq::empty(),
                next_departure: now,
                last_real_arrival: None,
                real_emitted: 0,
                dummy_emitted: 0,
            },
        }
    }

    /// A session under `config`, which must fix the cell size. `checks` says
    /// what holds of the clock's real-valued settings; the other arguments are
    /// those of [`SeedBComposer::with_config`]. The first slot is set by a call
    /// of [`ShapedSession::advance_clock`].
    pub fn new(
        seed_b: &EphemeralSeed,
        config: CompositionConfig,
        checks: ClockChecks,
        epsilon_positive: bool,
        keepalive_ms: u64,
        now: Instant,
    ) -> (r: Result<ShapedSession, CompositionError>)
        requires
            config.max_dummy_packets_per_burst * 4 <= usize::MAX,
            now.nanos + u64::MAX * NANOS_PER_MILLI <= u128::MAX,
        ensures
            session_made(seed_b, config, checks, epsilon_positive, keepalive_ms, now, r),
    {
        let cell: usize = match config.cell_bytes {
            Some(cell) => cell,
            None => {
                return Err(
                    CompositionError::InvalidConfig(
                        "ShapedSession requires cell_bytes to be set for size uniformity",
                    ),
                );
            },
        };
        let clock = TimingCorrelatorConfig {
            cell_bytes: cell,
            max_queue_depth: config.max_dummy_packets_per_burst * 4,
            adapt_rate: match config.clock_adapt_rate {
                Some(adapt) => adapt,
                None => true,
            },
        };
        let mut rng = SeededRng::new(
            seed_b.derive_rng_seed("mixtor.correlator.v1".as_bytes()),
        );
        let _skipped: u64 = rng.next_u64();
        let correlator = match TimingCorrelator::new(clock, checks, rng, now) {
            Ok(correlator) => correlator,
            Err(e) => {
                return Err(clock_error(e));
            },
        };
        match SeedBComposer::with_config(seed_b, config, epsilon_positive, keepalive_ms, now) {
            Ok(composer) => Ok(ShapedSession { composer, correlator }),
            Err(e) => Err(e),
        }
    }

    /// Hands over a packet at `now`.
    pub fn inject_real(&mut self, packet: Packet, now: Instant) -> (r: Result<
        (),
        CompositionError,
    >)
        requires
            old(self)@.wf(),
        ensures
            final(self)@.wf(),
            final(self)@ == old(self)@.injected(packet@, now),
            if old(self)@.has_space() {
                r is Ok
            } else {
                r == Err::<(), CompositionError>(CompositionError::QueueFull)
            },
    {
        let padded = self.composer.pad_packet(packet);
        match self.correlator.inject_real(padded, now) {
            Ok(_) => Ok(()),
            Err(e) => Err(clock_error(e)),
        }
    }

    /// The frame that leaves at `now`, if a slot is due.
    pub fn tick(&mut self, step: Duration, force_dummy: bool, now: Instant) -> (frame: Option<
        MixedFrame,
    >)
        requires
            old(self)@.wf(),
            clock_fits(old(self)@.correlator.next_departure, step, now),
            old(self)@.correlator.real_emitted < u64::MAX,
            old(self)@.correlator.dummy_emitted < u64::MAX,
            old(self)@.composer.frame_clock_ms < u64::MAX,
        ensures
            final(self)@.wf(),
            final(self)@ == old(self)@.ticked(step, force_dummy, now).1,
            match frame {
                Some(f) => old(self)@.ticked(step, force_dummy, now).0 == Some(f@)
                    && f@.bytes().len() == old(self)@.correlator.config.cell_bytes,
                None => old(self)@.ticked(step, force_dummy, now).0 is None,
            },
    {
        match self.correlator.tick(step, force_dummy, now) {
            None => None,
            Some(frame) => {
                self.composer.enter_frame(&frame);
                Some(frame)
            },
        }
    }
}

impl ShapedSession {
    /// Hands over a burst at `now`: its packets wait in order. Where the queue
    /// has no space for all of them, those that fit wait and the burst is not
    /// counted. `window_bytes` and `keepalive_ms` are those of
    /// [`SeedBComposer::compose`].
    #[verifier::loop_isolation(false)]
    pub fn inject_burst(
        &mut self,
        burst: Burst,
        window_bytes: usize,
        keepalive_ms: u64,
        now: Instant,
    ) -> (r: Result<usize, CompositionError>)
        requires
            old(self)@.wf(),
            old(self)@.composer.regime.dummy_lo <= old(self)@.composer.regime.dummy_hi,
            payload_bytes(burst@.packets, burst@.packets.len()) <= usize::MAX,
            now.nanos + u64::MAX * NANOS_PER_MILLI <= u128::MAX,
        ensures
            final(self)@.wf(),
            if old(self)@.space_for(burst@.packets.len()) == burst@.packets.len() {
                r == Ok::<usize, CompositionError>(burst@.packets.len() as usize) && final(self)@
                    == old(self)@.burst_taken(burst@, keepalive_ms, now)
            } else {
                r == Err::<usize, CompositionError>(CompositionError::QueueFull) && final(self)@
                    == old(self)@.burst_refused(burst@, now)
            },
    {
        let ghost start = self@;
        let ghost view = burst@;
        let real_bytes: usize = burst.total_bytes();
        let real_packets: usize = burst.packet_count();
        let _dummy_slots: usize = self.composer.prepare_burst(&burst, window_bytes);
        let ghost prepared = self@;
        proof {
            assert(prepared == start.prepared(view));
            lemma_prepared_keeps_the_cell(start.composer, view);
        }
        let packets = burst.into_packets();
        let mut injected: usize = 0;
        for packet in it: packets
            invariant
                it.seq() == view.packets,
                injected == it.index(),
                self@.wf(),
                self@ == prepared.injected_all(view.packets, injected as nat, now),
                self@.correlator.config == start.correlator.config,
                self@.correlator.queue.len() == start.correlator.queue.len() + injected,
        {
            if let Err(e) = self.inject_real(packet, now) {
                assert(injected == start.space_for(view.packets.len()));
                return Err(e);
            }
            injected = injected + 1;
        }
        self.composer.settle_burst(real_bytes, real_packets, keepalive_ms, now);
        Ok(injected)
    }

    /// When the next slot is due.
    pub fn next_departure(&self) -> (t: Instant)
        ensures
            t == self@.correlator.next_departure,
    {
        self.correlator.next_departure()
    }

    /// Moves the clock to its next slot.
    pub fn advance_clock(&mut self, step: Duration, now: Instant)
        requires
            clock_fits(old(self)@.correlator.next_departure, step, now),
        ensures
            final(self)@ == (SessionState {
                correlator: old(self)@.correlator.advanced(step, now),
                ..old(self)@
            }),
    {
        self.correlator.advance_clock(step, now);
    }

    /// Starts the clock anew: the next slot comes a `step` after `now`,
    /// whatever slots were due.
    pub fn restart_clock(&mut self, step: Duration, now: Instant)
        requires
            now.nanos + step.nanos <= u128::MAX,
        ensures
            final(self)@ == (SessionState {
                correlator: CorrelatorState {
                    next_departure: Instant { nanos: (now.nanos + step.nanos) as u128 },
                    ..old(self)@.correlator
                },
                ..old(self)@
            }),
    {
        self.correlator.restart_clock(step, now);
    }

    /// The generator that slot times are sampled with.
    pub fn clock_rng(&mut self) -> (r: &mut SeededRng)
        ensures
            r@ == old(self)@.correlator.rng,
            final(self)@ == (SessionState {
                correlator: CorrelatorState { rng: final(r)@, ..old(self)@.correlator },
                ..old(self)@
            }),
    {
        self.correlator.rng()
    }

    /// Time since the last packet arrived, where the slot rate follows
    /// arrivals and one has arrived.
    pub fn arrival_gap(&self, now: Instant) -> (gap: Option<Duration>)
        ensures
            match self@.correlator.last_real_arrival {
                Some(last) if self@.correlator.config.adapt_rate => gap is Some
                    && gap->Some_0.nanos == if now.nanos >= last.nanos {
                    now.nanos - last.nanos
                } else {
                    0
                },
                _ => gap is None,
            },
    {
        self.correlator.arrival_gap(now)
    }

    /// Whether the next slot is due at `now`.
    pub fn slot_ready(&self, now: Instant) -> (b: bool)
        ensures
            b == self@.correlator.due(now),
    {
        self.correlator.slot_ready(now)
    }

    /// Packets that wait.
    pub fn queue_depth(&self) -> (n: usize)
        ensures
            n == self@.correlator.queue.len(),
    {
        self.correlator.queue_depth()
    }

    /// Whether another packet may join the queue.
    pub fn has_queue_space(&self) -> (b: bool)
        ensures
            b == self@.has_space(),
    {
        self.correlator.has_queue_space()
    }

    /// Real frames and cover frames sent so far.
    pub fn emission_counts(&self) -> (c: (u64, u64))
        ensures
            c.0 == self@.correlator.real_emitted,
            c.1 == self@.correlator.dummy_emitted,
    {
        self.correlator.emission_counts()
    }

    /// The record of the frames sent.
    pub fn self_tester(&self) -> (t: &SelfTester)
        ensures
            t@ == self@.composer.tester,
    {
        self.composer.self_tester()
    }

    /// Time since the last burst of real traffic, if there was one.
    pub fn real_burst_gap(&self, now: Instant) -> (gap: Option<Duration>)
        ensures
            match self@.composer.last_real_burst_at {
                Some(last) => gap is Some && gap->Some_0.nanos == if now.nanos >= last.nanos {
                    now.nanos - last.nanos
                } else {
                    0
                },
                None => gap is None,
            },
    {
        self.composer.real_burst_gap(now)
    }

    /// The current regime.
    pub fn current_regime(&self) -> (r: RatioRegime)
        ensures
            r == self@.composer.regime,
    {
        self.composer.current_regime()
    }
}

proof fn lemma_prepared_keeps_the_cell(composer: ComposerState, burst: BurstView)
    ensures
        composer.prepared(burst).config == composer.config,
{
    lemma_with_packets_config(composer, burst.packets, burst.packets.len());
}

proof fn lemma_with_packets_config(composer: ComposerState, packets: Seq<Packet>, n: nat)
    ensures
        composer.with_packets(packets, n).config == composer.config,
    decreases n,
{
    if n > 0 {
        lemma_with_packets_config(composer, packets, (n - 1) as nat);
    }
}

/// Two sessions that share nothing, one for each direction.
pub struct BidirectionalSession {
    pub upstream: ShapedSession,
    pub downstream: ShapedSession,
}

/// What comes of making a session: the cell size must be fixed; then the
/// clock's settings are checked, then the role of the seed, then the rest of
/// the configuration.
pub open spec fn session_made(
    seed_b: &EphemeralSeed,
    config: CompositionConfig,
    checks: ClockChecks,
    epsilon_positive: bool,
    keepalive_ms: u64,
    now: Instant,
    r: Result<ShapedSession, CompositionError>,
) -> bool {
    if config.cell_bytes is None {
        config_refused(r, "ShapedSession requires cell_bytes to be set for size uniformity"@)
    } else if config.clock_config().fault(checks) is Some {
        config_refused(r, config.clock_config().fault(checks)->Some_0)
    } else if seed_b.spec_role() != SeedRole::BurstComposition {
        role_refused(seed_b, r)
    } else {
        match config.composing_fault(epsilon_positive) {
            Some(text) => config_refused(r, text),
            None => r is Ok && r->Ok_0@.wf() && r->Ok_0@ == ShapedSession::started(
                seed_b,
                config,
                keepalive_ms,
                now,
            ),
        }
    }
}

impl BidirectionalSession {
    /// Two sessions under one configuration, each from its own seed and with
    /// its own sampled keepalive gap. The first error is reported.
    pub fn new(
        seed_up: &EphemeralSeed,
        seed_down: &EphemeralSeed,
        config: CompositionConfig,
        checks: ClockChecks,
        epsilon_positive: bool,
        keepalive_ms: (u64, u64),
        now: Instant,
    ) -> (r: Result<BidirectionalSession, CompositionError>)
        requires
            config.max_dummy_packets_per_burst * 4 <= usize::MAX,
            now.nanos + u64::MAX * NANOS_PER_MILLI <= u128::MAX,
        ensures
            exists|
                up: Result<ShapedSession, CompositionError>,
                down: Result<ShapedSession, CompositionError>,
            |
                #[trigger] session_made(
                    seed_up,
                    config,
                    checks,
                    epsilon_positive,
                    keepalive_ms.0,
                    now,
                    up,
                ) && #[trigger] session_made(
                    seed_down,
                    config,
                    checks,
                    epsilon_positive,
                    keepalive_ms.1,
                    now,
                    down,
                ) && match up {
                    Err(e) => r == Err::<BidirectionalSession, CompositionError>(e),
                    Ok(u) => match down {
                        Err(e) => r == Err::<BidirectionalSession, CompositionError>(e),
                        Ok(d) => r is Ok && r->Ok_0.upstream == u && r->Ok_0.downstream == d,
                    },
                },
    {
        let up = ShapedSession::new(
            seed_up,
            config,
            checks,
            epsilon_positive,
            keepalive_ms.0,
            now,
        );
        let down = ShapedSession::new(
            seed_down,
            config,
            checks,
            epsilon_positive,
            keepalive_ms.1,
            now,
        );
        assert(session_made(
            seed_up,
            config,
            checks,
            epsilon_positive,
            keepalive_ms.0,
            now,
            up,
        ));
        assert(session_made(
            seed_down,
            config,
            checks,
            epsilon_positive,
            keepalive_ms.1,
            now,
            down,
        ));
        match up {
            Ok(upstream) => match down {
                Ok(downstream) => Ok(BidirectionalSession { upstream, downstream }),
                Err(e) => Err(e),
            },
            Err(e) => Err(e),
        }
    }
}

/// Two composers that share nothing, one for each direction.
pub struct BidirectionalComposer {
    pub upstream: SeedBComposer,
    pub downstream: SeedBComposer,
}

impl BidirectionalComposer {
    /// Two composers under one configuration, each from its own seed and with
    /// its own sampled keepalive gap. The first error is reported.
    pub fn new(
        seed_up: &EphemeralSeed,
        seed_down: &EphemeralSeed,
        config: CompositionConfig,
        epsilon_positive: bool,
        keepalive_ms: (u64, u64),
        now: Instant,
    ) -> (r: Result<BidirectionalComposer, CompositionError>)
        requires
            now.nanos + u64::MAX * NANOS_PER_MILLI <= u128::MAX,
        ensures
            exists|
                up: Result<SeedBComposer, CompositionError>,
                down: Result<SeedBComposer, CompositionError>,
            |
                #[trigger] composer_made(seed_up, config, epsilon_positive, keepalive_ms.0, now, up)
                    && #[trigger] composer_made(
                    seed_down,
                    config,
                    epsilon_positive,
                    keepalive_ms.1,
                    now,
                    down,
                ) && match up {
                    Err(e) => r == Err::<BidirectionalComposer, CompositionError>(e),
                    Ok(u) => match down {
                        Err(e) => r == Err::<BidirectionalComposer, CompositionError>(e),
                        Ok(d) => r is Ok && r->Ok_0.upstream == u && r->Ok_0.downstream == d,
                    },
                },
    {
        let up = SeedBComposer::with_config(
            seed_up,
            config,
            epsilon_positive,
            keepalive_ms.0,
            now,
        );
        let down = SeedBComposer::with_config(
            seed_down,
            config,
            epsilon_positive,
            keepalive_ms.1,
            now,
        );
        assert(composer_made(seed_up, config, epsilon_positive, keepalive_ms.0, now, up));
        assert(composer_made(seed_down, config, epsilon_positive, keepalive_ms.1, now, down));
        match up {
            Ok(upstream) => match down {
                Ok(downstream) => Ok(BidirectionalComposer { upstream, downstream }),
                Err(e) => Err(e),
            },
            Err(e) => Err(e),
        }
    }
}

/// A clock's error as a session reports it.
pub open spec fn clock_error_spec(e: TimingCorrelatorError) -> CompositionError {
    match e {
        TimingCorrelatorError::InvalidConfig(message) => CompositionError::InvalidConfig(message),
        TimingCorrelatorError::QueueFull => CompositionError::QueueFull,
    }
}

/// A clock's error as a session reports it.
fn clock_error(e: TimingCorrelatorError) -> (r: CompositionError)
    ensures
        r == clock_error_spec(e),
{
    match e {
        TimingCorrelatorError::InvalidConfig(message) => CompositionError::InvalidConfig(message),
        TimingCorrelatorError::QueueFull => CompositionError::QueueFull,
    }
}

/// Whether a packet was brought to the size of a cell: it stands at the front where
/// it fits, and fills the cell with its front where it does not.
pub open spec fn fills(waiting: Seq<u8>, packet: Seq<u8>, cell: int) -> bool {
    &&& waiting.len() == cell
    &&& packet.len() <= cell ==> waiting.take(packet.len() as int) == packet
    &&& packet.len() > cell ==> waiting == packet.take(cell)
}

proof fn lemma_fitted_fills(packet: Seq<u8>, cell: nat, rng: RngState)
    ensures
        fills(fitted(packet, cell, rng), packet, cell as int),
{
    let out = fitted(packet, cell, rng);
    if packet.len() <= cell {
        law_fitting_keeps_what_fits(packet, cell, rng);
    }
    if packet.len() >= cell {
        assert(out.len() == cell);
    } else {
        assert(out.len() == packet.len() + rng.bytes((cell - packet.len()) as nat).len());
    }
}

/// What becomes of a burst for which there is space: its packets wait behind those
/// that wait already, in order, each brought to cell size with its bytes in front;
/// the burst is counted once, and the clock does not move.
pub proof fn law_bursts_wait_in_order(
    state: SessionState,
    burst: BurstView,
    keepalive_ms: u64,
    now: Instant,
    i: int,
)
    requires
        state.wf(),
        state.correlator.queue.len() + burst.packets.len()
            <= state.correlator.config.max_queue_depth,
        0 <= i < burst.packets.len(),
    ensures
        ({
            let after = state.burst_taken(burst, keepalive_ms, now);
            let queue = state.correlator.queue;
            let cell = state.correlator.config.cell_bytes as int;
            let packet = burst.packets[i]@;
            let waiting = after.correlator.queue[queue.len() + i];
            &&& after.correlator.queue.len() == queue.len() + burst.packets.len()
            &&& after.correlator.queue.take(queue.len() as int) == queue
            &&& fills(waiting, packet, cell)
            &&& after.correlator.next_departure == state.correlator.next_departure
            &&& after.composer.last_real_burst_at == Some(now)
            &&& after.composer.last_burst_at == now
        }),
{
    let start = state.prepared(burst);
    lemma_prepared_keeps_the_cell(state.composer, burst);
    lemma_injected_all(start, burst.packets, burst.packets.len(), now);
}

proof fn lemma_injected_all(state: SessionState, packets: Seq<Packet>, n: nat, now: Instant)
    requires
        n <= packets.len(),
        state.composer.config.cell_bytes == Some(state.correlator.config.cell_bytes),
        state.correlator.queue.len() + n <= state.correlator.config.max_queue_depth,
    ensures
        ({
            let after = state.injected_all(packets, n, now);
            let queue = state.correlator.queue;
            let cell = state.correlator.config.cell_bytes as int;
            &&& after.composer.config == state.composer.config
            &&& after.correlator.config == state.correlator.config
            &&& after.correlator.next_departure == state.correlator.next_departure
            &&& after.correlator.queue.len() == queue.len() + n
            &&& after.correlator.queue.take(queue.len() as int) == queue
            &&& forall|i: int|
                0 <= i < n ==> fills(
                    after.correlator.queue[queue.len() + i],
                    (#[trigger] packets[i])@,
                    cell,
                )
        }),
    decreases n,
{
    let queue = state.correlator.queue;
    if n == 0 {
        assert(queue.take(queue.len() as int) =~= queue);
    } else {
        lemma_injected_all(state, packets, (n - 1) as nat, now);
        let before = state.injected_all(packets, (n - 1) as nat, now);
        let after = state.injected_all(packets, n, now);
        let cell = state.correlator.config.cell_bytes as nat;
        let packet = packets[n - 1]@;
        lemma_fitted_fills(packet, cell, before.composer.rng);
        assert(after.correlator.queue.take(queue.len() as int)
            =~= before.correlator.queue.take(queue.len() as int));
        assert forall|i: int| 0 <= i < n implies fills(
            after.correlator.queue[queue.len() + i],
            (#[trigger] packets[i])@,
            cell as int,
        ) by {
            if i < n - 1 {
                assert(after.correlator.queue[queue.len() + i] == before.correlator.queue[queue.len()
                    + i]);
            } else {
                assert(after.correlator.queue[queue.len() + i] == fitted(
                    packet,
                    cell,
                    before.composer.rng,
                ));
            }
        }
    }
}

/// A session takes what has space and refuses the rest: a packet joins the end of
/// the queue where fewer wait than may, and otherwise the queue stays as it is.
pub proof fn law_sessions_keep_to_their_queue(state: SessionState, payload: Seq<u8>, now: Instant)
    requires
        state.wf(),
    ensures
        ({
            let after = state.injected(payload, now);
            let room = state.correlator.queue.len() < state.correlator.config.max_queue_depth;
            &&& after.wf()
            &&& room ==> after.correlator.queue.len() == state.correlator.queue.len() + 1
                && after.correlator.queue.drop_last() == state.correlator.queue
                && after.correlator.queue.last().len() == state.correlator.config.cell_bytes
            &&& !room ==> after.correlator == state.correlator
        }),
{
    if state.has_space() {
        assert(state.injected(payload, now).correlator.queue.drop_last()
            =~= state.correlator.queue);
    }
}

/// A session's books follow its clock: a frame leaves exactly when a slot is due,
/// it is a full cell, and it is entered once.
pub proof fn law_slots_are_entered(
    state: SessionState,
    step: Duration,
    force_dummy: bool,
    now: Instant,
)
    requires
        state.wf(),
        state.composer.frame_clock_ms < u64::MAX,
    ensures
        ({
            let (frame, after) = state.ticked(step, force_dummy, now);
            let due = now.nanos >= state.correlator.next_departure.nanos;
            &&& frame is Some <==> due
            &&& !due ==> after == state
            &&& due ==> frame->Some_0.bytes().len() == state.correlator.config.cell_bytes
            &&& due ==> (frame->Some_0 is Real <==> !force_dummy && state.correlator.queue.len() > 0)
            &&& due ==> after.composer.frame_clock_ms == state.composer.frame_clock_ms + 1
            &&& due ==> after.composer.tester.total() == state.composer.tester.total() + 1
        }),
{
    let (frame, after) = state.ticked(step, force_dummy, now);
    if let Some(f) = frame {
        let one = seq![f];
        reveal_with_fuel(ComposerState::tested, 2);
        assert(one[0] == f);
    }
}

/// A clock's part of a configuration: its cells are the session's, four times as
/// many packets may wait as a burst may have dummies, and the rate follows arrivals
/// unless that is switched off.
pub proof fn law_clocks_follow_the_configuration(config: CompositionConfig)
    requires
        config.cell_bytes is Some,
        config.max_dummy_packets_per_burst * 4 <= usize::MAX,
    ensures
        config.clock_config().cell_bytes == config.cell_bytes->Some_0,
        config.clock_config().max_queue_depth == 4 * config.max_dummy_packets_per_burst,
        config.clock_config().adapt_rate <==> config.clock_adapt_rate != Some(false),
        correlator_domain().len() == 20,
        correlator_domain() != composition_domain(),
{
    reveal_strlit("mixtor.correlator.v1");
    reveal_strlit("mixtor.composition.v1");
    broadcast use vstd::string::group_string_axioms;
    broadcast use vstd::utf8::group_utf8_lib;

    assert("mixtor.correlator.v1".is_ascii());
    assert("mixtor.composition.v1".is_ascii());
    assert(composition_domain().len() == 21);
}

/// What becomes of a burst for which there is no space: its first packets fill the
/// queue, in order, and the rest is gone; nothing is counted.
pub proof fn law_refused_bursts_fill_the_queue(
    state: SessionState,
    burst: BurstView,
    now: Instant,
    i: int,
)
    requires
        state.wf(),
        state.correlator.queue.len() + burst.packets.len()
            > state.correlator.config.max_queue_depth,
        state.correlator.queue.len() <= i < state.correlator.config.max_queue_depth,
    ensures
        ({
            let after = state.burst_refused(burst, now);
            let queue = state.correlator.queue;
            let cell = state.correlator.config.cell_bytes as int;
            &&& after.correlator.queue.len() == state.correlator.config.max_queue_depth
            &&& after.correlator.queue.take(queue.len() as int) == queue
            &&& fills(after.correlator.queue[i], burst.packets[i - queue.len()]@, cell)
            &&& after.correlator.next_departure == state.correlator.next_departure
        }),
{
    let start = state.prepared(burst);
    let room = state.space_for(burst.packets.len());
    lemma_prepared_keeps_the_cell(state.composer, burst);
    lemma_injected_all(start, burst.packets, room, now);
    let before = start.injected_all(burst.packets, room, now);
    assert(state.burst_refused(burst, now) == before.injected(burst.packets[room as int]@, now));
    let k = i - state.correlator.queue.len();
    assert(fills(
        before.correlator.queue[state.correlator.queue.len() + k],
        burst.packets[k]@,
        state.correlator.config.cell_bytes as int,
    ));
}

} // verus!
