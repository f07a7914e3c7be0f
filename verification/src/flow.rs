//! One shaped flow: cells are pulled in no faster than slots come due, every
//! slot puts one sealed frame on the wire, and cover goes on after real traffic
//! has ended until the tail policy is met.
use crate::cells::{decode_real_cell, decoded_cell, CELL_BYTES};
use crate::clock::{Duration, Instant, NANOS_PER_SEC};
use crate::clumping::Packet;
use crate::composition::CompositionConfig;
use crate::crypto::{
    CipherState, FrameCipher, KIND_DUMMY, KIND_LEN, KIND_REAL, TAG_LEN,
};
use crate::frames::{FrameView, MixedFrame};
use crate::primitives::MAX_PLAINTEXT;
use crate::session_bounder::FuzzedClassThresholds;
use crate::shaped_session::{SessionState, ShapedSession};
use crate::timing::capped_sum;
use crate::timing_correlator::{clock_fits, CorrelatorState};
use crate::transport::{
    class_targets_fuzzy, class_under, law_boundaries_are_ahead_and_aligned, targets_of, EpochClock,
    TailPolicy, TAIL_VOLUME_QUANTUM_CELLS,
};
use vstd::prelude::*;

verus! {

/// Bytes that may wait for the wire before slots are passed over.
pub const PENDING_CAP: usize = 65_536;

/// Seconds after which an ended flow is given up, counted from the end of its
/// tail.
pub const BACKSTOP_SECS: u64 = 5;

/// Cells that may wait between a reader and its flow.
pub const STEADY_CHANNEL_CAP: usize = 1024;

/// How the sessions of a flow are shaped: fixed cells, and a clock that does
/// not follow real arrivals.
pub fn shaped_composition_config() -> (c: CompositionConfig)
    ensures
        c == (CompositionConfig {
            cell_bytes: Some(CELL_BYTES),
            clock_adapt_rate: Some(false),
            ..CompositionConfig::standard()
        }),
{
    let mut config = CompositionConfig::default();
    config.cell_bytes = Some(CELL_BYTES);
    config.clock_adapt_rate = Some(false);
    config
}

/// `n` rounded up to a whole number of tail quanta; a sum beyond the largest
/// 64-bit integer counts as that.
pub open spec fn round_up_to_quantum(n: u64) -> u64 {
    let q = TAIL_VOLUME_QUANTUM_CELLS;
    let raised = if n + q - 1 > u64::MAX {
        u64::MAX as int
    } else {
        n + q - 1
    };
    (raised / q as int * q) as u64
}

/// When a flow may end at the earliest, in nanoseconds, and how many cells it
/// must have sent by then.
pub open spec fn tail_of(
    real_bytes: nat,
    wire_seq: u64,
    policy: TailPolicy,
    thresholds: FuzzedClassThresholds,
    start: Instant,
    now: Instant,
) -> Option<(int, u64)> {
    let class = targets_of(class_under(thresholds, real_bytes));
    match policy {
        TailPolicy::Off => None,
        TailPolicy::Fixed(d) => Some((start.nanos + d.nanos, round_up_to_quantum(wire_seq))),
        TailPolicy::ByClass => Some((start.nanos + class.0.nanos, class.1)),
        TailPolicy::Epoch(clock) => {
            let floor = start.nanos + class.0.nanos;
            Some(
                (
                    clock.boundary(
                        if floor > now.nanos {
                            floor
                        } else {
                            now.nanos as int
                        },
                    ),
                    0,
                ),
            )
        },
    }
}

/// Whether the instants that a tail and its backstop need can be told.
pub open spec fn tail_fits(policy: TailPolicy, start: Instant, now: Instant) -> bool {
    let most = 7_200 * NANOS_PER_SEC + BACKSTOP_SECS * NANOS_PER_SEC;
    &&& start.nanos + most <= u128::MAX
    &&& now.nanos + most <= u128::MAX
    &&& match policy {
        TailPolicy::Fixed(d) => start.nanos + d.nanos + most <= u128::MAX,
        TailPolicy::Epoch(clock) => forall|at: int|
            0 <= at <= start.nanos + most || 0 <= at <= now.nanos ==> #[trigger] clock.boundary(at)
                + most <= u128::MAX,
        _ => true,
    }
}

/// When a flow may end at the earliest, and how many cells it must have sent by
/// then.
pub fn tail_targets(
    real_bytes_sent: u64,
    wire_seq: u64,
    policy: &TailPolicy,
    thresholds: &FuzzedClassThresholds,
    session_start: Instant,
    now: Instant,
) -> (r: Option<(Instant, u64)>)
    requires
        tail_fits(*policy, session_start, now),
    ensures
        match tail_of(
            real_bytes_sent as nat,
            wire_seq,
            *policy,
            *thresholds,
            session_start,
            now,
        ) {
            None => r is None,
            Some((at, cells)) => r is Some && r->Some_0.0.nanos == at && r->Some_0.1 == cells,
        },
{
    match policy {
        TailPolicy::Off => None,
        TailPolicy::Fixed(d) => {
            let q: u64 = TAIL_VOLUME_QUANTUM_CELLS;
            let cells: u64 = wire_seq.saturating_add(q - 1) / q * q;
            Some((session_start.after(*d), cells))
        },
        TailPolicy::ByClass => {
            let (floor, cells) = class_targets_fuzzy(real_bytes_sent, thresholds);
            Some((session_start.after(floor), cells))
        },
        TailPolicy::Epoch(clock) => {
            let (floor, _cells) = class_targets_fuzzy(real_bytes_sent, thresholds);
            let earliest = session_start.after(floor);
            let anchor = if earliest.nanos > now.nanos {
                earliest
            } else {
                now
            };
            Some((clock.next_boundary(anchor), 0))
        },
    }
}

/// What came of an attempt to pull a cell.
pub enum Pulled {
    /// A cell.
    Cell(Vec<u8>),
    /// None waits.
    Empty,
    /// None will come any more.
    Disconnected,
}

/// What came of an attempt to write.
#[derive(Clone, Copy, Debug, PartialEq, Eq, Structural)]
pub enum Wrote {
    /// So many bytes were taken.
    Bytes(usize),
    /// The wire takes none right now.
    Blocked,
    /// The wire is broken.
    Broken,
}

/// A frame that was put on the wire.
#[derive(Clone, Copy, Debug, PartialEq, Eq, Structural)]
pub struct Emitted {
    /// Its number.
    pub seq: u64,
    /// Whether it carries a payload.
    pub is_real: bool,
    /// Bytes in its cell.
    pub len: usize,
}

/// What a flow needs next.
#[derive(Clone, Copy, Debug, PartialEq, Eq, Structural)]
pub enum FlowNeed {
    /// An attempt to pull a cell.
    Pull,
    /// A slot to pass.
    Slot,
    /// Nothing: no slot is due, or too much waits for the wire.
    Nothing,
}

/// What a flow holds.
pub struct FlowState {
    pub session: SessionState,
    pub cipher: CipherState,
    pub wire_seq: u64,
    pub session_start: Instant,
    pub pending: Seq<u8>,
    pub reader_done: bool,
    pub policy: TailPolicy,
    pub tail: Option<(Instant, u64)>,
    pub finish_by: Option<Instant>,
    pub thresholds: FuzzedClassThresholds,
    pub real_bytes: u64,
    pub real_hold_until: Instant,
    pub clock_started: bool,
}

/// The kind byte and the cell of a frame.
pub open spec fn kind_and_cell(frame: FrameView) -> (u8, Seq<u8>) {
    match frame {
        FrameView::Real(bytes) => (KIND_REAL, bytes),
        FrameView::Dummy(bytes) => (KIND_DUMMY, bytes),
    }
}

impl FlowState {
    /// The session is well-formed and sends cells. Once the reader is done, there
    /// is a backstop, and the tail ends before it.
    pub open spec fn wf(self) -> bool {
        &&& self.session.wf()
        &&& self.session.correlator.config.cell_bytes == CELL_BYTES
        &&& self.reader_done <==> self.finish_by is Some
        &&& self.tail is Some ==> self.reader_done && self.tail->Some_0.0.nanos
            <= self.finish_by->Some_0.nanos
    }

    /// Whether a slot is due that the wire has room for.
    pub open spec fn slot_open(self, now: Instant) -> bool {
        self.pending.len() < PENDING_CAP && self.session.correlator.due(now)
    }

    /// Whether a cell is to be pulled before a slot: the reader is not done,
    /// the queue has space, and real traffic is not held back.
    pub open spec fn wants_cell(self, gate_open: bool) -> bool {
        !self.reader_done && self.session.has_space() && gate_open
    }

    /// What the flow needs next, given whether a pull was attempted since the
    /// last slot. A pull is attempted once before a slot at most, so real
    /// traffic never enters faster than slots come due.
    pub open spec fn need(self, gate_open: bool, pulled: bool, now: Instant) -> FlowNeed {
        if !self.slot_open(now) {
            FlowNeed::Nothing
        } else if !pulled && self.wants_cell(gate_open) {
            FlowNeed::Pull
        } else {
            FlowNeed::Slot
        }
    }

    /// The flow once a cell has been handed over: it joins the queue if there
    /// is space, and its data is counted.
    pub open spec fn cell_taken(self, cell: Seq<u8>, now: Instant) -> FlowState {
        if cell.len() == 0 {
            self
        } else {
            FlowState {
                session: self.session.injected(cell, now),
                real_bytes: if self.session.has_space() {
                    capped_sum(self.real_bytes, decoded_cell(cell).1.len() as u64)
                } else {
                    self.real_bytes
                },
                ..self
            }
        }
    }

    /// The flow once its reader is done: the tail is set, and a backstop behind
    /// it.
    pub open spec fn reader_gone(self, now: Instant) -> FlowState {
        let tail = tail_of(
            self.real_bytes as nat,
            self.wire_seq,
            self.policy,
            self.thresholds,
            self.session_start,
            now,
        );
        let backstop = match tail {
            Some((at, _)) => at + BACKSTOP_SECS * NANOS_PER_SEC,
            None => now.nanos + BACKSTOP_SECS * NANOS_PER_SEC,
        };
        FlowState {
            reader_done: true,
            tail: match tail {
                Some((at, cells)) => Some((Instant { nanos: at as u128 }, cells)),
                None => None,
            },
            finish_by: Some(Instant { nanos: backstop as u128 }),
            ..self
        }
    }

    /// The flow after a slot: the frame that leaves is sealed and waits for the
    /// wire.
    pub open spec fn emitted(self, step: Duration, force_dummy: bool, now: Instant) -> FlowState {
        let (frame, session) = self.session.ticked(step, force_dummy, now);
        match frame {
            None => self,
            Some(f) => {
                let (kind, cell) = kind_and_cell(f);
                FlowState {
                    session,
                    cipher: self.cipher.next(),
                    wire_seq: (self.wire_seq + 1) as u64,
                    pending: self.pending + self.cipher.sealed(kind, cell),
                    ..self
                }
            },
        }
    }

    /// Whether the tail policy is met.
    pub open spec fn tail_met(self, now: Instant) -> bool {
        match self.tail {
            None => true,
            Some((deadline, cells)) => now.nanos >= deadline.nanos && self.wire_seq >= cells,
        }
    }

    /// Whether nothing waits any more, in the queue or for the wire.
    pub open spec fn drained(self) -> bool {
        self.session.correlator.queue.len() == 0 && self.pending.len() == 0
    }

    /// Whether the flow is over: the reader is done, and either nothing waits
    /// and the tail is met, or the backstop has passed.
    pub open spec fn over(self, now: Instant) -> bool {
        self.reader_done && ((self.drained() && self.tail_met(now)) || (self.finish_by is Some
            && now.nanos >= self.finish_by->Some_0.nanos))
    }
}

/// A shaped flow.
pub struct Flow {
    session: ShapedSession,
    cipher: FrameCipher,
    wire_seq: u64,
    session_start: Instant,
    pending: Vec<u8>,
    reader_done: bool,
    policy: TailPolicy,
    tail: Option<(Instant, u64)>,
    finish_by: Option<Instant>,
    thresholds: FuzzedClassThresholds,
    real_bytes: u64,
    real_hold_until: Instant,
    clock_started: bool,
}

impl View for Flow {
    type V = FlowState;

    closed spec fn view(&self) -> FlowState {
        FlowState {
            session: self.session@,
            cipher: self.cipher@,
            wire_seq: self.wire_seq,
            session_start: self.session_start,
            pending: self.pending@,
            reader_done: self.reader_done,
            policy: self.policy,
            tail: self.tail,
            finish_by: self.finish_by,
            thresholds: self.thresholds,
            real_bytes: self.real_bytes,
            real_hold_until: self.real_hold_until,
            clock_started: self.clock_started,
        }
    }
}

impl Flow {
    /// A flow that has sent nothing. Real traffic is held back until
    /// `real_hold_until`.
    pub fn new(
        session: ShapedSession,
        cipher: FrameCipher,
        policy: TailPolicy,
        thresholds: FuzzedClassThresholds,
        session_start: Instant,
        real_hold_until: Instant,
    ) -> (f: Flow)
        requires
            session@.wf(),
            session@.correlator.config.cell_bytes == CELL_BYTES,
        ensures
            f@.wf(),
            f@ == (FlowState {
                session: session@,
                cipher: cipher@,
                wire_seq: 0,
                session_start,
                pending: Seq::empty(),
                reader_done: false,
                policy,
                tail: None,
                finish_by: None,
                thresholds,
                real_bytes: 0,
                real_hold_until,
                clock_started: false,
            }),
    {
        Flow {
            session,
            cipher,
            wire_seq: 0,
            session_start,
            pending: Vec::new(),
            reader_done: false,
            policy,
            tail: None,
            finish_by: None,
            thresholds,
            real_bytes: 0,
            real_hold_until,
            clock_started: false,
        }
    }

    /// Whether the flow's clock has been started.
    pub fn clock_started(&self) -> (b: bool)
        ensures
            b == self@.clock_started,
    {
        self.clock_started
    }

    /// Starts the flow's clock, unless it runs already: slots that came due
    /// before do not leave as a burst.
    pub fn start_clock(&mut self, step: Duration, now: Instant)
        requires
            old(self)@.wf(),
            now.nanos + step.nanos <= u128::MAX,
        ensures
            final(self)@.wf(),
            final(self)@ == if old(self)@.clock_started {
                old(self)@
            } else {
                FlowState {
                    session: SessionState {
                        correlator: CorrelatorState {
                            next_departure: Instant { nanos: (now.nanos + step.nanos) as u128 },
                            ..old(self)@.session.correlator
                        },
                        ..old(self)@.session
                    },
                    clock_started: true,
                    ..old(self)@
                }
            },
    {
        if !self.clock_started {
            self.session.restart_clock(step, now);
            self.clock_started = true;
        }
    }

    /// Whether real traffic is no longer held back at `now`.
    pub fn gate_open(&self, now: Instant) -> (b: bool)
        ensures
            b == (now.nanos >= self@.real_hold_until.nanos),
    {
        now.nanos >= self.real_hold_until.nanos
    }

    /// What the flow needs next, given whether a pull was attempted since the
    /// last slot.
    pub fn need(&self, gate_open: bool, pulled: bool, now: Instant) -> (need: FlowNeed)
        ensures
            need == self@.need(gate_open, pulled, now),
    {
        if self.pending.len() >= PENDING_CAP || !self.session.slot_ready(now) {
            return FlowNeed::Nothing;
        }
        if !pulled && !self.reader_done && self.session.has_queue_space() && gate_open {
            return FlowNeed::Pull;
        }
        FlowNeed::Slot
    }

    /// Takes in what came of an attempt to pull a cell.
    pub fn pull(&mut self, pulled: Pulled, now: Instant)
        requires
            old(self)@.wf(),
            tail_fits(old(self)@.policy, old(self)@.session_start, now),
        ensures
            final(self)@.wf(),
            final(self)@ == match pulled {
                Pulled::Cell(cell) => old(self)@.cell_taken(cell@, now),
                Pulled::Empty => old(self)@,
                Pulled::Disconnected => old(self)@.reader_gone(now),
            },
    {
        match pulled {
            Pulled::Cell(cell) => {
                let len: usize = decode_real_cell(cell.as_slice()).1.len();
                if let Ok(packet) = Packet::new(cell) {
                    if self.session.inject_real(packet, now).is_ok() {
                        self.real_bytes = self.real_bytes.saturating_add(len as u64);
                    }
                }
            },
            Pulled::Empty => {},
            Pulled::Disconnected => {
                self.reader_done = true;
                self.tail =
                tail_targets(
                    self.real_bytes,
                    self.wire_seq,
                    &self.policy,
                    &self.thresholds,
                    self.session_start,
                    now,
                );
                let grace = Duration::from_secs(BACKSTOP_SECS);
                self.finish_by =
                match self.tail {
                    Some((deadline, _)) => Some(deadline.after(grace)),
                    None => Some(now.after(grace)),
                };
            },
        }
    }

    /// Lets the slot that is due pass: one frame is sealed and waits for the
    /// wire. All frames have the same length there.
    pub fn emit(&mut self, step: Duration, force_dummy: bool, now: Instant) -> (e: Option<Emitted>)
        requires
            old(self)@.wf(),
            clock_fits(old(self)@.session.correlator.next_departure, step, now),
            old(self)@.session.correlator.real_emitted < u64::MAX,
            old(self)@.session.correlator.dummy_emitted < u64::MAX,
            old(self)@.session.composer.frame_clock_ms < u64::MAX,
            old(self)@.wire_seq < u64::MAX,
        ensures
            final(self)@.wf(),
            final(self)@ == old(self)@.emitted(step, force_dummy, now),
            match old(self)@.session.ticked(step, force_dummy, now).0 {
                None => e is None,
                Some(f) => {
                    &&& e == Some(
                        Emitted {
                            seq: old(self)@.wire_seq,
                            is_real: f is Real,
                            len: CELL_BYTES,
                        },
                    )
                    &&& final(self)@.pending.len() == old(self)@.pending.len() + KIND_LEN
                        + CELL_BYTES + TAG_LEN
                },
            },
    {
        let frame = match self.session.tick(step, force_dummy, now) {
            Some(frame) => frame,
            None => {
                return None;
            },
        };
        let is_real = frame.is_real();
        let (sealed, len) = encode_frame(frame, &mut self.cipher);
        let seq: u64 = self.wire_seq;
        self.wire_seq = self.wire_seq + 1;
        let mut sealed = sealed;
        self.pending.append(&mut sealed);
        Some(Emitted { seq, is_real, len })
    }

    /// What waits for the wire.
    pub fn pending(&self) -> (p: &[u8])
        ensures
            p@ == self@.pending,
    {
        self.pending.as_slice()
    }

    /// Takes in what came of an attempt to write what waits, and tells whether
    /// the flow goes on. A wire that takes nothing when it could is closed.
    pub fn wrote(&mut self, outcome: Wrote) -> (go_on: bool)
        requires
            old(self)@.wf(),
            outcome is Bytes ==> outcome->Bytes_0 <= old(self)@.pending.len(),
        ensures
            final(self)@.wf(),
            match outcome {
                Wrote::Bytes(n) => {
                    &&& go_on == (n > 0)
                    &&& final(self)@ == (FlowState {
                        pending: old(self)@.pending.skip(n as int),
                        ..old(self)@
                    })
                },
                Wrote::Blocked => go_on && final(self)@ == old(self)@,
                Wrote::Broken => !go_on && final(self)@ == old(self)@,
            },
    {
        match outcome {
            Wrote::Bytes(n) => {
                let rest = crate::bytes::copy_range(self.pending.as_slice(), n, self.pending.len());
                assert(rest@ =~= self.pending@.skip(n as int));
                self.pending = rest;
                n > 0
            },
            Wrote::Blocked => true,
            Wrote::Broken => false,
        }
    }

    /// Whether the flow is over at `now`.
    pub fn is_over(&self, now: Instant) -> (b: bool)
        ensures
            b == self@.over(now),
    {
        if !self.reader_done {
            return false;
        }
        let drained = self.session.queue_depth() == 0 && self.pending.len() == 0;
        let tail_met = match self.tail {
            None => true,
            Some((deadline, cells)) => now.nanos >= deadline.nanos && self.wire_seq >= cells,
        };
        let past_backstop = match self.finish_by {
            Some(at) => now.nanos >= at.nanos,
            None => false,
        };
        (drained && tail_met) || past_backstop
    }

    /// The session's generator of slot times.
    pub fn clock_rng(&mut self) -> (r: &mut crate::rng::SeededRng)
        ensures
            r@ == old(self)@.session.correlator.rng,
            final(self)@ == (FlowState {
                session: SessionState {
                    correlator: CorrelatorState {
                        rng: final(r)@,
                        ..old(self)@.session.correlator
                    },
                    ..old(self)@.session
                },
                ..old(self)@
            }),
    {
        self.session.clock_rng()
    }
}

/// Seals a frame; real frames and cover look alike on the wire.
pub fn encode_frame(frame: MixedFrame, cipher: &mut FrameCipher) -> (r: (Vec<u8>, usize))
    requires
        frame@.bytes().len() + KIND_LEN <= MAX_PLAINTEXT,
    ensures
        ({
            let (kind, cell) = kind_and_cell(frame@);
            &&& r.0@ == old(cipher)@.sealed(kind, cell)
            &&& r.0@.len() == KIND_LEN + cell.len() + TAG_LEN
            &&& r.1 == cell.len()
            &&& old(cipher)@.opened(r.0@) == Some((kind, cell))
        }),
        final(cipher)@ == old(cipher)@.next(),
{
    match frame {
        MixedFrame::Real(packet) => {
            let cell = packet.into_bytes();
            (cipher.seal(KIND_REAL, cell.as_slice()), cell.len())
        },
        MixedFrame::Dummy(cell) => (cipher.seal(KIND_DUMMY, cell.as_slice()), cell.len()),
    }
}

/// A flow ends only after its reader is done and after its tail's deadline.
/// Before its backstop it ends only with everything written and as many cells
/// sent as its tail asks for.
pub proof fn law_flows_outlast_their_tail(flow: FlowState, now: Instant)
    requires
        flow.wf(),
        flow.over(now),
    ensures
        flow.reader_done,
        flow.tail is Some ==> now.nanos >= flow.tail->Some_0.0.nanos,
        now.nanos < flow.finish_by->Some_0.nanos ==> flow.drained(),
        now.nanos < flow.finish_by->Some_0.nanos && flow.tail is Some ==> flow.wire_seq
            >= flow.tail->Some_0.1,
{
}

/// A flow whose reader is done ends at its backstop at the latest, even if what
/// waits cannot be written.
pub proof fn law_flows_end_at_their_backstop(flow: FlowState, now: Instant)
    requires
        flow.wf(),
        flow.reader_done,
        now.nanos >= flow.finish_by->Some_0.nanos,
    ensures
        flow.over(now),
{
}

/// The wire does not tell what a flow carries: two flows whose clocks agree put
/// equally many bytes on the wire and have the same next slot, whatever waits
/// in their queues and whichever of their slots are cover.
pub proof fn law_the_wire_ignores_real_traffic(
    a: FlowState,
    b: FlowState,
    step: Duration,
    force_a: bool,
    force_b: bool,
    now: Instant,
)
    requires
        a.wf() && b.wf(),
        a.session.correlator.next_departure == b.session.correlator.next_departure,
        a.pending.len() == b.pending.len(),
    ensures
        a.emitted(step, force_a, now).pending.len() == b.emitted(step, force_b, now).pending.len(),
        a.emitted(step, force_a, now).session.correlator.next_departure == b.emitted(
            step,
            force_b,
            now,
        ).session.correlator.next_departure,
        a.session.correlator.due(now) ==> a.emitted(step, force_a, now).pending.len()
            == a.pending.len() + KIND_LEN + CELL_BYTES + TAG_LEN,
{
}

/// Real traffic enters a flow no faster than slots pass: before a slot a pull
/// is attempted once at most, and none after the reader is done or before real
/// traffic may flow.
pub proof fn law_pulls_are_paced_by_slots(flow: FlowState, gate_open: bool, pulled: bool, now: Instant)
    ensures
        flow.need(gate_open, pulled, now) == FlowNeed::Pull ==> !pulled && gate_open
            && !flow.reader_done && flow.session.correlator.due(now),
{
}

/// When a flow pulls: exactly when a slot is due that the wire has room for, no
/// pull was attempted since the last slot, the reader is not done, fewer packets
/// wait than may, and real traffic is not held back. Nothing else about the flow
/// matters, and least of all how much it has carried. A slot that is due and has
/// room always passes.
pub proof fn law_waiting_data_is_pulled(flow: FlowState, gate_open: bool, pulled: bool, now: Instant)
    ensures
        flow.need(gate_open, pulled, now) == FlowNeed::Pull <==> {
            &&& now.nanos >= flow.session.correlator.next_departure.nanos
            &&& flow.pending.len() < 65_536
            &&& !pulled
            &&& gate_open
            &&& !flow.reader_done
            &&& flow.session.correlator.queue.len()
                < flow.session.correlator.config.max_queue_depth
        },
        flow.need(gate_open, pulled, now) == FlowNeed::Nothing <==> now.nanos
            < flow.session.correlator.next_departure.nanos || flow.pending.len() >= 65_536,
        now.nanos >= flow.session.correlator.next_departure.nanos && flow.pending.len() < 65_536
            ==> flow.need(gate_open, true, now) == FlowNeed::Slot,
{
}

/// What a cell that is handed over changes: it waits behind all others, if there
/// is space, and its data adds to the count of real bytes. Nothing leaves, and
/// the clock stays.
pub proof fn law_cells_wait_their_turn(flow: FlowState, cell: Seq<u8>, now: Instant)
    requires
        flow.wf(),
        cell.len() == CELL_BYTES,
        decoded_cell(cell).1.len() + flow.real_bytes <= u64::MAX,
    ensures
        ({
            let before = flow.session.correlator;
            let after = flow.cell_taken(cell, now).session.correlator;
            let space = before.queue.len() < before.config.max_queue_depth;
            &&& space ==> after.queue == before.queue.push(cell)
            &&& !space ==> after.queue == before.queue
            &&& flow.cell_taken(cell, now).real_bytes == flow.real_bytes + if space {
                decoded_cell(cell).1.len()
            } else {
                0
            }
            &&& after.next_departure == before.next_departure
            &&& flow.cell_taken(cell, now).pending == flow.pending
            &&& flow.cell_taken(cell, now).wire_seq == flow.wire_seq
        }),
{
    assert(cell.take(CELL_BYTES as int) =~= cell);
    let config = flow.session.composer.config;
    assert(config.cell_bytes == Some(CELL_BYTES));
}

/// What a slot that is due sends: the oldest packet that waits, unless the slot is
/// forced to be cover, and cover where none waits. What goes to the wire is that
/// cell, sealed as the next frame, behind what waits there already.
pub proof fn law_slots_send_the_oldest_cell(flow: FlowState, step: Duration, force_dummy: bool, now: Instant)
    requires
        flow.wf(),
        now.nanos >= flow.session.correlator.next_departure.nanos,
        flow.wire_seq < u64::MAX,
        flow.session.correlator.queue.len() > 0 ==> flow.session.correlator.queue[0].len()
            == CELL_BYTES,
    ensures
        ({
            let queue = flow.session.correlator.queue;
            let after = flow.emitted(step, force_dummy, now);
            &&& !force_dummy && queue.len() > 0 ==> {
                &&& after.pending == flow.pending + flow.cipher.sealed(KIND_REAL, queue[0])
                &&& after.session.correlator.queue == queue.drop_first()
            }
            &&& force_dummy || queue.len() == 0 ==> {
                &&& exists|cover: Seq<u8>|
                    cover.len() == CELL_BYTES && after.pending == flow.pending
                        + #[trigger] flow.cipher.sealed(KIND_DUMMY, cover)
                &&& after.session.correlator.queue == queue
            }
            &&& after.wire_seq == flow.wire_seq + 1
            &&& after.real_bytes == flow.real_bytes
            &&& after.cipher.key == flow.cipher.key
            &&& flow.cipher.counter < u64::MAX ==> after.cipher.counter == flow.cipher.counter + 1
        }),
{
    let queue = flow.session.correlator.queue;
    if !force_dummy && queue.len() > 0 {
        assert(queue[0].take(CELL_BYTES as int) =~= queue[0]);
    } else {
        let cover = flow.session.correlator.rng.bytes(CELL_BYTES as nat);
        assert(flow.emitted(step, force_dummy, now).pending == flow.pending + flow.cipher.sealed(
            KIND_DUMMY,
            cover,
        ));
    }
}

/// When a flow is over: its reader is done, and either nothing waits any more,
/// in its queue or for the wire, while its tail has lasted and sent what it owes,
/// or its backstop has passed.
pub proof fn law_flows_end_when_drained(flow: FlowState, now: Instant)
    requires
        flow.wf(),
    ensures
        flow.over(now) <==> flow.reader_done && ({
            ||| now.nanos >= flow.finish_by->Some_0.nanos
            ||| {
                &&& flow.session.correlator.queue.len() == 0
                &&& flow.pending.len() == 0
                &&& flow.tail is None || (now.nanos >= flow.tail->Some_0.0.nanos && flow.wire_seq
                    >= flow.tail->Some_0.1)
            }
        }),
{
}

/// The end of real traffic: the backstop comes five seconds after the tail's
/// deadline, or after now where there is no tail, and nothing that waits is lost.
pub proof fn law_backstops_lie_behind_the_tail(flow: FlowState, now: Instant)
    requires
        tail_fits(flow.policy, flow.session_start, now),
    ensures
        ({
            let after = flow.reader_gone(now);
            &&& after.reader_done
            &&& after.finish_by is Some
            &&& flow.policy == TailPolicy::Off <==> after.tail is None
            &&& after.tail is None ==> after.finish_by->Some_0.nanos == now.nanos + 5_000_000_000
            &&& after.tail is Some ==> after.finish_by->Some_0.nanos
                == after.tail->Some_0.0.nanos + 5_000_000_000
            &&& after.session == flow.session
            &&& after.pending == flow.pending
        }),
{
    lemma_tail_fits(flow, now);
}

/// A tail and its backstop can be told.
proof fn lemma_tail_fits(flow: FlowState, now: Instant)
    requires
        tail_fits(flow.policy, flow.session_start, now),
    ensures
        tail_of(
            flow.real_bytes as nat,
            flow.wire_seq,
            flow.policy,
            flow.thresholds,
            flow.session_start,
            now,
        ) matches Some((at, _)) ==> 0 <= at && at + BACKSTOP_SECS * NANOS_PER_SEC <= u128::MAX,
{
    let class = class_under(flow.thresholds, flow.real_bytes as nat);
    assert(targets_of(class).0.nanos <= 7_200 * NANOS_PER_SEC);
    if let TailPolicy::Epoch(clock) = flow.policy {
        let floor = flow.session_start.nanos + targets_of(class).0.nanos;
        let anchor = if floor > now.nanos {
            floor
        } else {
            now.nanos as int
        };
        assert(clock.boundary(anchor) + 7_205 * NANOS_PER_SEC <= u128::MAX);
        let n = clock.length() as int;
        if n > 0 {
            let elapsed = if anchor >= clock.start() {
                anchor - clock.start()
            } else {
                0
            };
            let q = elapsed / n;
            assert(0 <= (q + 1) * n) by (nonlinear_arith)
                requires
                    q >= 0,
                    n > 0,
            ;
        }
    }
}

/// The tail of a session by class lasts as long, and sends as many cells, as its
/// class asks for: half a minute and 64 KiB up to the first boundary, five
/// minutes and 1 MiB up to the second, half an hour and 16 MiB up to the third,
/// and two hours and 256 MiB beyond. All of the real bytes count.
pub proof fn law_tails_follow_the_class(
    real_bytes: nat,
    wire_seq: u64,
    thresholds: FuzzedClassThresholds,
    start: Instant,
    now: Instant,
)
    requires
        thresholds.wf(),
    ensures
        ({
            let tail = tail_of(real_bytes, wire_seq, TailPolicy::ByClass, thresholds, start, now);
            &&& tail is Some
            &&& real_bytes <= thresholds.short_bound() ==> tail->Some_0.0 == start.nanos
                + 30_000_000_000 && tail->Some_0.1 == 127
            &&& thresholds.short_bound() < real_bytes <= thresholds.medium_bound()
                ==> tail->Some_0.0 == start.nanos + 300_000_000_000 && tail->Some_0.1 == 2_040
            &&& thresholds.medium_bound() < real_bytes <= thresholds.long_bound()
                ==> tail->Some_0.0 == start.nanos + 1_800_000_000_000 && tail->Some_0.1
                == 32_640
            &&& thresholds.long_bound() < real_bytes ==> tail->Some_0.0 == start.nanos
                + 7_200_000_000_000 && tail->Some_0.1 == 522_247
        }),
{
}

/// A tail by epochs ends at the end of an epoch, after now, and not before the
/// session has lasted as long as its class asks for: half a minute, five minutes
/// beyond the first boundary, half an hour beyond the second, and two hours
/// beyond the third. It ends with the first epoch that allows this.
pub proof fn law_epoch_tails_last_as_long_as_their_class(
    real_bytes: nat,
    wire_seq: u64,
    clock: EpochClock,
    thresholds: FuzzedClassThresholds,
    start: Instant,
    now: Instant,
)
    requires
        thresholds.wf(),
        clock.length() > 0,
        clock.start() <= start.nanos,
        clock.start() <= now.nanos,
    ensures
        ({
            let tail = tail_of(real_bytes, wire_seq, TailPolicy::Epoch(clock), thresholds, start, now);
            let end = tail->Some_0.0;
            let least: int = if real_bytes <= thresholds.short_bound() {
                30_000_000_000
            } else if real_bytes <= thresholds.medium_bound() {
                300_000_000_000
            } else if real_bytes <= thresholds.long_bound() {
                1_800_000_000_000
            } else {
                7_200_000_000_000
            };
            &&& tail is Some
            &&& tail->Some_0.1 == 0
            &&& end > now.nanos
            &&& end > start.nanos + least
            &&& end <= now.nanos + clock.length() || end <= start.nanos + least + clock.length()
            &&& (end - clock.start()) % clock.length() as int == 0
        }),
{
    let floor = start.nanos + targets_of(class_under(thresholds, real_bytes)).0.nanos;
    law_boundaries_are_ahead_and_aligned(
        clock,
        if floor > now.nanos {
            floor
        } else {
            now.nanos as int
        },
    );
}

/// A fixed tail lasts until the session has its age, and fills what was sent up to
/// the next multiple of 256 cells, by less than 256 of them. Without a tail there
/// is nothing to wait for.
pub proof fn law_fixed_tails_fill_up(
    real_bytes: nat,
    wire_seq: u64,
    age: Duration,
    thresholds: FuzzedClassThresholds,
    start: Instant,
    now: Instant,
)
    requires
        wire_seq <= u64::MAX - 255,
    ensures
        ({
            let tail = tail_of(real_bytes, wire_seq, TailPolicy::Fixed(age), thresholds, start, now);
            &&& tail is Some
            &&& tail->Some_0.0 == start.nanos + age.nanos
            &&& tail->Some_0.1 % 256 == 0
            &&& wire_seq <= tail->Some_0.1 < wire_seq + 256
        }),
        tail_of(real_bytes, wire_seq, TailPolicy::Off, thresholds, start, now) is None,
{
}

/// More real traffic never shortens a tail.
pub proof fn law_more_traffic_never_shortens_a_tail(
    fewer: nat,
    more: nat,
    wire_seq: u64,
    policy: TailPolicy,
    thresholds: FuzzedClassThresholds,
    start: Instant,
    now: Instant,
)
    requires
        thresholds.wf(),
        fewer <= more,
    ensures
        ({
            let a = tail_of(fewer, wire_seq, policy, thresholds, start, now);
            let b = tail_of(more, wire_seq, policy, thresholds, start, now);
            &&& a is Some <==> b is Some
            &&& a is Some ==> a->Some_0.0 <= b->Some_0.0 && a->Some_0.1 <= b->Some_0.1
        }),
{
    if let TailPolicy::Epoch(clock) = policy {
        let n = clock.length() as int;
        let floor_a = start.nanos + targets_of(class_under(thresholds, fewer)).0.nanos;
        let floor_b = start.nanos + targets_of(class_under(thresholds, more)).0.nanos;
        let a = if floor_a > now.nanos {
            floor_a
        } else {
            now.nanos as int
        };
        let b = if floor_b > now.nanos {
            floor_b
        } else {
            now.nanos as int
        };
        assert(floor_a <= floor_b);
        if n > 0 {
            let x = if a >= clock.start() {
                a - clock.start()
            } else {
                0
            };
            let y = if b >= clock.start() {
                b - clock.start()
            } else {
                0
            };
            vstd::arithmetic::div_mod::lemma_div_is_ordered(x, y, n);
            assert((x / n + 1) * n <= (y / n + 1) * n) by (nonlinear_arith)
                requires
                    x / n <= y / n,
                    n > 0,
            ;
        }
    }
}

/// A slot of a flow whose wire takes all that waits for it, and whose real traffic
/// is not held back.
pub struct Round {
    pub step: Duration,
    pub force_dummy: bool,
    pub now: Instant,
}

/// A flow with the cells that its reader has for it, and what has left: the kind
/// and the cell of each frame.
pub struct FlowRun {
    pub flow: FlowState,
    pub waiting: Seq<Seq<u8>>,
    pub left: Seq<(u8, Seq<u8>)>,
}

impl FlowRun {
    /// The run once the flow has taken what it needs from its reader.
    pub open spec fn pulled(self, now: Instant) -> FlowRun {
        let ready = FlowState { pending: Seq::empty(), ..self.flow };
        if ready.need(true, false, now) != FlowNeed::Pull {
            FlowRun { flow: ready, ..self }
        } else if self.waiting.len() > 0 {
            FlowRun {
                flow: ready.cell_taken(self.waiting[0], now),
                waiting: self.waiting.drop_first(),
                ..self
            }
        } else {
            FlowRun { flow: ready.reader_gone(now), ..self }
        }
    }

    /// The run after a slot. A reader that has no more cells is done.
    #[verifier::opaque]
    pub open spec fn after(self, r: Round) -> FlowRun {
        let run = self.pulled(r.now);
        if run.flow.need(true, true, r.now) == FlowNeed::Slot {
            FlowRun {
                flow: run.flow.emitted(r.step, r.force_dummy, r.now),
                left: match run.flow.session.ticked(r.step, r.force_dummy, r.now).0 {
                    Some(f) => run.left.push(kind_and_cell(f)),
                    None => run.left,
                },
                ..run
            }
        } else {
            run
        }
    }

    /// The run after many slots.
    pub open spec fn run(self, rounds: Seq<Round>) -> FlowRun
        decreases rounds.len(),
    {
        if rounds.len() == 0 {
            self
        } else {
            self.run(rounds.drop_last()).after(rounds.last())
        }
    }

    /// The flow sends cells, and only cells wait.
    pub open spec fn wf(self) -> bool {
        &&& self.flow.wf()
        &&& only_cells(self.waiting)
        &&& only_cells(self.flow.session.correlator.queue)
        &&& self.flow.reader_done ==> self.waiting.len() == 0
    }

    /// Cells that have not left yet.
    pub open spec fn owed(self) -> Seq<Seq<u8>> {
        self.flow.session.correlator.queue + self.waiting
    }
}

/// Whether all of these are cells.
pub open spec fn only_cells(cells: Seq<Seq<u8>>) -> bool {
    forall|i: int| 0 <= i < cells.len() ==> (#[trigger] cells[i]).len() == 514
}

/// The cells of the real frames among these, in order.
pub open spec fn real_cells(left: Seq<(u8, Seq<u8>)>) -> Seq<Seq<u8>>
    decreases left.len(),
{
    if left.len() == 0 {
        Seq::empty()
    } else if left.last().0 == KIND_REAL {
        real_cells(left.drop_last()).push(left.last().1)
    } else {
        real_cells(left.drop_last())
    }
}

/// One slot that is due: what was owed is owed still, but for one cell that leaves
/// unless the slot is forced to be cover.
proof fn lemma_round(run: FlowRun, r: Round)
    requires
        run.wf(),
        tail_fits(run.flow.policy, run.flow.session_start, r.now),
    ensures
        run.after(r).wf(),
        run.after(r).flow.policy == run.flow.policy,
        run.after(r).flow.session_start == run.flow.session_start,
        real_cells(run.after(r).left) + run.after(r).owed() == real_cells(run.left) + run.owed(),
        r.now.nanos >= run.flow.session.correlator.next_departure.nanos && !r.force_dummy
            && run.owed().len() > 0 ==> run.after(r).owed().len() == run.owed().len() - 1,
        run.after(r).owed().len() <= run.owed().len(),
        r.now.nanos >= run.flow.session.correlator.next_departure.nanos && run.owed().len() == 0
            ==> run.after(r).flow.reader_done,
        r.now.nanos >= run.flow.session.correlator.next_departure.nanos ==> run.after(r).left.len()
            == run.left.len() + 1,
{
    reveal(FlowRun::after);
    let ready = FlowState { pending: Seq::empty(), ..run.flow };
    let mid = run.pulled(r.now);
    let due = r.now.nanos >= run.flow.session.correlator.next_departure.nanos;
    if ready.need(true, false, r.now) == FlowNeed::Pull {
        if run.waiting.len() > 0 {
            let cell = run.waiting[0];
            assert(cell.len() == CELL_BYTES);
            assert(cell.take(CELL_BYTES as int) =~= cell);
            assert(ready.session.composer.config.cell_bytes == Some(CELL_BYTES));
            let queue = mid.flow.session.correlator.queue;
            assert(queue == ready.session.correlator.queue.push(cell));
            assert(mid.owed() =~= run.owed());
            assert forall|i: int| 0 <= i < queue.len() implies (#[trigger] queue[i]).len() == 514 by {
                if i < run.flow.session.correlator.queue.len() {
                    assert(queue[i] == run.flow.session.correlator.queue[i]);
                }
            }
            assert forall|i: int| 0 <= i < mid.waiting.len() implies (#[trigger] mid.waiting[i]).len()
                == 514 by {
                assert(mid.waiting[i] == run.waiting[i + 1]);
            }
        } else {
            lemma_reader_gone_keeps(ready, r.now);
            assert(mid.owed() =~= run.owed());
        }
    } else {
        assert(mid.owed() =~= run.owed());
    }
    assert(mid.wf());
    assert(mid.flow.session.correlator.next_departure
        == run.flow.session.correlator.next_departure);
    if due {
        let queue = mid.flow.session.correlator.queue;
        let after = run.after(r);
        let (frame, session) = mid.flow.session.ticked(r.step, r.force_dummy, r.now);
        assert(after.left.drop_last() =~= run.left);
        if !r.force_dummy && queue.len() > 0 {
            assert(queue[0].len() == CELL_BYTES);
            assert(queue[0].take(CELL_BYTES as int) =~= queue[0]);
            assert(after.left.last() == (KIND_REAL, queue[0]));
            assert(after.flow.session.correlator.queue == queue.drop_first());
            let rest = after.flow.session.correlator.queue;
            assert forall|i: int| 0 <= i < rest.len() implies (#[trigger] rest[i]).len() == 514 by {
                assert(rest[i] == queue[i + 1]);
            }
            assert(real_cells(run.left).push(queue[0]) + after.owed() =~= real_cells(run.left)
                + mid.owed());
        } else {
            assert(after.owed() =~= mid.owed());
        }
    }
}

/// The tail is set so that the flow stays well-formed.
proof fn lemma_reader_gone_keeps(flow: FlowState, now: Instant)
    requires
        flow.wf(),
        tail_fits(flow.policy, flow.session_start, now),
    ensures
        flow.reader_gone(now).wf(),
        flow.reader_gone(now).session == flow.session,
{
    lemma_tail_fits(flow, now);
}

/// All cells leave, in order. Over a run of slots that are due, with none forced
/// to be cover, each slot takes one cell off what is owed, whatever the flow has
/// carried before; so what left, followed by what is still owed, is always what
/// was owed at first, and once there were as many slots as cells, nothing is owed.
/// A slot later the end of the stream is noticed.
pub proof fn law_all_cells_leave_in_order(run: FlowRun, rounds: Seq<Round>)
    requires
        run.wf(),
        forall|i: int|
            0 <= i < rounds.len() ==> {
                let r = #[trigger] rounds[i];
                &&& !r.force_dummy
                &&& tail_fits(run.flow.policy, run.flow.session_start, r.now)
                &&& r.now.nanos
                    >= run.run(rounds.take(i)).flow.session.correlator.next_departure.nanos
            },
    ensures
        run.run(rounds).wf(),
        run.run(rounds).flow.policy == run.flow.policy,
        run.run(rounds).flow.session_start == run.flow.session_start,
        real_cells(run.run(rounds).left) + run.run(rounds).owed() == real_cells(run.left)
            + run.owed(),
        run.run(rounds).left.len() == run.left.len() + rounds.len(),
        run.run(rounds).owed().len() == if rounds.len() < run.owed().len() {
            run.owed().len() - rounds.len()
        } else {
            0
        },
        rounds.len() >= run.owed().len() ==> real_cells(run.run(rounds).left) == real_cells(
            run.left,
        ) + run.owed(),
        rounds.len() > run.owed().len() ==> run.run(rounds).flow.reader_done,
    decreases rounds.len(),
{
    if rounds.len() == 0 {
        assert(rounds =~= Seq::empty());
        if run.owed().len() == 0 {
            assert(real_cells(run.left) + run.owed() =~= real_cells(run.left));
        }
    } else {
        let before = rounds.drop_last();
        assert forall|i: int| 0 <= i < before.len() implies {
            let r = #[trigger] before[i];
            &&& !r.force_dummy
            &&& tail_fits(run.flow.policy, run.flow.session_start, r.now)
            &&& r.now.nanos >= run.run(before.take(i)).flow.session.correlator.next_departure.nanos
        } by {
            assert(before[i] == rounds[i]);
            assert(before.take(i) =~= rounds.take(i));
        }
        law_all_cells_leave_in_order(run, before);
        let mid = run.run(before);
        let r = rounds[rounds.len() - 1];
        assert(rounds.take(rounds.len() - 1) =~= before);
        lemma_round(mid, r);
        let end = run.run(rounds);
        if end.owed().len() == 0 {
            assert(real_cells(end.left) + end.owed() =~= real_cells(end.left));
        }
    }
}

} // verus!
