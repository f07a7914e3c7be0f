use mixtor::cells::{encode_real_cell, padding_rng, CELL_BYTES};
use mixtor::clock::{Duration, Instant};
use mixtor::composition::ShapedSession;
use mixtor::crypto::{enc_frame_len, FrameCipher, KIND_DUMMY, KIND_REAL};
use mixtor::flow::{
    shaped_composition_config, tail_targets, Flow, FlowNeed, Pulled, Wrote, PENDING_CAP,
};
use mixtor::seeds::SessionSeeds;
use mixtor::session_bounder::FuzzedClassThresholds;
use mixtor::timing_correlator::ClockChecks;
use mixtor::transport::{EpochClock, TailPolicy};

const FINE: ClockChecks = ClockChecks {
    initial_iat_positive: true,
    ema_alpha_in_range: true,
    min_iat_positive: true,
    min_iat_below_max: true,
    min_dummy_fraction_in_range: true,
};

fn start() -> Instant {
    Instant::from_nanos(4_000_000_000)
}

fn at(ms: u64) -> Instant {
    start().after(Duration::from_millis(ms))
}

fn thresholds() -> FuzzedClassThresholds {
    FuzzedClassThresholds::from_draws(65_536, 1_048_576, 16_777_216)
}

fn flow(policy: TailPolicy, hold: Instant) -> Flow {
    let seeds = SessionSeeds::generate(start()).ok().unwrap();
    let session = ShapedSession::new(
        seeds.burst_composition(),
        shaped_composition_config(),
        FINE,
        true,
        100,
        start(),
    )
    .ok()
    .unwrap();
    let mut f =
        Flow::new(session, FrameCipher::new([1u8; 32]), policy, thresholds(), start(), hold);
    f.start_clock(Duration::from_millis(1), start());
    f
}

fn step() -> Duration {
    Duration::from_millis(1)
}

#[test]
fn every_slot_puts_one_sealed_frame_on_the_wire() {
    let mut f = flow(TailPolicy::Off, start());
    let mut open = FrameCipher::new([1u8; 32]);
    let cell = encode_real_cell(3, b"payload", &mut padding_rng());
    f.pull(Pulled::Cell(cell.clone()), at(1));
    let first = f.emit(step(), false, at(1)).unwrap();
    assert!(first.is_real);
    assert_eq!((first.seq, first.len), (0, CELL_BYTES));
    let second = f.emit(step(), false, at(2)).unwrap();
    assert!(!second.is_real);
    assert_eq!(second.seq, 1);
    assert!(f.emit(step(), false, at(2)).is_none(), "no slot is due");
    let size = enc_frame_len(CELL_BYTES);
    assert_eq!(f.pending().len(), 2 * size);
    assert_eq!(open.open(&f.pending()[..size]).unwrap(), (KIND_REAL, cell));
    assert_eq!(open.open(&f.pending()[size..]).unwrap().0, KIND_DUMMY);
}

#[test]
fn cells_are_pulled_once_a_slot() {
    let f = flow(TailPolicy::Off, start());
    assert_eq!(f.need(true, false, start()), FlowNeed::Nothing);
    assert_eq!(f.need(true, false, at(1)), FlowNeed::Pull);
    assert_eq!(f.need(true, true, at(1)), FlowNeed::Slot);
    assert_eq!(f.need(false, false, at(1)), FlowNeed::Slot);
}

#[test]
fn real_traffic_is_held_back() {
    let f = flow(TailPolicy::Off, at(50));
    assert!(!f.gate_open(at(49)));
    assert!(f.gate_open(at(50)));
}

#[test]
fn a_congested_wire_stops_slots() {
    let mut f = flow(TailPolicy::Off, start());
    let mut now = 1u64;
    while f.pending().len() < PENDING_CAP {
        assert!(f.emit(step(), false, at(now)).is_some());
        now += 1;
    }
    assert_eq!(f.need(true, false, at(now + 10)), FlowNeed::Nothing);
    let waiting = f.pending().len();
    assert!(f.wrote(Wrote::Blocked));
    assert_eq!(f.pending().len(), waiting);
    assert!(f.wrote(Wrote::Bytes(1_000)));
    assert_eq!(f.pending().len(), waiting - 1_000);
    assert_eq!(f.need(true, true, at(now + 10)), FlowNeed::Slot);
    assert!(!f.wrote(Wrote::Bytes(0)), "a wire that takes nothing is closed");
    assert!(!f.wrote(Wrote::Broken));
}

#[test]
fn flows_end_once_drained_without_a_tail() {
    let mut f = flow(TailPolicy::Off, start());
    assert!(!f.is_over(at(100_000)), "the reader is not done");
    let cell = encode_real_cell(0, b"x", &mut padding_rng());
    f.pull(Pulled::Cell(cell), at(1));
    f.pull(Pulled::Disconnected, at(1));
    assert!(!f.is_over(at(1)), "a packet still waits");
    let _ = f.emit(step(), false, at(1));
    assert!(!f.is_over(at(1)), "a frame still waits for the wire");
    let n = f.pending().len();
    assert!(f.wrote(Wrote::Bytes(n)));
    assert!(f.is_over(at(1)));
    assert_eq!(f.need(true, false, at(2)), FlowNeed::Slot, "nothing is pulled any more");
}

#[test]
fn flows_are_given_up_after_a_grace_period() {
    let mut f = flow(TailPolicy::Off, start());
    let cell = encode_real_cell(0, b"x", &mut padding_rng());
    f.pull(Pulled::Cell(cell), at(1));
    f.pull(Pulled::Disconnected, at(1));
    assert!(!f.is_over(at(5_000)));
    assert!(f.is_over(at(5_001)));
}

#[test]
fn fixed_tails_last_and_fill_up() {
    let mut f = flow(TailPolicy::Fixed(Duration::from_secs(2)), start());
    let _ = f.emit(step(), false, at(1));
    let n = f.pending().len();
    f.wrote(Wrote::Bytes(n));
    f.pull(Pulled::Disconnected, at(2));
    assert!(!f.is_over(at(1_999)));
    assert!(!f.is_over(at(2_000)), "256 cells are owed");
    for ms in 2u64..257 {
        let _ = f.emit(step(), false, at(ms));
        let n = f.pending().len();
        f.wrote(Wrote::Bytes(n));
    }
    assert!(!f.is_over(at(1_999)));
    assert!(f.is_over(at(2_000)));
}

#[test]
fn tails_follow_the_policy() {
    let t = thresholds();
    let none = tail_targets(10, 3, &TailPolicy::Off, &t, start(), at(9));
    assert_eq!(none, None);
    let fixed = TailPolicy::Fixed(Duration::from_millis(700));
    assert_eq!(tail_targets(10, 256, &fixed, &t, start(), at(9)), Some((at(700), 256)));
    assert_eq!(tail_targets(10, 257, &fixed, &t, start(), at(9)), Some((at(700), 512)));
    assert_eq!(tail_targets(10, 0, &fixed, &t, start(), at(9)), Some((at(700), 0)));
    assert_eq!(
        tail_targets(10, u64::MAX, &fixed, &t, start(), at(9)),
        Some((at(700), u64::MAX - 255))
    );
    assert_eq!(
        tail_targets(10, 3, &TailPolicy::ByClass, &t, start(), at(9)),
        Some((at(30_000), 127))
    );
    let epochs = TailPolicy::Epoch(EpochClock::new(Duration::from_secs(7), start()));
    assert_eq!(tail_targets(10, 3, &epochs, &t, start(), at(9)), Some((at(35_000), 0)));
    assert_eq!(tail_targets(10, 3, &epochs, &t, start(), at(90_000)), Some((at(91_000), 0)));
}

#[test]
fn the_clock_is_started_once() {
    let mut f = flow(TailPolicy::Off, start());
    assert!(f.clock_started());
    f.start_clock(Duration::from_secs(9), at(1));
    assert_eq!(f.need(true, true, at(1)), FlowNeed::Slot);
}
