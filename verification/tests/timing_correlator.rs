use mixtor::clock::{Duration, Instant};
use mixtor::clumping::Packet;
use mixtor::composition::MixedFrame;
use mixtor::rng::SeededRng;
use mixtor::timing_correlator::{
    drain_ready, ClockChecks, TimingCorrelator, TimingCorrelatorConfig, TimingCorrelatorError,
};

const FINE: ClockChecks = ClockChecks {
    initial_iat_positive: true,
    ema_alpha_in_range: true,
    min_iat_positive: true,
    min_iat_below_max: true,
    min_dummy_fraction_in_range: true,
};

fn start() -> Instant {
    Instant::from_nanos(10_000_000_000)
}

/// Settings of a clock that are real numbers.
struct Clock {
    mean_ms: f64,
    min_ms: f64,
    max_ms: f64,
    dummy_fraction: f64,
}

impl Clock {
    fn step(&self, rng: &mut SeededRng) -> Duration {
        let u = ((rng.next_u64() >> 11) as f64 / (1u64 << 53) as f64).max(f64::EPSILON);
        let ms = (-self.mean_ms * u.ln()).clamp(self.min_ms, self.max_ms);
        Duration::from_micros((ms * 1_000.0).round() as u64)
    }

    fn force(&self, rng: &mut SeededRng) -> bool {
        self.dummy_fraction > 0.0
            && ((rng.next_u64() >> 11) as f64 / (1u64 << 53) as f64) < self.dummy_fraction
    }
}

fn correlator(config: TimingCorrelatorConfig, seed: u8, clock: &Clock) -> TimingCorrelator {
    let rng = SeededRng::new([seed; 32]);
    let mut tc = TimingCorrelator::new(config, FINE, rng, start()).ok().unwrap();
    let step = clock.step(tc.rng());
    tc.advance_clock(step, start());
    tc
}

fn config(depth: usize) -> TimingCorrelatorConfig {
    TimingCorrelatorConfig { cell_bytes: 514, max_queue_depth: depth, adapt_rate: true }
}

fn fast() -> Clock {
    Clock { mean_ms: 1.0, min_ms: 1.0, max_ms: 2.0, dummy_fraction: 0.0 }
}

fn drain(tc: &mut TimingCorrelator, clock: &Clock, now: Instant) -> Vec<MixedFrame> {
    let mut out = Vec::new();
    while tc.slot_ready(now) {
        let step = clock.step(tc.rng());
        let force = clock.force(tc.rng());
        out.extend(tc.tick(step, force, now));
    }
    out
}

fn pkt(byte: u8) -> Packet {
    Packet::new(vec![byte; 200]).unwrap()
}

#[test]
fn tick_returns_none_before_slot() {
    let clock = Clock { mean_ms: 10_000.0, min_ms: 1.0, max_ms: 100_000.0, dummy_fraction: 0.0 };
    let mut tc = correlator(config(64), 99, &clock);
    assert!(!tc.slot_ready(start()), "slot should not be ready immediately after construction");
    let before = tc.next_departure();
    assert!(tc.tick(Duration::from_millis(1), false, start()).is_none());
    assert_eq!(tc.next_departure(), before);
}

#[test]
fn dummy_emitted_when_queue_empty() {
    let clock = Clock { max_ms: 5.0, ..fast() };
    let mut tc = correlator(config(64), 1, &clock);
    let now = start().after(Duration::from_millis(6));
    let frame = tc.tick(Duration::from_millis(1), false, now).expect("slot should have fired");
    assert!(frame.is_dummy(), "empty queue must produce a dummy frame");
    assert_eq!(frame.len(), 514, "dummy must be exactly cell_bytes");
}

#[test]
fn real_packet_replaces_dummy_slot() {
    let clock = Clock { max_ms: 5.0, ..fast() };
    let mut tc = correlator(config(64), 2, &clock);
    tc.inject_real(pkt(0xAB), start()).unwrap();
    assert_eq!(tc.queue_depth(), 1);
    let now = start().after(Duration::from_millis(6));
    let frame = tc.tick(Duration::from_millis(1), false, now).expect("slot should have fired");
    assert!(frame.is_real(), "queued real packet should replace dummy slot");
    assert_eq!(frame.len(), 514, "real frame must be padded to cell_bytes");
    assert_eq!(tc.queue_depth(), 0, "queue should be drained");
    if let MixedFrame::Real(p) = frame {
        assert_eq!(&p.bytes()[..200], &[0xABu8; 200][..]);
        assert!(p.bytes()[200..].iter().any(|&b| b != p.bytes()[200]), "padding is random");
    }
}

#[test]
fn all_frames_are_cell_size() {
    let mut tc = correlator(config(64), 3, &fast());
    for size in [10usize, 200, 514, 400] {
        tc.inject_real(Packet::new(vec![0u8; size]).unwrap(), start()).unwrap();
    }
    let frames = drain(&mut tc, &fast(), start().after(Duration::from_millis(20)));
    assert!(!frames.is_empty(), "should have emitted frames within 20ms");
    for frame in &frames {
        assert_eq!(frame.len(), 514, "every frame must be exactly cell_bytes");
    }
}

#[test]
fn queue_full_returns_error() {
    let clock = Clock { mean_ms: 100_000.0, min_ms: 1.0, max_ms: 200_000.0, dummy_fraction: 0.0 };
    let mut tc = correlator(
        TimingCorrelatorConfig { max_queue_depth: 3, ..TimingCorrelatorConfig::default() },
        4,
        &clock,
    );
    assert!(tc.inject_real(pkt(1), start()).is_ok());
    assert!(tc.inject_real(pkt(2), start()).is_ok());
    assert!(tc.inject_real(pkt(3), start()).is_ok());
    assert!(!tc.has_queue_space());
    let refused = tc.inject_real(pkt(4), start());
    assert_eq!(refused, Err(TimingCorrelatorError::QueueFull));
    assert_eq!(tc.queue_depth(), 3);
    assert_eq!(
        TimingCorrelatorError::QueueFull.message(),
        "real packet queue is full — apply back-pressure"
    );
}

#[test]
fn real_packets_emitted_in_fifo_order() {
    let mut tc = correlator(config(64), 5, &fast());
    for b in 1u8..=5 {
        tc.inject_real(Packet::new(vec![b; 100]).unwrap(), start()).unwrap();
    }
    let frames = drain(&mut tc, &fast(), start().after(Duration::from_millis(15)));
    let real_first_bytes: Vec<u8> = frames
        .iter()
        .filter_map(|f| match f {
            MixedFrame::Real(p) => Some(p.bytes()[0]),
            MixedFrame::Dummy(_) => None,
        })
        .collect();
    assert_eq!(
        real_first_bytes,
        vec![1, 2, 3, 4, 5],
        "real packets must be emitted in FIFO order"
    );
}

#[test]
fn dummy_floor_keeps_cover_under_saturation() {
    let clock = Clock { dummy_fraction: 0.25, ..fast() };
    let mut tc = correlator(
        TimingCorrelatorConfig { max_queue_depth: 100_000, adapt_rate: false, ..config(1) },
        21,
        &clock,
    );
    for _ in 0..5_000 {
        let _ = tc.inject_real(pkt(1), start());
    }
    let frames = drain(&mut tc, &clock, start().after(Duration::from_millis(30)));
    assert!(!frames.is_empty(), "should have emitted frames in 30ms");
    let dummies = frames.iter().filter(|f| f.is_dummy()).count();
    assert!(
        dummies > 0,
        "dummy floor must keep cover alive under saturation; got {dummies} dummies of {} frames",
        frames.len()
    );
}

#[test]
fn catch_up_drains_backlog_after_idle_poll() {
    let mut tc = correlator(
        TimingCorrelatorConfig { adapt_rate: false, ..config(64) },
        55,
        &fast(),
    );
    let frames = drain(&mut tc, &fast(), start().after(Duration::from_millis(40)));
    assert!(
        frames.len() >= 10,
        "a 40 ms idle gap at a ~1 ms clock must drain a backlog of many slots, got {}",
        frames.len()
    );
}

fn refused_with(checks: ClockChecks) -> &'static str {
    match TimingCorrelatorConfig::default().validate(checks) {
        Err(TimingCorrelatorError::InvalidConfig(text)) => text,
        _ => "accepted",
    }
}

fn checks(alpha: f64, min_iat: f64, max_iat: f64, fraction: f64) -> ClockChecks {
    ClockChecks {
        initial_iat_positive: true,
        ema_alpha_in_range: alpha > 0.0 && alpha <= 1.0,
        min_iat_positive: min_iat > 0.0,
        min_iat_below_max: min_iat < max_iat,
        min_dummy_fraction_in_range: (0.0..1.0).contains(&fraction),
    }
}

#[test]
fn validate_rejects_out_of_range_dummy_fraction() {
    let text = "min_dummy_fraction must be in [0.0, 1.0)";
    assert_eq!(refused_with(checks(0.2, 5.0, 2000.0, 1.0)), text);
    assert_eq!(refused_with(checks(0.2, 5.0, 2000.0, -0.1)), text);
    assert_eq!(refused_with(checks(0.2, 5.0, 2000.0, 0.0)), "accepted");
}

#[test]
fn validate_rejects_zero_cell_size() {
    let c = TimingCorrelatorConfig { cell_bytes: 0, ..TimingCorrelatorConfig::default() };
    let e = c.validate(FINE).expect_err("cells must not be empty");
    assert_eq!(e.message(), "invalid TimingCorrelator config: cell_bytes must be non-zero");
}

#[test]
fn validate_rejects_bad_ema_alpha() {
    assert_eq!(refused_with(checks(0.0, 5.0, 2000.0, 0.0)), "ema_alpha must be in (0, 1]");
    assert_eq!(refused_with(checks(1.5, 5.0, 2000.0, 0.0)), "ema_alpha must be in (0, 1]");
}

#[test]
fn validate_rejects_inverted_iat_range() {
    assert_eq!(
        refused_with(checks(0.2, 500.0, 100.0, 0.0)),
        "min_iat_ms must be less than max_iat_ms"
    );
}

#[test]
fn the_other_clock_rules_are_named_in_order() {
    assert_eq!(
        refused_with(ClockChecks { initial_iat_positive: false, ..checks(0.0, 0.0, 0.0, 2.0) }),
        "initial_iat_ms must be positive"
    );
    assert_eq!(refused_with(checks(0.2, 0.0, 2000.0, 0.0)), "min_iat_ms must be positive");
    let c = TimingCorrelatorConfig { max_queue_depth: 0, ..TimingCorrelatorConfig::default() };
    let e = c.validate(checks(0.2, 5.0, 2000.0, 2.0)).expect_err("the queue must hold something");
    assert_eq!(e, TimingCorrelatorError::InvalidConfig("max_queue_depth must be non-zero"));
    assert_eq!(TimingCorrelatorConfig::default().cell_bytes, 514);
    assert_eq!(TimingCorrelatorConfig::default().max_queue_depth, 256);
}

#[test]
fn a_long_stall_is_forgiven() {
    let mut tc = correlator(config(64), 6, &fast());
    let step = Duration::from_millis(10);
    let due = tc.next_departure();
    // Within the permitted lag the schedule goes on from where it was.
    let late = due.after(Duration::from_millis(210));
    assert!(tc.tick(step, false, late).is_some());
    assert_eq!(tc.next_departure(), due.after(step));
    // Beyond it the schedule starts from now.
    let too_late = due.after(Duration::from_millis(221));
    assert!(tc.tick(step, false, too_late).is_some());
    assert_eq!(tc.next_departure(), too_late.after(step));
}

#[test]
fn restarting_the_clock_drops_what_was_due() {
    let mut tc = correlator(config(64), 7, &fast());
    let now = start().after(Duration::from_secs(3));
    assert!(tc.slot_ready(now));
    tc.restart_clock(Duration::from_millis(4), now);
    assert!(!tc.slot_ready(now));
    assert_eq!(tc.next_departure(), now.after(Duration::from_millis(4)));
}

#[test]
fn queues_do_not_move_departures() {
    let mut busy = correlator(config(64), 8, &fast());
    let mut idle = correlator(config(64), 8, &fast());
    for b in 0u8..20 {
        busy.inject_real(pkt(b), start()).unwrap();
    }
    let now = start().after(Duration::from_millis(30));
    for _ in 0..20 {
        let a = busy.tick(Duration::from_millis(1), false, now).is_some();
        let b = idle.tick(Duration::from_millis(1), false, now).is_some();
        assert_eq!(a, b);
        assert_eq!(busy.next_departure(), idle.next_departure());
    }
    assert_eq!(busy.emission_counts(), (20, 0));
    assert_eq!(idle.emission_counts(), (0, 20));
}

#[test]
fn bursts_wait_as_far_as_they_fit() {
    let mut tc = correlator(config(3), 9, &fast());
    assert_eq!(tc.inject_burst(vec![pkt(1), pkt(2)], start()), Ok(2));
    assert_eq!(
        tc.inject_burst(vec![pkt(3), pkt(4)], start()),
        Err(TimingCorrelatorError::QueueFull)
    );
    assert_eq!(tc.queue_depth(), 3);
}

#[test]
fn arrival_gaps_are_told_where_the_rate_adapts() {
    let mut tc = correlator(config(8), 10, &fast());
    assert_eq!(tc.arrival_gap(start()), None);
    tc.inject_real(pkt(1), start()).unwrap();
    let later = start().after(Duration::from_millis(9));
    assert_eq!(tc.arrival_gap(later), Some(Duration::from_millis(9)));
    let mut fixed =
        correlator(TimingCorrelatorConfig { adapt_rate: false, ..config(8) }, 10, &fast());
    fixed.inject_real(pkt(1), start()).unwrap();
    assert_eq!(fixed.arrival_gap(later), None);
}

#[test]
fn drain_ready_passes_the_slots_that_are_due() {
    let mut tc = correlator(config(64), 11, &fast());
    tc.inject_real(pkt(7), start()).unwrap();
    let samples = vec![(Duration::from_millis(1), false); 100];
    let due = tc.next_departure();
    let frames = drain_ready(&mut tc, &samples, due.after(Duration::from_millis(3)));
    assert_eq!(frames.len(), 4);
    assert!(frames[0].is_real());
    assert!(frames[1].is_dummy() && frames[3].is_dummy());
    assert!(!tc.slot_ready(due.after(Duration::from_millis(3))));
}

#[test]
fn oversized_packets_are_cut_to_the_cell() {
    let mut tc = correlator(config(8), 12, &fast());
    tc.inject_real(Packet::new(vec![5u8; 600]).unwrap(), start()).unwrap();
    let now = start().after(Duration::from_millis(5));
    match tc.tick(Duration::from_millis(1), false, now) {
        Some(MixedFrame::Real(p)) => assert_eq!(p.bytes(), &[5u8; 514][..]),
        _ => panic!("the packet should have left"),
    }
}
