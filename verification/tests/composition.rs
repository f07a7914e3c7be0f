use mixtor::clock::{Duration, Instant};
use mixtor::clumping::{Burst, CycleThresholds, FlushReason, Packet};
use mixtor::composition::{
    BidirectionalComposer, BidirectionalSession, CompositionConfig, CompositionError, MixedBurst,
    MixedFrame, RatioDistributionKind, SeedBComposer, ShapedSession, TOR_CELL_BYTES,
};
use mixtor::dp_shaper::{DpShaperConfig, DpShaperError};
use mixtor::rng::SeededRng;
use mixtor::seeds::{EphemeralSeed, SeedRole, SessionSeeds};
use mixtor::session_bounder::SessionClass;
use mixtor::spectral::{SpectralChecks, SpectralError};
use mixtor::timing_correlator::ClockChecks;
use rand::Rng;
use rand_chacha::rand_core::SeedableRng;
use rand_chacha::ChaCha20Rng;
use std::collections::HashMap;

const FINE: ClockChecks = ClockChecks {
    initial_iat_positive: true,
    ema_alpha_in_range: true,
    min_iat_positive: true,
    min_iat_below_max: true,
    min_dummy_fraction_in_range: true,
};

fn start() -> Instant {
    Instant::from_nanos(3_000_000_000)
}

fn seeds() -> SessionSeeds {
    SessionSeeds::generate(start()).ok().unwrap()
}

fn packet(byte: u8, len: usize) -> Packet {
    Packet::new(vec![byte; len]).expect("packet should be valid")
}

fn burst(packets: Vec<Packet>) -> Burst {
    Burst::from_parts(
        packets,
        CycleThresholds { max_packets: 4, timeout: Duration::from_millis(20) },
        FlushReason::Manual,
    )
}

fn fast_switch_config() -> CompositionConfig {
    CompositionConfig {
        max_dummy_packets_per_burst: 32,
        min_switch_bursts: 1,
        max_switch_bursts: 2,
        min_switch_real_bytes: 1,
        max_switch_real_bytes: 2,
        min_switch_real_packets: 1,
        max_switch_real_packets: 2,
        max_idle_gap_ms: 2_500,
        keepalive_min_bytes: 64,
        keepalive_max_bytes: 1_200,
        dp_shaper: None,
        session_class: None,
        padding_buckets: 4,
        cell_bytes: None,
        ..CompositionConfig::default()
    }
}

fn shaped_config() -> CompositionConfig {
    CompositionConfig { cell_bytes: Some(TOR_CELL_BYTES), dp_shaper: None, ..fast_switch_config() }
}

fn composer(config: CompositionConfig) -> SeedBComposer {
    let seeds = seeds();
    SeedBComposer::with_config(seeds.burst_composition(), config, true, 100, start()).ok().unwrap()
}

fn compose(c: &mut SeedBComposer, packets: Vec<Packet>) -> MixedBurst {
    c.compose(burst(packets), 0, 100, start())
}

fn session(config: CompositionConfig) -> ShapedSession {
    let seeds = seeds();
    let mut s = ShapedSession::new(seeds.burst_composition(), config, FINE, true, 100, start())
        .ok()
        .unwrap();
    s.advance_clock(Duration::from_millis(1), start());
    s
}

#[test]
fn rejects_seed_a() {
    let seeds = seeds();
    let err = SeedBComposer::new(seeds.timing_and_pool(), true, 100, start())
        .err()
        .expect("Seed A should not compose");
    assert_eq!(
        err,
        CompositionError::WrongSeedRole {
            expected: SeedRole::BurstComposition,
            actual: SeedRole::TimingAndPool,
        }
    );
    assert_eq!(err.message(), "wrong seed role: expected BurstComposition, got TimingAndPool");
}

#[test]
fn adds_dummy_packets_and_preserves_real_count() {
    let mut c = composer(fast_switch_config());
    let mixed = compose(&mut c, vec![packet(1, 40), packet(2, 80)]);
    assert_eq!(mixed.real_packets(), 2);
    assert_eq!(mixed.total_packets(), mixed.real_packets() + mixed.dummy_packets());
    assert_eq!(mixed.frames().iter().filter(|f| f.is_real()).count(), 2);
    assert_eq!(
        mixed.frames().iter().filter(|f| f.is_dummy()).count(),
        mixed.dummy_packets()
    );
}

#[test]
fn real_packet_order_is_preserved() {
    let mut c = composer(fast_switch_config());
    let mixed = compose(&mut c, vec![packet(1, 41), packet(2, 97), packet(3, 123)]);
    let bytes: Vec<u8> = mixed
        .frames()
        .iter()
        .filter_map(|f| if let MixedFrame::Real(p) = f { Some(p.bytes()[0]) } else { None })
        .collect();
    assert_eq!(bytes, vec![1, 2, 3]);
}

#[test]
fn regime_switching_fires() {
    let mut c = composer(fast_switch_config());
    for _ in 0..8 {
        let _ = compose(&mut c, vec![packet(9, 16)]);
    }
    assert_eq!(c.bursts_in_regime(), 0);
}

#[test]
fn all_four_regime_kinds_appear() {
    let mut c = composer(fast_switch_config());
    let mut kinds = Vec::new();
    for _ in 0..256 {
        kinds.push(c.current_regime().kind);
        let _ = compose(&mut c, vec![packet(7, 32)]);
    }
    kinds.sort_by_key(|k| *k as u8);
    kinds.dedup();
    assert_eq!(kinds.len(), 4);
}

#[test]
fn regime_blocks_have_distinct_dummy_rates() {
    let config = CompositionConfig {
        min_switch_bursts: 6,
        max_switch_bursts: 12,
        ..fast_switch_config()
    };
    let mut c = composer(config);
    let mut per_kind: HashMap<u8, Vec<usize>> = HashMap::new();
    for _ in 0..2_000 {
        let kind = c.current_regime().kind as u8;
        let mixed = compose(&mut c, vec![packet(1, 64)]);
        per_kind.entry(kind).or_default().push(mixed.dummy_packets());
    }
    let means: Vec<f64> = per_kind
        .values()
        .map(|v| v.iter().sum::<usize>() as f64 / v.len() as f64)
        .collect();
    let min = means.iter().cloned().fold(f64::INFINITY, f64::min);
    let max = means.iter().cloned().fold(f64::NEG_INFINITY, f64::max);
    assert!(max - min >= 4.0, "regime spread too narrow: min={min:.2}, max={max:.2}");
}

#[test]
fn singleton_leading_dummies_are_randomised() {
    let config = CompositionConfig {
        min_switch_bursts: 1000,
        max_switch_bursts: 1000,
        min_switch_real_bytes: u64::MAX / 2,
        max_switch_real_bytes: u64::MAX / 2,
        min_switch_real_packets: u64::MAX / 2,
        max_switch_real_packets: u64::MAX / 2,
        ..fast_switch_config()
    };
    let mut c = composer(config);
    while c.current_regime().kind != RatioDistributionKind::HeavyCover {
        let _ = compose(&mut c, vec![packet(0, 64), packet(0, 64)]);
    }
    let mut leading_zero = false;
    let mut leading_nonzero = false;
    for _ in 0..200 {
        let mixed = compose(&mut c, vec![packet(1, 64)]);
        if mixed.dummy_packets() >= 2 {
            match mixed.frames().first() {
                Some(f) if f.is_dummy() => leading_nonzero = true,
                Some(_) => leading_zero = true,
                None => {}
            }
        }
    }
    assert!(leading_nonzero, "never saw a leading dummy");
    assert!(leading_zero, "leading dummy was always present");
}

#[test]
fn cell_bytes_makes_all_frames_uniform() {
    let mut c = composer(CompositionConfig { cell_bytes: Some(514), ..fast_switch_config() });
    for size in [10usize, 200, 400, 514, 1200] {
        let mixed = compose(&mut c, vec![packet(1, size)]);
        for frame in mixed.frames() {
            assert_eq!(frame.len(), 514);
        }
        assert_eq!(mixed.total_bytes(), 514 * mixed.total_packets());
    }
}

#[test]
fn dummy_size_uniform_in_keepalive_with_cell_bytes() {
    let config = CompositionConfig {
        cell_bytes: Some(514),
        max_idle_gap_ms: 10,
        ..fast_switch_config()
    };
    let mut c = composer(config);
    let ka = c.compose_keepalive(5, start());
    for frame in ka.frames() {
        assert_eq!(frame.len(), 514, "keepalive dummy must be cell_bytes");
    }
}

#[test]
fn no_cell_bytes_uses_variable_sizes() {
    let mut c = composer(fast_switch_config());
    for _ in 0..10 {
        let _ = compose(&mut c, vec![packet(1, 200), packet(2, 200)]);
    }
    let mixed = compose(&mut c, vec![packet(3, 999)]);
    let dummy_sizes: Vec<usize> =
        mixed.frames().iter().filter(|f| f.is_dummy()).map(|f| f.len()).collect();
    if dummy_sizes.len() >= 3 {
        assert!(
            !dummy_sizes.iter().all(|&s| s == 999),
            "all dummies matched current burst size"
        );
    }
}

#[test]
fn shaped_session_requires_cell_bytes() {
    let seeds = seeds();
    let err = ShapedSession::new(
        seeds.burst_composition(),
        CompositionConfig { cell_bytes: None, ..shaped_config() },
        FINE,
        true,
        100,
        start(),
    );
    assert_eq!(
        err.err(),
        Some(CompositionError::InvalidConfig(
            "ShapedSession requires cell_bytes to be set for size uniformity"
        )),
        "ShapedSession must reject None cell_bytes"
    );
}

#[test]
fn shaped_session_tick_emits_cell_size_frames() {
    let mut s = session(shaped_config());
    s.inject_real(packet(0xAB, 100), start()).unwrap();
    let mut frames = Vec::new();
    for ms in 0u64..500 {
        let now = start().after(Duration::from_millis(ms));
        frames.extend(s.tick(Duration::from_millis(2), false, now));
    }
    assert!(!frames.is_empty(), "should have emitted frames within 500ms");
    for f in &frames {
        assert_eq!(f.len(), TOR_CELL_BYTES, "frame must be exactly TOR_CELL_BYTES");
    }
    assert_eq!(s.emission_counts().0, 1);
    assert_eq!(s.emission_counts().1 as usize, frames.len() - 1);
    assert_eq!(s.self_tester().total_frames(), frames.len());
}

#[test]
fn shaped_session_real_replaces_dummy_slot() {
    let mut s = session(shaped_config());
    s.inject_real(packet(0xCC, 200), start()).unwrap();
    let mut got_real = false;
    for ms in 0u64..500 {
        let now = start().after(Duration::from_millis(ms));
        if let Some(f) = s.tick(Duration::from_millis(2), false, now) {
            if f.is_real() {
                got_real = true;
                assert_eq!(f.len(), 514, "real frame must be cell_bytes");
            }
        }
    }
    assert!(got_real, "real packet was never emitted");
}

#[test]
fn shaped_session_queue_full_error() {
    let config = CompositionConfig {
        max_dummy_packets_per_burst: 2,
        cell_bytes: Some(514),
        max_idle_gap_ms: 100_000,
        ..shaped_config()
    };
    let mut s = session(config);
    let mut overflow = None;
    for i in 0usize..20 {
        if let Err(e) = s.inject_real(packet(1, 100), start()) {
            assert_eq!(e, CompositionError::QueueFull);
            overflow = Some(i);
            break;
        }
    }
    assert_eq!(overflow, Some(8), "queue should overflow before 20 packets with depth=8");
    assert!(!s.has_queue_space());
    assert_eq!(s.queue_depth(), 8);
    assert_eq!(
        CompositionError::QueueFull.message(),
        "timing correlator queue full — apply back-pressure to upstream"
    );
}

#[test]
fn keepalive_fires_after_idle_gap() {
    let mut c = composer(CompositionConfig { max_idle_gap_ms: 10, ..fast_switch_config() });
    let later = start().after(Duration::from_millis(25));
    assert!(c.needs_keepalive(later));
    let _ = c.compose_keepalive(7, later);
    assert!(!c.needs_keepalive(later));
    assert_eq!(c.next_keepalive_due(), later.after(Duration::from_millis(7)));
    let _ = c.compose_keepalive(0, later);
    assert_eq!(c.next_keepalive_due(), later.after(Duration::from_millis(1)));
    let _ = c.compose_keepalive(5_000, later);
    assert_eq!(c.next_keepalive_due(), later.after(Duration::from_millis(10)));
}

#[test]
fn keepalive_burst_is_dummy_only() {
    let mut c = composer(fast_switch_config());
    let ka = c.compose_keepalive(100, start());
    assert_eq!(ka.real_packets(), 0);
    assert!(ka.dummy_packets() >= 1);
    assert!(ka.frames().iter().all(|f| f.is_dummy()));
    for f in ka.frames() {
        assert!(!f.is_empty());
    }
}

#[test]
fn rejects_zero_idle_gap() {
    let config = CompositionConfig { max_idle_gap_ms: 0, ..CompositionConfig::default() };
    assert!(config.validate().is_err());
}

#[test]
fn rejects_zero_cell_bytes() {
    let config = CompositionConfig { cell_bytes: Some(0), ..CompositionConfig::default() };
    assert!(config.validate().is_err());
}

#[test]
fn each_broken_composition_rule_is_named() {
    let ok = CompositionConfig::default();
    let cases = vec![
        (
            CompositionConfig { max_dummy_packets_per_burst: 0, ..ok },
            "maximum dummy packets must be non-zero",
        ),
        (
            CompositionConfig { min_switch_bursts: 0, ..ok },
            "ratio switch thresholds must be non-zero",
        ),
        (
            CompositionConfig { min_switch_real_bytes: 0, ..ok },
            "ratio switch thresholds must be non-zero",
        ),
        (
            CompositionConfig { min_switch_real_packets: 0, ..ok },
            "ratio switch thresholds must be non-zero",
        ),
        (
            CompositionConfig { min_switch_bursts: 801, ..ok },
            "minimum switch bursts cannot exceed maximum switch bursts",
        ),
        (
            CompositionConfig { max_switch_real_bytes: 1, ..ok },
            "minimum switch bytes cannot exceed maximum switch bytes",
        ),
        (
            CompositionConfig { max_switch_real_packets: 1, ..ok },
            "minimum switch packets cannot exceed maximum switch packets",
        ),
        (CompositionConfig { max_idle_gap_ms: 0, ..ok }, "max idle gap must be non-zero"),
        (CompositionConfig { keepalive_min_bytes: 0, ..ok }, "keepalive byte range is invalid"),
        (CompositionConfig { keepalive_min_bytes: 1401, ..ok }, "keepalive byte range is invalid"),
        (CompositionConfig { padding_buckets: 0, ..ok }, "padding_buckets must be non-zero"),
        (CompositionConfig { cell_bytes: Some(0), ..ok }, "cell_bytes must be non-zero"),
    ];
    for (config, text) in cases {
        let e = config.validate().expect_err("rule should be broken");
        assert_eq!(e, CompositionError::InvalidConfig(text));
        assert_eq!(e.message(), format!("invalid composition config: {text}"));
    }
    assert_eq!(ok.validate(), Ok(ok));
}

#[test]
fn composers_check_more_than_the_configuration() {
    let seeds = seeds();
    let short = CompositionConfig { max_idle_gap_ms: 5, ..fast_switch_config() };
    let e = SeedBComposer::with_config(seeds.burst_composition(), short, true, 1, start()).err();
    assert_eq!(
        e,
        Some(CompositionError::InvalidConfig("spectral IAT: invalid configuration"))
    );
    let six = CompositionConfig { max_idle_gap_ms: 6, ..fast_switch_config() };
    assert!(
        SeedBComposer::with_config(seeds.burst_composition(), six, true, 1, start()).is_ok()
    );
    let e = SeedBComposer::new(seeds.burst_composition(), false, 1, start()).err();
    assert_eq!(e, Some(CompositionError::InvalidConfig("invalid DP shaper config")));
}

#[test]
fn dp_shaper_validate_rejects_bad_config() {
    let ok = DpShaperConfig::default();
    assert!(ok.validate(false).is_err());
    assert!(DpShaperConfig { window_ms: 0, ..ok }.validate(true).is_err());
    let e = DpShaperConfig { max_real_bytes_per_window: 0, ..ok }.validate(true).err().unwrap();
    assert_eq!(
        e.message(),
        "invalid DP shaper config: max_real_bytes_per_window must be non-zero"
    );
    assert_eq!(
        ok.validate(false),
        Err(DpShaperError::InvalidConfig("epsilon must be positive"))
    );
    assert_eq!(ok.validate(true), Ok(ok));
    assert_eq!(ok.window_ms, 100);
    assert_eq!(ok.max_real_bytes_per_window, 65_536);
}

#[test]
fn spectral_validate_rejects_bad_config() {
    let check = |target: f64, floor: f64, ceiling: f64| {
        SpectralChecks {
            target_positive: target > 0.0,
            floor_positive: floor > 0.0,
            floor_below_ceiling: floor < ceiling,
        }
        .validate()
    };
    assert!(check(0.0, 10.0, 5000.0).is_err());
    assert!(check(200.0, 0.0, 5000.0).is_err());
    let e = check(200.0, 500.0, 100.0).err().unwrap();
    assert_eq!(e, SpectralError::InvalidConfig("floor_ms must be less than ceiling_ms"));
    assert_eq!(
        e.message(),
        "invalid spectral config: floor_ms must be less than ceiling_ms"
    );
    assert!(check(200.0, 10.0, 5000.0).is_ok());
}

#[test]
fn privacy_shaper_raises_the_count_up_to_the_cap() {
    let config = CompositionConfig {
        dp_shaper: Some(DpShaperConfig::default()),
        ..fast_switch_config()
    };
    let mut c = composer(config);
    // The pool then holds three lengths of 64: 640 bytes amount to 10 dummies.
    let mixed = c.compose(burst(vec![packet(1, 64)]), 640_000, 100, start());
    assert_eq!(mixed.dummy_packets(), 32);
    let mut c = composer(config);
    let mixed = c.compose(burst(vec![packet(1, 64)]), 64 * 21, 100, start());
    assert_eq!(mixed.dummy_packets(), 21);
}

#[test]
fn bounded_sessions_catch_up_in_keepalives() {
    let config = CompositionConfig {
        session_class: Some(SessionClass::Short),
        cell_bytes: Some(514),
        ..fast_switch_config()
    };
    let mut c = composer(config);
    // The mean keepalive is 632 bytes. After one second 2185 bytes are due.
    let ka = c.compose_keepalive(100, start().after(Duration::from_secs(1)));
    assert_eq!(ka.dummy_packets(), 1 + 2185 / 632);
    let ka = c.compose_keepalive(100, start().after(Duration::from_secs(30)));
    assert_eq!(ka.dummy_packets(), 32);
}

#[test]
fn a_seed_fixes_the_mixture() {
    let run = |byte: u8| {
        let seed =
            EphemeralSeed::from_random(SeedRole::BurstComposition, Ok([byte; 32])).ok().unwrap();
        let mut c =
            SeedBComposer::with_config(&seed, shaped_config(), true, 100, start()).ok().unwrap();
        compose(&mut c, vec![packet(1, 100), packet(2, 50)])
    };
    assert_eq!(run(1), run(1));
    assert_ne!(run(1), run(2));
}

#[test]
fn kinds_have_their_ranges() {
    assert_eq!(RatioDistributionKind::Sparse.dummy_count_range(), (0, 1));
    assert_eq!(RatioDistributionKind::Balanced.dummy_count_range(), (3, 8));
    assert_eq!(RatioDistributionKind::HeavyCover.dummy_count_range(), (10, 18));
    assert_eq!(RatioDistributionKind::Spiky.dummy_count_range(), (12, 20));
}

#[test]
fn shaped_sessions_take_bursts_that_fit() {
    let config = CompositionConfig { max_dummy_packets_per_burst: 13, ..shaped_config() };
    let mut s = session(config);
    let fits: Vec<Packet> = (0u8..50).map(|b| packet(b, 10)).collect();
    assert_eq!(s.inject_burst(burst(fits), 0, 100, start()), Ok(50));
    assert_eq!(s.queue_depth(), 50);
    let more: Vec<Packet> = (0u8..3).map(|b| packet(b, 10)).collect();
    assert_eq!(s.inject_burst(burst(more), 0, 100, start()), Err(CompositionError::QueueFull));
    assert_eq!(s.queue_depth(), 52);
}

#[test]
fn clock_faults_come_before_the_seed_role() {
    let seeds = seeds();
    let bad = ClockChecks { min_iat_positive: false, ..FINE };
    let e = ShapedSession::new(seeds.timing_and_pool(), shaped_config(), bad, true, 1, start());
    assert_eq!(
        e.err(),
        Some(CompositionError::InvalidConfig("min_iat_ms must be positive"))
    );
    let e = ShapedSession::new(seeds.timing_and_pool(), shaped_config(), FINE, true, 1, start());
    assert!(matches!(e.err(), Some(CompositionError::WrongSeedRole { .. })));
}

#[test]
fn directions_share_nothing() {
    let a = seeds();
    let b = seeds();
    let mut both = BidirectionalSession::new(
        a.burst_composition(),
        b.burst_composition(),
        shaped_config(),
        FINE,
        true,
        (1, 2),
        start(),
    )
    .ok()
    .unwrap();
    both.upstream.inject_real(packet(1, 1), start()).unwrap();
    assert_eq!(both.upstream.queue_depth(), 1);
    assert_eq!(both.downstream.queue_depth(), 0);
    let composers = BidirectionalComposer::new(
        a.burst_composition(),
        b.timing_and_pool(),
        shaped_config(),
        true,
        (1, 2),
        start(),
    );
    assert!(matches!(composers.err(), Some(CompositionError::WrongSeedRole { .. })));
}

#[test]
fn mixed_bursts_add_up() {
    let mut c = composer(shaped_config());
    let cell = shaped_config().cell_bytes.unwrap();
    for n in 1usize..8 {
        let mixed = compose(&mut c, (0..n).map(|i| packet(1, 10 + 300 * i)).collect());
        assert_eq!(mixed.total_packets(), mixed.real_packets() + mixed.dummy_packets());
        assert_eq!(mixed.frames().iter().filter(|f| f.is_real()).count(), mixed.real_packets());
        assert_eq!(mixed.frames().iter().filter(|f| f.is_dummy()).count(), mixed.dummy_packets());
        assert_eq!(mixed.total_bytes(), cell * mixed.total_packets());
        assert_eq!(mixed.clone(), mixed);
    }
    let keepalive = c.compose_keepalive(20, start());
    assert_eq!(keepalive.real_packets(), 0);
    assert!(keepalive.dummy_packets() >= 1);
    assert_eq!(keepalive.total_bytes(), cell * keepalive.total_packets());
}

#[test]
fn counts_are_drawn_like_the_generator_draws_them() {
    let mut ours = SeededRng::new([6u8; 32]);
    let mut plain = ChaCha20Rng::from_seed([6u8; 32]);
    for hi in 0usize..300 {
        assert_eq!(ours.range_usize(hi / 2, hi), plain.gen_range(hi / 2..=hi));
    }
}
