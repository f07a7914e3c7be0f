use mixtor::clock::{Duration, Instant};
use mixtor::clumping::{ClumpingConfig, ClumpingError};
use mixtor::seeds::{EphemeralSeed, SeedRole, SessionSeeds};
use mixtor::timing::{SeedATimingScheduler, TimingConfig, TimingDistributionKind, TimingError};

fn seeds() -> SessionSeeds {
    SessionSeeds::generate(Instant::from_nanos(1)).expect("seed generation should succeed")
}

fn fast_switch_config() -> TimingConfig {
    TimingConfig {
        min_delay: Duration::from_millis(2),
        max_delay: Duration::from_millis(20),
        min_regime_bytes: 1,
        max_regime_bytes: 2,
        min_regime_packets: 1,
        max_regime_packets: 2,
        clumping: ClumpingConfig::default(),
    }
}

/// A delay that follows no distribution in particular, from the scheduler's own
/// generator.
fn sampled(scheduler: &mut SeedATimingScheduler) -> u64 {
    scheduler.rng().next_u64() % 1_000
}

#[test]
fn rejects_seed_b() {
    let seeds = seeds();
    let error = SeedATimingScheduler::new(seeds.burst_composition())
        .err()
        .expect("Seed B should not initialize timing");
    assert_eq!(
        error,
        TimingError::WrongSeedRole {
            expected: SeedRole::TimingAndPool,
            actual: SeedRole::BurstComposition,
        }
    );
    assert_eq!(error.message(), "wrong seed role: expected TimingAndPool, got BurstComposition");
}

#[test]
fn delays_stay_inside_configured_bounds() {
    let seeds = seeds();
    let mut scheduler = SeedATimingScheduler::with_config(
        seeds.timing_and_pool(),
        TimingConfig {
            min_delay: Duration::from_millis(5),
            max_delay: Duration::from_millis(40),
            ..TimingConfig::default()
        },
    )
    .ok()
    .expect("scheduler should initialize");
    for _ in 0..128 {
        let ms = sampled(&mut scheduler);
        let decision = scheduler.next_decision(ms);
        assert!(decision.delay >= Duration::from_millis(5));
        assert!(decision.delay <= Duration::from_millis(40));
    }
    assert_eq!(scheduler.next_decision(0).delay, Duration::from_millis(5));
    assert_eq!(scheduler.next_decision(17).delay, Duration::from_millis(17));
    assert_eq!(scheduler.next_decision(u64::MAX).delay, Duration::from_millis(40));
}

#[test]
fn switches_regime_from_traffic_counters_not_time() {
    let seeds = seeds();
    let mut scheduler =
        SeedATimingScheduler::with_config(seeds.timing_and_pool(), fast_switch_config())
            .ok()
            .expect("scheduler should initialize");
    scheduler.observe_burst(2, 2);
    assert_eq!(scheduler.bytes_in_regime(), 0);
    assert_eq!(scheduler.packets_in_regime(), 0);
}

#[test]
fn emits_all_distribution_families_over_many_regimes() {
    let seeds = seeds();
    let mut scheduler =
        SeedATimingScheduler::with_config(seeds.timing_and_pool(), fast_switch_config())
            .ok()
            .expect("scheduler should initialize");
    let mut kinds = Vec::new();
    for _ in 0..256 {
        kinds.push(scheduler.current_regime().kind);
        scheduler.observe_burst(2, 2);
    }
    kinds.sort_by_key(|kind| *kind as u8);
    kinds.dedup();
    assert_eq!(kinds.len(), 6);
}

#[test]
fn pool_thresholds_vary_per_cycle() {
    let seeds = seeds();
    let mut scheduler = SeedATimingScheduler::new(seeds.timing_and_pool())
        .ok()
        .expect("scheduler should initialize");
    let mut thresholds = Vec::new();
    for _ in 0..64 {
        let ms = sampled(&mut scheduler);
        thresholds.push(scheduler.next_decision(ms).pool_thresholds);
    }
    thresholds.dedup();
    assert!(thresholds.len() > 1);
    for t in &thresholds {
        assert!(2 <= t.max_packets && t.max_packets <= 7);
        assert!(Duration::from_millis(12) <= t.timeout && t.timeout <= Duration::from_millis(85));
    }
}

#[test]
fn each_broken_timing_rule_is_named() {
    let ok = TimingConfig::default();
    let cases = vec![
        (
            TimingConfig { min_delay: Duration::from_millis(0), ..ok },
            "minimum delay must be non-zero",
        ),
        (
            TimingConfig { min_delay: Duration::from_millis(241), ..ok },
            "minimum delay cannot exceed maximum delay",
        ),
        (TimingConfig { min_regime_bytes: 0, ..ok }, "regime switch thresholds must be non-zero"),
        (TimingConfig { min_regime_packets: 0, ..ok }, "regime switch thresholds must be non-zero"),
        (
            TimingConfig { max_regime_bytes: 1, ..ok },
            "minimum regime bytes cannot exceed maximum regime bytes",
        ),
        (
            TimingConfig { max_regime_packets: 1, ..ok },
            "minimum regime packets cannot exceed maximum regime packets",
        ),
    ];
    for (config, text) in cases {
        let e = config.validate().expect_err("rule should be broken");
        assert_eq!(e.message(), format!("invalid timing config: {text}"));
        assert_eq!(e, TimingError::InvalidConfig(text));
    }
    let e = TimingConfig {
        clumping: ClumpingConfig { min_packets_per_burst: 0, ..ok.clumping },
        ..ok
    }
    .validate()
    .expect_err("clumping rule should be broken");
    assert!(matches!(e, TimingError::InvalidClumpingConfig(ClumpingError::InvalidConfig(_))));
    assert_eq!(
        e.message(),
        "invalid clumping config: minimum packet threshold must be at least one"
    );
    assert_eq!(ok.validate(), Ok(ok));
}

#[test]
fn traffic_below_the_thresholds_keeps_the_regime() {
    let seed = EphemeralSeed::from_random(SeedRole::TimingAndPool, Ok([4u8; 32])).ok().unwrap();
    let mut scheduler = SeedATimingScheduler::new(&seed).ok().unwrap();
    let regime = scheduler.current_regime();
    scheduler.observe_burst(100, 1);
    assert_eq!(scheduler.current_regime(), regime);
    assert_eq!(scheduler.bytes_in_regime(), 100);
    assert_eq!(scheduler.packets_in_regime(), 1);
    scheduler.observe_burst(u64::MAX, 0);
    assert_eq!(scheduler.bytes_in_regime(), 0);
    assert_eq!(scheduler.packets_in_regime(), 0);
    assert!(matches!(
        regime.kind,
        TimingDistributionKind::Poisson
            | TimingDistributionKind::Pareto
            | TimingDistributionKind::Bimodal
            | TimingDistributionKind::BurstAndSilence
            | TimingDistributionKind::Uniform
            | TimingDistributionKind::Exponential
    ));
    assert!(regime.switch_after.bytes >= 24 * 1024 && regime.switch_after.bytes <= 512 * 1024);
    assert!(regime.switch_after.packets >= 48 && regime.switch_after.packets <= 1024);
}
