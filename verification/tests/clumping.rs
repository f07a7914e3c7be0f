use mixtor::clock::{Duration, Instant};
use mixtor::clumping::{
    Burst, ClumpingConfig, ClumpingError, ClumpingPool, CycleThresholds, FlushReason, Packet,
};
use mixtor::seeds::{EphemeralSeed, SeedRole, SessionSeeds};

fn start() -> Instant {
    Instant::from_nanos(5_000_000_000)
}

fn seeds() -> SessionSeeds {
    SessionSeeds::generate(start()).expect("seed generation should succeed")
}

fn packet(byte: u8) -> Packet {
    Packet::new(vec![byte]).expect("packet should be valid")
}

fn fixed_config(max_packets: usize, timeout: Duration) -> ClumpingConfig {
    ClumpingConfig {
        min_packets_per_burst: max_packets,
        max_packets_per_burst: max_packets,
        min_timeout: timeout,
        max_timeout: timeout,
    }
}

#[test]
fn creates_microclump_defaults() {
    let config = ClumpingConfig::default();
    assert_eq!(config.min_packets_per_burst, 2);
    assert_eq!(config.max_packets_per_burst, 7);
    assert!(config.max_timeout <= Duration::from_millis(100));
    assert_eq!(config.min_timeout, Duration::from_millis(12));
    assert_eq!(config.max_timeout, Duration::from_millis(85));
}

#[test]
fn rejects_empty_packets() {
    let error = Packet::new(Vec::<u8>::new()).expect_err("empty packet should fail");
    assert_eq!(error, ClumpingError::EmptyPacket);
}

#[test]
fn rejects_seed_b_for_clumping() {
    let seeds = seeds();
    let error = ClumpingPool::new(seeds.burst_composition())
        .err()
        .expect("Seed B should not initialize clumping");
    assert_eq!(
        error,
        ClumpingError::WrongSeedRole {
            expected: SeedRole::TimingAndPool,
            actual: SeedRole::BurstComposition,
        }
    );
    assert_eq!(
        error.message(),
        "wrong seed role: expected TimingAndPool, got BurstComposition"
    );
}

#[test]
fn flushes_when_packet_threshold_is_reached() {
    let seeds = seeds();
    let mut pool =
        ClumpingPool::with_config(seeds.timing_and_pool(), fixed_config(3, Duration::from_secs(1)))
            .ok()
            .expect("pool should initialize");
    let now = start();
    assert!(pool.push(packet(1), now).is_empty());
    assert!(pool.push(packet(2), now).is_empty());
    let bursts = pool.push(packet(3), now);
    assert_eq!(bursts.len(), 1);
    assert_eq!(bursts[0].packet_count(), 3);
    assert_eq!(bursts[0].reason(), FlushReason::SizeThreshold);
    assert_eq!(pool.pending_packets(), 0);
}

#[test]
fn single_packet_flushes_on_timeout() {
    let seeds = seeds();
    let mut pool = ClumpingPool::with_config(
        seeds.timing_and_pool(),
        fixed_config(4, Duration::from_millis(25)),
    )
    .ok()
    .expect("pool should initialize");
    let now = start();
    assert!(pool.push(packet(1), now).is_empty());
    assert!(pool.tick(now.after(Duration::from_millis(24))).is_none());
    let burst = pool
        .tick(now.after(Duration::from_millis(25)))
        .expect("packet should flush at timeout");
    assert_eq!(burst.packet_count(), 1);
    assert_eq!(burst.reason(), FlushReason::Timeout);
    assert_eq!(pool.pending_packets(), 0);
}

#[test]
fn bursty_overflow_splits_across_bursts_without_loss() {
    let seeds = seeds();
    let mut pool =
        ClumpingPool::with_config(seeds.timing_and_pool(), fixed_config(2, Duration::from_secs(1)))
            .ok()
            .expect("pool should initialize");
    let now = start();
    let mut bursts = Vec::new();
    for byte in 0u8..5 {
        bursts.extend(pool.push(packet(byte), now));
    }
    assert_eq!(bursts.len(), 2);
    assert_eq!(bursts[0].packet_count(), 2);
    assert_eq!(bursts[1].packet_count(), 2);
    assert_eq!(pool.pending_packets(), 1);
    let tail = pool.flush(now).expect("tail packet should flush manually");
    assert_eq!(tail.packet_count(), 1);
    bursts.push(tail);
    let bytes: Vec<u8> =
        bursts.iter().flat_map(|b| b.packets().iter().map(|p| p.bytes()[0])).collect();
    assert_eq!(bytes, vec![0, 1, 2, 3, 4]);
}

#[test]
fn thresholds_are_regenerated_each_cycle() {
    let seeds = seeds();
    let mut pool =
        ClumpingPool::new(seeds.timing_and_pool()).ok().expect("pool should initialize");
    let now = start();
    let mut observed = Vec::new();
    for i in 0usize..64 {
        observed.push(pool.current_thresholds());
        let threshold = pool.current_thresholds().max_packets;
        for j in 0..threshold {
            let _ = pool.push(packet((i + j) as u8), now);
        }
    }
    observed.dedup();
    assert!(observed.len() > 1, "thresholds should vary across cycles to resist probing");
}

#[test]
fn invalid_configs_are_rejected() {
    let error = ClumpingConfig {
        min_packets_per_burst: 8,
        max_packets_per_burst: 2,
        min_timeout: Duration::from_millis(1),
        max_timeout: Duration::from_millis(2),
    }
    .validate()
    .expect_err("inverted packet range should fail");
    assert!(matches!(error, ClumpingError::InvalidConfig(_)));
}

#[test]
fn each_broken_rule_is_named() {
    let ok = ClumpingConfig::default();
    let cases = vec![
        (
            ClumpingConfig { min_packets_per_burst: 0, ..ok },
            "minimum packet threshold must be at least one",
        ),
        (
            ClumpingConfig { min_packets_per_burst: 8, ..ok },
            "minimum packet threshold cannot exceed maximum packet threshold",
        ),
        (
            ClumpingConfig { min_timeout: Duration::from_millis(0), ..ok },
            "minimum timeout must be non-zero",
        ),
        (
            ClumpingConfig { min_timeout: Duration::from_millis(86), ..ok },
            "minimum timeout cannot exceed maximum timeout",
        ),
    ];
    for (config, text) in cases {
        let e = config.validate().expect_err("rule should be broken");
        assert_eq!(e, ClumpingError::InvalidConfig(text));
        assert_eq!(e.message(), format!("invalid clumping config: {text}"));
    }
    assert_eq!(ok.validate(), Ok(ok));
    assert_eq!(ClumpingError::EmptyPacket.message(), "packet cannot be empty");
}

#[test]
fn first_packet_sets_the_deadline() {
    let seeds = seeds();
    let mut pool = ClumpingPool::with_config(
        seeds.timing_and_pool(),
        fixed_config(3, Duration::from_millis(40)),
    )
    .ok()
    .unwrap();
    assert_eq!(pool.deadline(), None);
    let _ = pool.push(packet(1), start());
    let due = start().after(Duration::from_millis(40));
    assert_eq!(pool.deadline(), Some(due));
    let _ = pool.push(packet(2), start().after(Duration::from_millis(7)));
    assert_eq!(pool.deadline(), Some(due));
    let _ = pool.push(packet(3), start().after(Duration::from_millis(9)));
    assert_eq!(pool.deadline(), None);
    assert!(pool.flush(start()).is_none());
    assert!(pool.tick(due).is_none());
}

#[test]
fn a_seed_fixes_the_thresholds() {
    let make = || {
        let seed = EphemeralSeed::from_random(SeedRole::TimingAndPool, Ok([9u8; 32])).ok().unwrap();
        ClumpingPool::new(&seed).ok().unwrap().current_thresholds()
    };
    assert_eq!(make(), make());
    let other = EphemeralSeed::from_random(SeedRole::TimingAndPool, Ok([10u8; 32])).ok().unwrap();
    let mut differs = false;
    let mut pool = ClumpingPool::new(&other).ok().unwrap();
    let seed = EphemeralSeed::from_random(SeedRole::TimingAndPool, Ok([9u8; 32])).ok().unwrap();
    let mut same = ClumpingPool::new(&seed).ok().unwrap();
    for _ in 0..20 {
        differs = differs || pool.current_thresholds() != same.current_thresholds();
        let _ = pool.push(packet(1), start());
        let _ = pool.flush(start());
        let _ = same.push(packet(1), start());
        let _ = same.flush(start());
    }
    assert!(differs);
}

#[test]
fn bursts_hand_out_their_parts() {
    let threshold = CycleThresholds { max_packets: 4, timeout: Duration::from_millis(20) };
    let burst =
        Burst::from_parts(vec![packet(1), packet(2)], threshold, FlushReason::Manual);
    assert_eq!(burst.total_bytes(), 2);
    assert_eq!(burst.threshold(), threshold);
    assert_eq!(burst.packets().len(), 2);
    let taken = burst.into_packets();
    assert_eq!(taken[1].clone().into_bytes(), vec![2]);
    assert!(!taken[0].is_empty());
}

#[test]
fn bursts_weigh_at_least_a_byte_a_packet() {
    let seeds = seeds();
    let config = fixed_config(3, Duration::from_millis(5));
    let mut pool = ClumpingPool::with_config(seeds.timing_and_pool(), config).unwrap();
    let mut bursts = Vec::new();
    for i in 0..8u8 {
        bursts.extend(pool.push(packet(i), start()));
        assert!(pool.pending_packets() < pool.current_thresholds().max_packets);
        assert_eq!(pool.deadline().is_some(), pool.pending_packets() > 0);
    }
    for burst in &bursts {
        assert_eq!(burst.reason(), FlushReason::SizeThreshold);
        assert_eq!(burst.packet_count(), burst.threshold().max_packets);
    }
    bursts.extend(pool.flush(start()));
    for burst in &bursts {
        assert!(burst.total_bytes() >= burst.packet_count());
        assert!(burst.packet_count() >= 1);
        assert_eq!(&burst.clone(), burst);
    }
    let all: Vec<u8> = bursts.iter().flat_map(|b| b.packets()).map(|p| p.bytes()[0]).collect();
    assert_eq!(all, (0..8u8).collect::<Vec<u8>>());
}
