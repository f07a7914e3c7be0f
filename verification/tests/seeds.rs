use mixtor::clock::{Duration, Instant};
use mixtor::seeds::{
    EphemeralSeed, SeedError, SeedRole, SessionSeeds, DEFAULT_ROTATION_SECS, SEED_LEN,
};

fn start() -> Instant {
    Instant::from_nanos(1_000_000_000)
}

fn seeds() -> SessionSeeds {
    SessionSeeds::generate(start()).expect("seed generation should succeed")
}

#[test]
fn generates_two_256_bit_seeds() {
    let seeds = seeds();
    seeds.timing_and_pool().with_bytes(|seed: &[u8; 32]| assert_eq!(seed.len(), SEED_LEN));
    seeds.burst_composition().with_bytes(|seed: &[u8; 32]| assert_eq!(seed.len(), SEED_LEN));
}

#[test]
fn seeds_have_distinct_roles() {
    let seeds = seeds();
    assert_eq!(seeds.timing_and_pool().role(), SeedRole::TimingAndPool);
    assert_eq!(seeds.burst_composition().role(), SeedRole::BurstComposition);
}

#[test]
fn seeds_are_independent_within_a_session() {
    let seeds = seeds();
    let are_equal = seeds
        .timing_and_pool()
        .with_bytes(|a: &[u8; 32]| seeds.burst_composition().with_bytes(|b: &[u8; 32]| a == b));
    assert!(!are_equal);
}

#[test]
fn sessions_do_not_reuse_seed_material() {
    let first = seeds();
    let second = seeds();
    let timing_reused = first
        .timing_and_pool()
        .with_bytes(|a: &[u8; 32]| second.timing_and_pool().with_bytes(|b: &[u8; 32]| a == b));
    let burst_reused = first
        .burst_composition()
        .with_bytes(|a: &[u8; 32]| second.burst_composition().with_bytes(|b: &[u8; 32]| a == b));
    assert!(!timing_reused);
    assert!(!burst_reused);
}

#[test]
fn debug_output_redacts_seed_bytes() {
    let output = seeds().redacted();
    assert!(output.contains("[redacted; zeroized on drop]"));
    assert!(!output.contains("bytes: ["));
    assert_eq!(
        output,
        "SessionSeeds { timing_and_pool: EphemeralSeed { role: TimingAndPool, bytes: \
         \"[redacted; zeroized on drop]\" }, burst_composition: EphemeralSeed { role: \
         BurstComposition, bytes: \"[redacted; zeroized on drop]\" }, rotation_interval: 86400s }"
    );
}

#[test]
fn default_rotation_interval_is_daily() {
    let seeds = seeds();
    assert_eq!(seeds.rotation_interval(), Duration::from_secs(DEFAULT_ROTATION_SECS));
    assert_eq!(seeds.rotation_interval(), Duration::from_secs(24 * 60 * 60));
}

#[test]
fn rotation_replaces_both_seeds() {
    let mut seeds = seeds();
    let old_timing = seeds.timing_and_pool().with_bytes(|seed: &[u8; 32]| *seed);
    let old_burst = seeds.burst_composition().with_bytes(|seed: &[u8; 32]| *seed);
    let later = start().after(Duration::from_secs(5));
    seeds.rotate(later).expect("seed rotation should succeed");
    let timing_reused = seeds.timing_and_pool().with_bytes(|seed: &[u8; 32]| *seed == old_timing);
    let burst_reused = seeds.burst_composition().with_bytes(|seed: &[u8; 32]| *seed == old_burst);
    assert!(!timing_reused);
    assert!(!burst_reused);
    assert_eq!(seeds.rotation_interval(), Duration::from_secs(86_400));
}

#[test]
fn zero_rotation_interval_is_rejected() {
    let r = SessionSeeds::generate_with_rotation_interval(Duration::from_secs(0), start());
    assert!(matches!(r, Err(SeedError::InvalidRotationInterval)));
}

#[test]
fn rotation_is_due_once_the_interval_has_passed() {
    let interval = Duration::from_millis(10);
    let seeds = SessionSeeds::generate_with_rotation_interval(interval, start()).ok().unwrap();
    assert!(!seeds.should_rotate(start()));
    assert!(!seeds.should_rotate(Instant::from_nanos(1_009_999_999)));
    assert!(seeds.should_rotate(Instant::from_nanos(1_010_000_000)));
    assert!(!seeds.should_rotate(Instant::from_nanos(0)));
}

#[test]
fn all_zero_material_is_refused() {
    let r = EphemeralSeed::from_random(SeedRole::BurstComposition, Ok([0u8; 32]));
    assert!(matches!(r, Err(SeedError::AllZeroSeed { role: SeedRole::BurstComposition })));
    let mut one = [0u8; 32];
    one[31] = 1;
    let seed = EphemeralSeed::from_random(SeedRole::BurstComposition, Ok(one)).ok().unwrap();
    assert_eq!(seed.with_bytes(|b: &[u8; 32]| *b), one);
}

#[test]
fn equal_material_is_refused() {
    let a = EphemeralSeed::from_random(SeedRole::TimingAndPool, Ok([7u8; 32])).ok().unwrap();
    let b = EphemeralSeed::from_random(SeedRole::BurstComposition, Ok([7u8; 32])).ok().unwrap();
    let r = SessionSeeds::pair(a, b, Duration::from_secs(1), start());
    assert!(matches!(r, Err(SeedError::DuplicateSeeds)));
}

#[test]
fn failure_of_the_operating_system_is_reported() {
    let error = getrandom::Error::UNSUPPORTED;
    let shown = error.to_string();
    let r = EphemeralSeed::from_random(SeedRole::TimingAndPool, Err(error));
    let e = r.err().unwrap();
    assert!(matches!(e, SeedError::Random(_)));
    assert_eq!(e.message(), format!("failed to read OS CSPRNG: {shown}"));
}

#[test]
fn seed_errors_are_described() {
    assert_eq!(
        SeedError::AllZeroSeed { role: SeedRole::TimingAndPool }.message(),
        "generated all-zero seed for TimingAndPool"
    );
    assert_eq!(SeedError::DuplicateSeeds.message(), "generated duplicate dual-seed material");
    assert_eq!(
        SeedError::InvalidRotationInterval.message(),
        "seed rotation interval must be non-zero"
    );
}

#[test]
fn domains_give_independent_subkeys() {
    let seed = EphemeralSeed::from_random(SeedRole::TimingAndPool, Ok([3u8; 32])).ok().unwrap();
    let a = seed.derive_rng_seed(b"mixtor.clumping.v1");
    let b = seed.derive_rng_seed(b"mixtor.timing.v1");
    assert_ne!(a, b);
    let expected: [u8; 32] = blake3::keyed_hash(&[3u8; 32], b"mixtor.clumping.v1").into();
    assert_eq!(a, expected);
}

#[test]
fn a_new_pair_takes_the_place_of_the_old_one() {
    let first = Instant::from_nanos(1_000);
    let later = Instant::from_nanos(9_000);
    let mut seeds = SessionSeeds::generate(first).ok().unwrap();
    let old_a = seeds.timing_and_pool().with_bytes(|b| *b);
    let old_b = seeds.burst_composition().with_bytes(|b| *b);
    assert!(matches!(
        seeds.adopt(Err(SeedError::DuplicateSeeds)),
        Err(SeedError::DuplicateSeeds)
    ));
    assert_eq!(seeds.timing_and_pool().with_bytes(|b| *b), old_a);
    assert_eq!(seeds.burst_composition().with_bytes(|b| *b), old_b);
    let interval = Duration::from_secs(5);
    let next = SessionSeeds::generate_with_rotation_interval(interval, later).ok().unwrap();
    let new_a = next.timing_and_pool().with_bytes(|b| *b);
    let new_b = next.burst_composition().with_bytes(|b| *b);
    assert!(seeds.adopt(Ok(next)).is_ok());
    assert_eq!(seeds.timing_and_pool().with_bytes(|b| *b), new_a);
    assert_eq!(seeds.burst_composition().with_bytes(|b| *b), new_b);
    assert_eq!(seeds.rotation_interval(), interval);
    assert!(!seeds.should_rotate(later));
    assert!(seeds.should_rotate(later.after(interval)));
}
