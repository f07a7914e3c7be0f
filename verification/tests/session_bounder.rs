use mixtor::clock::{Duration, Instant};
use mixtor::session_bounder::{FuzzedClassThresholds, SessionBounder, SessionClass};
use rand::rngs::StdRng;
use rand::{Rng, SeedableRng};

fn start() -> Instant {
    Instant::from_nanos(7_000_000_000)
}

fn fuzz(rng: &mut StdRng, class: SessionClass) -> usize {
    let factor: f64 = rng.gen_range(0.7..=1.3);
    (class.target_volume_bytes() as f64 * factor) as usize
}

fn sample(rng: &mut StdRng) -> (usize, usize, usize) {
    (
        fuzz(rng, SessionClass::Short),
        fuzz(rng, SessionClass::Medium),
        fuzz(rng, SessionClass::Long),
    )
}

#[test]
fn class_selection() {
    assert_eq!(SessionClass::for_volume(0), SessionClass::Short);
    assert_eq!(SessionClass::for_volume(64 * 1024), SessionClass::Short);
    assert_eq!(SessionClass::for_volume(64 * 1024 + 1), SessionClass::Medium);
    assert_eq!(SessionClass::for_volume(1024 * 1024), SessionClass::Medium);
    assert_eq!(SessionClass::for_volume(1024 * 1024 + 1), SessionClass::Long);
    assert_eq!(SessionClass::for_volume(16 * 1024 * 1024), SessionClass::Long);
    assert_eq!(SessionClass::for_volume(16 * 1024 * 1024 + 1), SessionClass::VeryLong);
    assert_eq!(SessionClass::for_volume(256 * 1024 * 1024), SessionClass::VeryLong);
}

#[test]
fn padding_remaining_never_negative() {
    let class = SessionClass::Short;
    assert_eq!(class.padding_remaining(class.target_volume_bytes() + 9999), 0);
}

#[test]
fn volume_padding_tracks_real_bytes() {
    let mut bounder = SessionBounder::new(SessionClass::Short, start());
    let target = SessionClass::Short.target_volume_bytes();
    assert_eq!(bounder.volume_padding_remaining(), target);
    bounder.record_real_bytes(1024);
    assert_eq!(bounder.volume_padding_remaining(), target - 1024);
    bounder.record_real_bytes(target);
    assert_eq!(bounder.volume_padding_remaining(), 0);
}

#[test]
fn final_padding_adds_up_to_target() {
    let mut bounder = SessionBounder::new(SessionClass::Short, start());
    let target = SessionClass::Short.target_volume_bytes();
    bounder.record_real_bytes(10 * 1024);
    let dummy_so_far = 5 * 1024usize;
    let final_pad = bounder.final_padding_bytes(dummy_so_far);
    assert_eq!(
        10 * 1024 + dummy_so_far + final_pad,
        target,
        "real + dummy + final_pad should equal target volume"
    );
}

#[test]
fn targets_are_sensible() {
    assert!(SessionClass::Short.target_volume_bytes() < SessionClass::Medium.target_volume_bytes());
    assert!(SessionClass::Medium.target_volume_bytes() < SessionClass::Long.target_volume_bytes());
    assert!(SessionClass::Long.target_volume_bytes() < SessionClass::VeryLong.target_volume_bytes());
    assert!(SessionClass::Short.target_duration() < SessionClass::Medium.target_duration());
    assert!(SessionClass::Medium.target_duration() < SessionClass::Long.target_duration());
    assert!(SessionClass::Long.target_duration() < SessionClass::VeryLong.target_duration());
}

#[test]
fn fuzzy_thresholds_preserve_ordering() {
    for seed in 0u64..200 {
        let mut rng = StdRng::seed_from_u64(seed);
        let (short, medium, long) = sample(&mut rng);
        let t = FuzzedClassThresholds::from_draws(short, medium, long);
        assert!(t.short_max() < t.medium_max(), "seed {seed}: short_max >= medium_max");
        assert!(t.medium_max() < t.long_max(), "seed {seed}: medium_max >= long_max");
        assert_eq!((t.short_max(), t.medium_max(), t.long_max()), (short, medium, long));
    }
}

#[test]
fn volumes_far_from_a_boundary_are_never_in_doubt() {
    for seed in 0u64..50 {
        let mut rng = StdRng::seed_from_u64(seed);
        let (short, medium, long) = sample(&mut rng);
        let t = FuzzedClassThresholds::from_draws(short, medium, long);
        for class in [SessionClass::Short, SessionClass::Medium, SessionClass::Long] {
            let volume = class.target_volume_bytes();
            assert!(t.classify(volume * 7 / 10 - 1) <= class);
            assert!(t.classify(volume * 13 / 10 + 1) > class);
        }
    }
}

#[test]
fn fuzzy_thresholds_classify_correctly() {
    let mut rng = StdRng::seed_from_u64(42);
    let (short, medium, long) = sample(&mut rng);
    let t = FuzzedClassThresholds::from_draws(short, medium, long);
    assert_eq!(t.classify(0), SessionClass::Short);
    assert_eq!(t.classify(512 * 1024 * 1024), SessionClass::VeryLong);
    assert_eq!(t.classify(t.long_max() + 1), SessionClass::VeryLong);
    assert_eq!(t.classify(t.short_max()), SessionClass::Short);
    assert_eq!(t.classify(t.short_max() + 1), SessionClass::Medium);
    assert_eq!(t.classify(t.medium_max() + 1), SessionClass::Long);
}

#[test]
fn padding_is_due_evenly_over_the_session() {
    let bounder = SessionBounder::new(SessionClass::Short, start());
    assert_eq!(bounder.dummy_bytes_needed_now(0, start()), 0);
    let half = start().after(Duration::from_secs(15));
    assert_eq!(bounder.dummy_bytes_needed_now(0, half), 32 * 1024);
    assert_eq!(bounder.dummy_bytes_needed_now(30 * 1024, half), 2 * 1024);
    assert_eq!(bounder.dummy_bytes_needed_now(40 * 1024, half), 0);
    let over = start().after(Duration::from_secs(31));
    assert_eq!(bounder.dummy_bytes_needed_now(0, over), 64 * 1024);
    // One third of 65536 is 21845.33, and two thirds are 43690.67.
    assert_eq!(bounder.dummy_bytes_needed_now(0, start().after(Duration::from_secs(10))), 21_845);
    assert_eq!(bounder.dummy_bytes_needed_now(0, start().after(Duration::from_secs(20))), 43_691);
}

#[test]
fn a_session_is_complete_when_volume_and_time_are_met() {
    let mut bounder = SessionBounder::new(SessionClass::Short, start());
    let end = start().after(Duration::from_secs(30));
    assert_eq!(bounder.class(), SessionClass::Short);
    assert!(!bounder.is_complete(end));
    bounder.record_real_bytes(64 * 1024);
    assert!(!bounder.is_complete(start()));
    assert!(bounder.is_complete(end));
    assert_eq!(bounder.time_remaining(start()), Duration::from_secs(30));
    assert_eq!(
        bounder.time_remaining(start().after(Duration::from_secs(12))),
        Duration::from_secs(18)
    );
    bounder.record_real_bytes(usize::MAX);
    assert_eq!(bounder.volume_padding_remaining(), 0);
}

#[test]
fn overdue_padding_never_falls_while_time_passes() {
    let mut bounder = SessionBounder::new(SessionClass::Short, start());
    bounder.record_real_bytes(5_536);
    let mut last = 0usize;
    for ms in (0u64..40_000).step_by(500) {
        let due = bounder.dummy_bytes_needed_now(0, start().after(Duration::from_millis(ms)));
        assert!(due >= last);
        last = due;
    }
    assert_eq!(last, 60_000);
}
