use mixtor::clumping::Packet;
use mixtor::composition::MixedFrame;
use mixtor::self_test::{
    cdf_steps, CdfStep, Measurements, SelfTestFailure, SelfTester, ShaperError,
};

const QUIET: Measurements = Measurements {
    ks_exceeded: false,
    ks_times_1000: 0,
    autocorr_exceeded: false,
    lag1_times_1000: 0,
    dummy_ratio_outside: false,
    ratio_times_1000: 0,
    peak_exceeded: false,
    peak_times_100: 0,
};

fn dummy_frame(len: usize) -> MixedFrame {
    MixedFrame::Dummy(vec![0u8; len])
}

fn real_frame(len: usize) -> MixedFrame {
    MixedFrame::Real(Packet::new(vec![1u8; len]).unwrap())
}

fn ks(a: &[usize], b: &[usize]) -> f64 {
    cdf_steps(a, b)
        .iter()
        .map(|s| {
            (s.at_most_a as f64 / a.len() as f64 - s.at_most_b as f64 / b.len() as f64).abs()
        })
        .fold(0.0, f64::max)
}

#[test]
fn insufficient_data_fails_gracefully() {
    let tester = SelfTester::new();
    let result = tester.run_tests(QUIET);
    assert!(!result.passed);
    assert!(result.failures.contains(&SelfTestFailure::InsufficientData));
}

#[test]
fn ks_statistic_identical_distributions() {
    let a = vec![100, 200, 300, 400];
    let b = vec![100, 200, 300, 400];
    let ks = ks(&a, &b);
    assert!(ks < 1e-9, "identical distributions should have KS = 0, got {ks}");
}

#[test]
fn ks_statistic_disjoint_distributions() {
    let a = vec![100, 150, 200];
    let b = vec![500, 600, 700];
    let ks = ks(&a, &b);
    assert!(ks > 0.9, "disjoint distributions should have KS near 1, got {ks}");
}

#[test]
fn distribution_steps_are_exact() {
    assert_eq!(
        cdf_steps(&[3, 1, 3], &[2, 3]),
        vec![
            CdfStep { value: 1, at_most_a: 1, at_most_b: 0 },
            CdfStep { value: 2, at_most_a: 1, at_most_b: 1 },
            CdfStep { value: 3, at_most_a: 3, at_most_b: 2 },
        ]
    );
    assert!(cdf_steps(&[], &[]).is_empty());
}

fn recorded(frames: usize) -> SelfTester {
    let mut tester = SelfTester::new();
    for i in 0..frames {
        if i % 2 == 0 {
            tester.record_frame(&real_frame(10 + i), 7 * i as u64);
        } else {
            tester.record_frame(&dummy_frame(20 + i), 7 * i as u64);
        }
    }
    tester
}

#[test]
fn frames_are_recorded_with_their_gaps() {
    let mut tester = recorded(4);
    assert_eq!(tester.total_frames(), 4);
    assert_eq!(tester.real_sizes(), &[10, 12]);
    assert_eq!(tester.dummy_sizes(), &[21, 23]);
    assert_eq!(tester.gaps_ms(), &[7, 7, 7]);
    tester.record_frame(&dummy_frame(1), 0);
    assert_eq!(tester.gaps_ms(), &[7, 7, 7, 0]);
}

#[test]
fn failures_are_listed_in_order() {
    let measured = Measurements {
        ks_exceeded: true,
        ks_times_1000: 250,
        autocorr_exceeded: true,
        lag1_times_1000: -305,
        dummy_ratio_outside: true,
        ratio_times_1000: 990,
        peak_exceeded: true,
        peak_times_100: 1234,
    };
    assert_eq!(
        recorded(19).run_tests(measured).failures,
        vec![SelfTestFailure::InsufficientData]
    );
    let result = recorded(20).run_tests(measured);
    assert!(!result.passed);
    let texts: Vec<String> = result.failures.iter().map(|f| f.description()).collect();
    assert_eq!(
        texts,
        vec![
            "KS test failed: statistic = 0.250",
            "lag-1 autocorrelation too high: -0.305",
            "dummy ratio out of bounds: 0.990",
            "spectral peak detected: ratio = 12.34",
        ]
    );
    assert!(recorded(20).run_tests(QUIET).passed);
    assert!(recorded(20).assert_passing(QUIET).is_ok());
    let error = recorded(20).assert_passing(measured).err().unwrap();
    assert!(matches!(&error, ShaperError::SelfTestFailed(f) if f.len() == 4));
    assert_eq!(error.message(), format!("shaper self-test failed: {}", texts.join("; ")));
    assert_eq!(
        ShaperError::SelfTestFailed(vec![SelfTestFailure::InsufficientData]).message(),
        "shaper self-test failed: insufficient data for self-test"
    );
}

#[test]
fn descriptions_agree_with_float_formatting() {
    for n in [0u32, 1, 9, 10, 99, 100, 999, 1000, 1001, 123_456, u32::MAX] {
        assert_eq!(
            SelfTestFailure::KsTestFailed { statistic: n }.description(),
            format!("KS test failed: statistic = {:.3}", n as f64 / 1000.0)
        );
        assert_eq!(
            SelfTestFailure::SpectralPeakDetected { ratio_times_100: n }.description(),
            format!("spectral peak detected: ratio = {:.2}", n as f64 / 100.0)
        );
    }
    for n in [i32::MIN, -1000, -1, 0, 1, i32::MAX] {
        assert_eq!(
            SelfTestFailure::AutocorrelationTooHigh { lag1_times_1000: n }.description(),
            format!("lag-1 autocorrelation too high: {:.3}", n as f64 / 1000.0)
        );
    }
}
