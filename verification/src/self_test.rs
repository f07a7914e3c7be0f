//! Self-testing of the shaper's own output: what frames were sent is recorded,
//! and measurements of it are turned into a verdict.
use crate::frames::{FrameView, MixedFrame};
use crate::sorting::{ascending, lemma_ascending, sorted_copy};
use crate::text::{
    hundredths, push_hundredths, push_thousandths, thousandths,
};
use vstd::prelude::*;
use vstd::string::*;

verus! {

/// Frames that must have been recorded before anything is concluded.
pub const MIN_FRAMES: usize = 20;

/// A way in which the output failed. Real numbers are given in thousandths or
/// hundredths.
#[derive(Clone, Copy, Debug, PartialEq, Eq, Structural)]
pub enum SelfTestFailure {
    KsTestFailed { statistic: u32 },
    AutocorrelationTooHigh { lag1_times_1000: i32 },
    DummyRatioOutOfBounds { ratio_times_1000: u32 },
    SpectralPeakDetected { ratio_times_100: u32 },
    InsufficientData,
}

impl SelfTestFailure {
    /// The failure in words.
    pub open spec fn text(self) -> Seq<char> {
        match self {
            SelfTestFailure::KsTestFailed { statistic } => "KS test failed: statistic = "@
                + thousandths(statistic as nat),
            SelfTestFailure::AutocorrelationTooHigh { lag1_times_1000 } =>
                "lag-1 autocorrelation too high: "@ + if lag1_times_1000 < 0 {
                "-"@ + thousandths((-(lag1_times_1000 as int)) as nat)
            } else {
                thousandths(lag1_times_1000 as nat)
            },
            SelfTestFailure::DummyRatioOutOfBounds { ratio_times_1000 } =>
                "dummy ratio out of bounds: "@ + thousandths(ratio_times_1000 as nat),
            SelfTestFailure::SpectralPeakDetected { ratio_times_100 } =>
                "spectral peak detected: ratio = "@ + hundredths(ratio_times_100 as nat),
            SelfTestFailure::InsufficientData => "insufficient data for self-test"@,
        }
    }

    /// The failure in words.
    pub fn description(&self) -> (s: String)
        ensures
            s@ == self.text(),
    {
        match self {
            SelfTestFailure::KsTestFailed { statistic } => {
                let mut s = String::from_str("KS test failed: statistic = ");
                push_thousandths(&mut s, *statistic);
                s
            },
            SelfTestFailure::AutocorrelationTooHigh { lag1_times_1000 } => {
                let mut s = String::from_str("lag-1 autocorrelation too high: ");
                let lag1: i32 = *lag1_times_1000;
                if lag1 < 0 {
                    s.append("-");
                    let size: u32 = (-(lag1 as i64)) as u32;
                    push_thousandths(&mut s, size);
                    assert(s@ =~= self.text());
                } else {
                    push_thousandths(&mut s, lag1 as u32);
                }
                s
            },
            SelfTestFailure::DummyRatioOutOfBounds { ratio_times_1000 } => {
                let mut s = String::from_str("dummy ratio out of bounds: ");
                push_thousandths(&mut s, *ratio_times_1000);
                s
            },
            SelfTestFailure::SpectralPeakDetected { ratio_times_100 } => {
                let mut s = String::from_str("spectral peak detected: ratio = ");
                push_hundredths(&mut s, *ratio_times_100);
                s
            },
            SelfTestFailure::InsufficientData => String::from_str(
                "insufficient data for self-test",
            ),
        }
    }
}

/// The shaper's output failed its tests.
#[derive(Debug, PartialEq, Eq)]
pub enum ShaperError {
    SelfTestFailed(Vec<SelfTestFailure>),
}

/// Failures in words, with a semicolon between them.
pub open spec fn joined_text(failures: Seq<SelfTestFailure>) -> Seq<char>
    decreases failures.len(),
{
    if failures.len() == 0 {
        Seq::empty()
    } else if failures.len() == 1 {
        failures[0].text()
    } else {
        joined_text(failures.drop_last()) + "; "@ + failures.last().text()
    }
}

impl ShaperError {
    /// The error in words.
    pub open spec fn text(self) -> Seq<char> {
        match self {
            ShaperError::SelfTestFailed(failures) => "shaper self-test failed: "@ + joined_text(
                failures@,
            ),
        }
    }

    /// The error in words.
    pub fn message(&self) -> (s: String)
        ensures
            s@ == self.text(),
    {
        match self {
            ShaperError::SelfTestFailed(failures) => {
                let mut s = String::from_str("shaper self-test failed: ");
                let mut i: usize = 0;
                while i < failures.len()
                    invariant
                        i <= failures@.len(),
                        s@ == "shaper self-test failed: "@ + joined_text(failures@.take(i as int)),
                    decreases failures@.len() - i,
                {
                    if i > 0 {
                        s.append("; ");
                    }
                    s.append(failures[i].description().as_str());
                    let ghost next = failures@.take(i + 1);
                    assert(next.drop_last() =~= failures@.take(i as int));
                    i = i + 1;
                    assert(s@ =~= "shaper self-test failed: "@ + joined_text(
                        failures@.take(i as int),
                    ));
                }
                assert(failures@.take(i as int) =~= failures@);
                s
            },
        }
    }
}

/// What was measured on the recorded frames, and whether each measure lies
/// beyond its threshold.
#[derive(Clone, Copy, Debug, PartialEq, Eq, Structural)]
pub struct Measurements {
    pub ks_exceeded: bool,
    pub ks_times_1000: u32,
    pub autocorr_exceeded: bool,
    pub lag1_times_1000: i32,
    pub dummy_ratio_outside: bool,
    pub ratio_times_1000: u32,
    pub peak_exceeded: bool,
    pub peak_times_100: u32,
}

impl Measurements {
    /// The failures that the measurements show, in a fixed order.
    pub open spec fn failures(self) -> Seq<SelfTestFailure> {
        let ks = if self.ks_exceeded {
            seq![SelfTestFailure::KsTestFailed { statistic: self.ks_times_1000 }]
        } else {
            Seq::empty()
        };
        let ac = if self.autocorr_exceeded {
            seq![
                SelfTestFailure::AutocorrelationTooHigh { lag1_times_1000: self.lag1_times_1000 },
            ]
        } else {
            Seq::empty()
        };
        let ratio = if self.dummy_ratio_outside {
            seq![
                SelfTestFailure::DummyRatioOutOfBounds { ratio_times_1000: self.ratio_times_1000 },
            ]
        } else {
            Seq::empty()
        };
        let peak = if self.peak_exceeded {
            seq![SelfTestFailure::SpectralPeakDetected { ratio_times_100: self.peak_times_100 }]
        } else {
            Seq::empty()
        };
        ks + ac + ratio + peak
    }
}

/// The outcome of a self-test.
#[derive(Debug, PartialEq, Eq)]
pub struct SelfTestResult {
    pub passed: bool,
    pub failures: Vec<SelfTestFailure>,
}

impl Clone for SelfTestResult {
    fn clone(&self) -> (r: SelfTestResult)
        ensures
            r.passed == self.passed,
            r.failures@ == self.failures@,
    {
        let failures = self.failures.clone();
        assert(failures@ =~= self.failures@);
        SelfTestResult { passed: self.passed, failures }
    }
}

/// What a tester has recorded.
pub struct TesterState {
    pub gaps_ms: Seq<u64>,
    pub dummy_sizes: Seq<usize>,
    pub real_sizes: Seq<usize>,
    pub last_at_ms: Option<u64>,
}

impl TesterState {
    /// Frames recorded.
    pub open spec fn total(self) -> nat {
        self.real_sizes.len() + self.dummy_sizes.len()
    }

    /// The record with one more frame, sent at `now_ms`.
    pub open spec fn recorded(self, frame: FrameView, now_ms: u64) -> TesterState {
        TesterState {
            gaps_ms: match self.last_at_ms {
                Some(last) => self.gaps_ms.push(
                    if now_ms >= last {
                        (now_ms - last) as u64
                    } else {
                        0
                    },
                ),
                None => self.gaps_ms,
            },
            dummy_sizes: match frame {
                FrameView::Dummy(bytes) => self.dummy_sizes.push(bytes.len() as usize),
                FrameView::Real(_) => self.dummy_sizes,
            },
            real_sizes: match frame {
                FrameView::Real(bytes) => self.real_sizes.push(bytes.len() as usize),
                FrameView::Dummy(_) => self.real_sizes,
            },
            last_at_ms: Some(now_ms),
        }
    }

    /// The failures that the record and the measurements show. Too few frames
    /// are the only failure where there are too few.
    pub open spec fn failures(self, measured: Measurements) -> Seq<SelfTestFailure> {
        if self.total() < MIN_FRAMES {
            seq![SelfTestFailure::InsufficientData]
        } else {
            measured.failures()
        }
    }
}

/// A record of the frames sent.
#[derive(Debug)]
pub struct SelfTester {
    iat_samples: Vec<u64>,
    dummy_sizes: Vec<usize>,
    real_sizes: Vec<usize>,
    last_frame_at_ms: Option<u64>,
}

impl View for SelfTester {
    type V = TesterState;

    closed spec fn view(&self) -> TesterState {
        TesterState {
            gaps_ms: self.iat_samples@,
            dummy_sizes: self.dummy_sizes@,
            real_sizes: self.real_sizes@,
            last_at_ms: self.last_frame_at_ms,
        }
    }
}

impl SelfTester {
    /// A record of nothing.
    pub open spec fn blank() -> TesterState {
        TesterState {
            gaps_ms: Seq::empty(),
            dummy_sizes: Seq::empty(),
            real_sizes: Seq::empty(),
            last_at_ms: None,
        }
    }

    /// A tester that has recorded nothing.
    pub fn new() -> (t: SelfTester)
        ensures
            t@ == Self::blank(),
    {
        SelfTester {
            iat_samples: Vec::new(),
            dummy_sizes: Vec::new(),
            real_sizes: Vec::new(),
            last_frame_at_ms: None,
        }
    }

    /// Records a frame sent at `now_ms`.
    pub fn record_frame(&mut self, frame: &MixedFrame, now_ms: u64)
        ensures
            final(self)@ == old(self)@.recorded(frame@, now_ms),
    {
        match frame {
            MixedFrame::Real(p) => {
                self.real_sizes.push(p.len());
            },
            MixedFrame::Dummy(b) => {
                self.dummy_sizes.push(b.len());
            },
        }
        if let Some(last) = self.last_frame_at_ms {
            self.iat_samples.push(now_ms.saturating_sub(last));
        }
        self.last_frame_at_ms = Some(now_ms);
    }

    /// The verdict on the recorded frames, given what was measured on them.
    pub fn run_tests(&self, measured: Measurements) -> (r: SelfTestResult)
        requires
            self@.total() <= usize::MAX,
        ensures
            r.failures@ == self@.failures(measured),
            r.passed == (r.failures@.len() == 0),
    {
        let mut failures: Vec<SelfTestFailure> = Vec::new();
        if self.total_frames() < MIN_FRAMES {
            failures.push(SelfTestFailure::InsufficientData);
            assert(failures@ =~= self@.failures(measured));
            return SelfTestResult { passed: false, failures };
        }
        if measured.ks_exceeded {
            failures.push(SelfTestFailure::KsTestFailed { statistic: measured.ks_times_1000 });
        }
        if measured.autocorr_exceeded {
            failures.push(
                SelfTestFailure::AutocorrelationTooHigh {
                    lag1_times_1000: measured.lag1_times_1000,
                },
            );
        }
        if measured.dummy_ratio_outside {
            failures.push(
                SelfTestFailure::DummyRatioOutOfBounds {
                    ratio_times_1000: measured.ratio_times_1000,
                },
            );
        }
        if measured.peak_exceeded {
            failures.push(
                SelfTestFailure::SpectralPeakDetected { ratio_times_100: measured.peak_times_100 },
            );
        }
        assert(failures@ =~= self@.failures(measured));
        SelfTestResult { passed: failures.len() == 0, failures }
    }

    /// The verdict, as an error where a test failed.
    pub fn assert_passing(&self, measured: Measurements) -> (r: Result<SelfTestResult, ShaperError>)
        requires
            self@.total() <= usize::MAX,
        ensures
            match r {
                Ok(result) => self@.failures(measured).len() == 0 && result.passed
                    && result.failures@.len() == 0,
                Err(ShaperError::SelfTestFailed(failures)) => failures@.len() > 0 && failures@
                    == self@.failures(measured),
            },
    {
        let result = self.run_tests(measured);
        if result.passed {
            Ok(result)
        } else {
            Err(ShaperError::SelfTestFailed(result.failures))
        }
    }

    /// Frames recorded.
    pub fn total_frames(&self) -> (n: usize)
        requires
            self@.total() <= usize::MAX,
        ensures
            n == self@.total(),
    {
        self.real_sizes.len() + self.dummy_sizes.len()
    }

    /// Gaps between successive frames, in milliseconds.
    pub fn gaps_ms(&self) -> (g: &[u64])
        ensures
            g@ == self@.gaps_ms,
    {
        self.iat_samples.as_slice()
    }

    /// Sizes of the cover frames.
    pub fn dummy_sizes(&self) -> (s: &[usize])
        ensures
            s@ == self@.dummy_sizes,
    {
        self.dummy_sizes.as_slice()
    }

    /// Sizes of the real frames.
    pub fn real_sizes(&self) -> (s: &[usize])
        ensures
            s@ == self@.real_sizes,
    {
        self.real_sizes.as_slice()
    }
}

/// A step of two empirical distribution functions: a value that occurs in a
/// sample, and how many values of either sample do not exceed it.
#[derive(Clone, Copy, Debug, PartialEq, Eq, Structural)]
pub struct CdfStep {
    pub value: usize,
    pub at_most_a: usize,
    pub at_most_b: usize,
}

/// Values of `s` that do not exceed `x`, counted with repetitions.
pub open spec fn count_at_most(s: Seq<usize>, x: usize) -> nat
    decreases s.len(),
{
    if s.len() == 0 {
        0
    } else {
        count_at_most(s.drop_last(), x) + if s.last() <= x {
            1nat
        } else {
            0nat
        }
    }
}

pub proof fn lemma_count_by_multiset(s: Seq<usize>, x: usize)
    ensures
        count_at_most(s, x) == s.to_multiset().filter(|v: usize| v <= x).len(),
    decreases s.len(),
{
    broadcast use vstd::multiset::group_multiset_axioms;
    broadcast use vstd::seq_lib::group_to_multiset_ensures;

    let p = |v: usize| v <= x;
    if s.len() == 0 {
        assert(s.to_multiset().filter(p) =~= vstd::multiset::Multiset::empty());
    } else {
        let t = s.drop_last();
        lemma_count_by_multiset(t, x);
        assert(s =~= t.push(s.last()));
        assert(s.to_multiset() =~= t.to_multiset().insert(s.last()));
        if p(s.last()) {
            assert(s.to_multiset().filter(p) =~= t.to_multiset().filter(p).insert(s.last()));
        } else {
            assert(s.to_multiset().filter(p) =~= t.to_multiset().filter(p));
        }
    }
}

proof fn lemma_count_of_prefix(s: Seq<usize>, x: usize, n: int)
    requires
        0 <= n <= s.len(),
        forall|i: int| 0 <= i < n ==> s[i] <= x,
        forall|i: int| n <= i < s.len() ==> s[i] > x,
    ensures
        count_at_most(s, x) == n,
    decreases s.len(),
{
    if s.len() > 0 {
        let t = s.drop_last();
        if n == s.len() {
            lemma_count_of_prefix(t, x, n - 1);
        } else {
            lemma_count_of_prefix(t, x, n);
        }
    }
}

proof fn lemma_count_in_order(s: Seq<usize>, x: usize, n: int)
    requires
        0 <= n <= s.len(),
        forall|i: int| 0 <= i < n ==> ascending(s)[i] <= x,
        forall|i: int| n <= i < s.len() ==> ascending(s)[i] > x,
    ensures
        count_at_most(s, x) == n,
{
    lemma_ascending(s);
    lemma_count_of_prefix(ascending(s), x, n);
    lemma_count_by_multiset(s, x);
    lemma_count_by_multiset(ascending(s), x);
}

/// The first position from `from` on whose element exceeds `x`.
fn skip_at_most(sorted: &Vec<usize>, from: usize, x: usize) -> (to: usize)
    requires
        from <= sorted@.len(),
        forall|i: int, j: int| 0 <= i <= j < sorted@.len() ==> sorted@[i] <= sorted@[j],
    ensures
        from <= to <= sorted@.len(),
        forall|i: int| from <= i < to ==> sorted@[i] <= x,
        forall|i: int| to <= i < sorted@.len() ==> sorted@[i] > x,
{
    let mut at: usize = from;
    while at < sorted.len() && sorted[at] <= x
        invariant
            from <= at <= sorted@.len(),
            forall|i: int| from <= i < at ==> sorted@[i] <= x,
        decreases sorted@.len() - at,
    {
        at = at + 1;
    }
    at
}

/// Whether `steps` are the steps of the distribution functions of `a` and `b`:
/// one for each value that occurs, in ascending order.
pub open spec fn are_cdf_steps(steps: Seq<CdfStep>, a: Seq<usize>, b: Seq<usize>) -> bool {
    &&& forall|i: int, j: int|
        0 <= i < j < steps.len() ==> (#[trigger] steps[i]).value < (#[trigger] steps[j]).value
    &&& forall|i: int|
        0 <= i < steps.len() ==> {
            &&& (#[trigger] steps[i]).at_most_a == count_at_most(a, steps[i].value)
            &&& steps[i].at_most_b == count_at_most(b, steps[i].value)
            &&& a.contains(steps[i].value) || b.contains(steps[i].value)
        }
    &&& forall|v: usize|
        a.contains(v) || b.contains(v) ==> exists|i: int|
            0 <= i < steps.len() && (#[trigger] steps[i]).value == v
}

/// Walks the distribution functions of two samples. The Kolmogorov-Smirnov
/// statistic is the largest gap between the two over these steps.
#[verifier::rlimit(40)]
pub fn cdf_steps(a: &[usize], b: &[usize]) -> (steps: Vec<CdfStep>)
    ensures
        are_cdf_steps(steps@, a@, b@),
{
    let sa = sorted_copy(a);
    let sb = sorted_copy(b);
    proof {
        lemma_ascending(a@);
        lemma_ascending(b@);
    }
    let mut steps: Vec<CdfStep> = Vec::new();
    let mut ia: usize = 0;
    let mut ib: usize = 0;
    while ia < sa.len() || ib < sb.len()
        invariant
            sa@ == ascending(a@),
            sb@ == ascending(b@),
            sa@.len() == a@.len(),
            sb@.len() == b@.len(),
            forall|i: int, j: int| 0 <= i <= j < sa@.len() ==> sa@[i] <= sa@[j],
            forall|i: int, j: int| 0 <= i <= j < sb@.len() ==> sb@[i] <= sb@[j],
            forall|i: int| 0 <= i < sa@.len() ==> a@.contains(#[trigger] sa@[i]),
            forall|i: int| 0 <= i < sb@.len() ==> b@.contains(#[trigger] sb@[i]),
            ia <= sa@.len(),
            ib <= sb@.len(),
            steps@.len() == 0 ==> ia == 0 && ib == 0,
            steps@.len() > 0 ==> {
                &&& forall|i: int| 0 <= i < ia ==> sa@[i] <= steps@.last().value
                &&& forall|i: int| ia <= i < sa@.len() ==> sa@[i] > steps@.last().value
                &&& forall|i: int| 0 <= i < ib ==> sb@[i] <= steps@.last().value
                &&& forall|i: int| ib <= i < sb@.len() ==> sb@[i] > steps@.last().value
            },
            forall|i: int, j: int|
                0 <= i < j < steps@.len() ==> (#[trigger] steps@[i]).value < (
                #[trigger] steps@[j]).value,
            forall|i: int|
                0 <= i < steps@.len() ==> {
                    &&& (#[trigger] steps@[i]).at_most_a == count_at_most(a@, steps@[i].value)
                    &&& steps@[i].at_most_b == count_at_most(b@, steps@[i].value)
                    &&& a@.contains(steps@[i].value) || b@.contains(steps@[i].value)
                },
            forall|k: int|
                0 <= k < ia ==> exists|i: int|
                    0 <= i < steps@.len() && (#[trigger] steps@[i]).value == #[trigger] sa@[k],
            forall|k: int|
                0 <= k < ib ==> exists|i: int|
                    0 <= i < steps@.len() && (#[trigger] steps@[i]).value == #[trigger] sb@[k],
        decreases sa@.len() - ia + sb@.len() - ib,
    {
        let x: usize = if ib >= sb.len() || (ia < sa.len() && sa[ia] <= sb[ib]) {
            sa[ia]
        } else {
            sb[ib]
        };
        let ghost before = steps@;
        let na: usize = skip_at_most(&sa, ia, x);
        let nb: usize = skip_at_most(&sb, ib, x);
        proof {
            lemma_count_in_order(a@, x, na as int);
            lemma_count_in_order(b@, x, nb as int);
        }
        steps.push(CdfStep { value: x, at_most_a: na, at_most_b: nb });
        assert forall|k: int| 0 <= k < na implies exists|i: int|
            0 <= i < steps@.len() && (#[trigger] steps@[i]).value == #[trigger] sa@[k] by {
            if k < ia {
                let i = choose|i: int| 0 <= i < before.len() && (#[trigger] before[i]).value == sa@[k];
                assert(steps@[i].value == sa@[k]);
            } else {
                assert(sa@[k] >= sa@[ia as int]);
                assert(steps@[before.len() as int].value == sa@[k]);
            }
        }
        assert forall|k: int| 0 <= k < nb implies exists|i: int|
            0 <= i < steps@.len() && (#[trigger] steps@[i]).value == #[trigger] sb@[k] by {
            if k < ib {
                let i = choose|i: int| 0 <= i < before.len() && (#[trigger] before[i]).value == sb@[k];
                assert(steps@[i].value == sb@[k]);
            } else {
                assert(sb@[k] >= sb@[ib as int]);
                assert(steps@[before.len() as int].value == sb@[k]);
            }
        }
        ia = na;
        ib = nb;
    }
    assert forall|v: usize| a@.contains(v) || b@.contains(v) implies exists|i: int|
        0 <= i < steps@.len() && (#[trigger] steps@[i]).value == v by {
        if a@.contains(v) {
            let k = a@.index_of(v);
            assert(sa@.contains(a@[k]));
            let m = sa@.index_of(v);
            assert(sa@[m] == v);
        } else {
            let k = b@.index_of(v);
            assert(sb@.contains(b@[k]));
            let m = sb@.index_of(v);
            assert(sb@[m] == v);
        }
    }
    steps
}

/// What a self-test finds: with fewer than twenty frames only that these are too
/// few. Otherwise each measure beyond its threshold, and no other, in the order in
/// which the measures are made; it passes where none is.
pub proof fn law_tests_find_what_was_measured(state: TesterState, measured: Measurements)
    ensures
        ({
            let found = state.failures(measured);
            let enough = state.real_sizes.len() + state.dummy_sizes.len() >= 20;
            let ks: int = if measured.ks_exceeded { 1 } else { 0 };
            let ac: int = if measured.autocorr_exceeded { 1 } else { 0 };
            let ratio: int = if measured.dummy_ratio_outside { 1 } else { 0 };
            let peak: int = if measured.peak_exceeded { 1 } else { 0 };
            &&& !enough ==> found == seq![SelfTestFailure::InsufficientData]
            &&& enough ==> found.len() == ks + ac + ratio + peak
            &&& enough && ks == 1 ==> found[0] == (SelfTestFailure::KsTestFailed {
                statistic: measured.ks_times_1000,
            })
            &&& enough && ac == 1 ==> found[ks] == (SelfTestFailure::AutocorrelationTooHigh {
                lag1_times_1000: measured.lag1_times_1000,
            })
            &&& enough && ratio == 1 ==> found[ks + ac] == (
            SelfTestFailure::DummyRatioOutOfBounds { ratio_times_1000: measured.ratio_times_1000 })
            &&& enough && peak == 1 ==> found[ks + ac + ratio] == (
            SelfTestFailure::SpectralPeakDetected { ratio_times_100: measured.peak_times_100 })
            &&& found.len() == 0 <==> enough && !measured.ks_exceeded && !measured.autocorr_exceeded
                && !measured.dummy_ratio_outside && !measured.peak_exceeded
        }),
{
}

/// What is recorded of a frame: its length, with the packets or with the dummies,
/// and how many milliseconds after the frame before it was sent.
pub proof fn law_frames_are_recorded(state: TesterState, frame: FrameView, now_ms: u64)
    requires
        frame.bytes().len() <= usize::MAX,
    ensures
        ({
            let after = state.recorded(frame, now_ms);
            &&& after.total() == state.total() + 1
            &&& after.total() == after.real_sizes.len() + after.dummy_sizes.len()
            &&& after.last_at_ms == Some(now_ms)
            &&& frame is Real ==> after.real_sizes == state.real_sizes.push(
                frame.bytes().len() as usize,
            ) && after.dummy_sizes == state.dummy_sizes
            &&& frame is Dummy ==> after.dummy_sizes == state.dummy_sizes.push(
                frame.bytes().len() as usize,
            ) && after.real_sizes == state.real_sizes
            &&& state.last_at_ms is None ==> after.gaps_ms == state.gaps_ms
            &&& state.last_at_ms is Some ==> after.gaps_ms.drop_last() == state.gaps_ms
                && after.gaps_ms.len() == state.gaps_ms.len() + 1
            &&& state.last_at_ms is Some && now_ms >= state.last_at_ms->Some_0
                ==> after.gaps_ms.last() + state.last_at_ms->Some_0 == now_ms
            &&& state.last_at_ms is Some && now_ms < state.last_at_ms->Some_0
                ==> after.gaps_ms.last() == 0
        }),
{
    let after = state.recorded(frame, now_ms);
    if state.last_at_ms is Some {
        assert(after.gaps_ms.drop_last() =~= state.gaps_ms);
    }
}

/// Failures are told one after the other: those of two lists are told as those of
/// the first, a semicolon, and those of the second.
pub proof fn law_failures_are_told_in_turn(a: Seq<SelfTestFailure>, b: Seq<SelfTestFailure>)
    requires
        a.len() > 0,
        b.len() > 0,
    ensures
        joined_text(a + b) == joined_text(a) + "; "@ + joined_text(b),
        joined_text(seq![a[0]]) == a[0].text(),
        joined_text(Seq::empty()) == Seq::<char>::empty(),
    decreases b.len(),
{
    let all = a + b;
    if b.len() == 1 {
        assert(all.drop_last() =~= a);
    } else {
        let before = b.drop_last();
        law_failures_are_told_in_turn(a, before);
        assert(all.drop_last() =~= a + before);
        assert(joined_text(all) =~= joined_text(a) + "; "@ + joined_text(b));
    }
}

/// Of the steps of two distribution functions, each value that occurs has one, the
/// values ascend, and the last step has counted everything.
pub proof fn law_steps_count_everything(steps: Seq<CdfStep>, a: Seq<usize>, b: Seq<usize>, i: int)
    requires
        are_cdf_steps(steps, a, b),
        a.len() + b.len() <= usize::MAX,
        0 <= i < steps.len(),
    ensures
        steps[i].at_most_a == count_at_most(a, steps[i].value),
        steps[i].at_most_b == count_at_most(b, steps[i].value),
        a.contains(steps[i].value) || b.contains(steps[i].value),
        forall|j: int| 0 <= j < a.len() ==> steps_have(steps, #[trigger] a[j]),
        forall|j: int| 0 <= j < b.len() ==> steps_have(steps, #[trigger] b[j]),
        forall|j: int| 0 <= j < i ==> (#[trigger] steps[j]).value < steps[i].value,
        i == steps.len() - 1 ==> steps[i].at_most_a == a.len() && steps[i].at_most_b == b.len(),
{
    if i == steps.len() - 1 {
        assert forall|j: int| 0 <= j < a.len() implies a[j] <= steps[i].value by {
            assert(a.contains(a[j]));
        }
        assert forall|j: int| 0 <= j < b.len() implies b[j] <= steps[i].value by {
            assert(b.contains(b[j]));
        }
        lemma_count_of_prefix(a, steps[i].value, a.len() as int);
        lemma_count_of_prefix(b, steps[i].value, b.len() as int);
    }
    assert forall|j: int| 0 <= j < a.len() implies steps_have(steps, #[trigger] a[j]) by {
        assert(a.contains(a[j]));
    }
    assert forall|j: int| 0 <= j < b.len() implies steps_have(steps, #[trigger] b[j]) by {
        assert(b.contains(b[j]));
    }
}

/// Whether a value has a step.
pub open spec fn steps_have(steps: Seq<CdfStep>, value: usize) -> bool {
    exists|i: int| 0 <= i < steps.len() && (#[trigger] steps[i]).value == value
}

} // verus!
