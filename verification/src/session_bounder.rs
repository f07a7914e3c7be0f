//! Session classes: every session of a class appears to carry the same volume
//! and to last equally long. Dummy traffic fills the gap to the class's
//! targets.
use crate::clock::{Duration, Instant, NANOS_PER_SEC};
use vstd::prelude::*;

verus! {

/// A class of sessions, from the smallest to the largest.
#[derive(Clone, Copy, Debug, PartialEq, Eq, PartialOrd, Ord, Structural)]
pub enum SessionClass {
    Short,
    Medium,
    Long,
    VeryLong,
}

impl SessionClass {
    /// Bytes a session of this class carries, real and dummy together.
    pub open spec fn volume(self) -> nat {
        match self {
            SessionClass::Short => 65_536,
            SessionClass::Medium => 1_048_576,
            SessionClass::Long => 16_777_216,
            SessionClass::VeryLong => 268_435_456,
        }
    }

    /// Seconds a session of this class lasts.
    pub open spec fn seconds(self) -> nat {
        match self {
            SessionClass::Short => 30,
            SessionClass::Medium => 300,
            SessionClass::Long => 1_800,
            SessionClass::VeryLong => 7_200,
        }
    }

    /// The class's place among the classes, by size.
    pub open spec fn rank(self) -> nat {
        match self {
            SessionClass::Short => 0,
            SessionClass::Medium => 1,
            SessionClass::Long => 2,
            SessionClass::VeryLong => 3,
        }
    }

    /// Bytes a session of this class carries, real and dummy together.
    pub fn target_volume_bytes(self) -> (n: usize)
        ensures
            n == self.volume(),
    {
        match self {
            SessionClass::Short => 64 * 1_024,
            SessionClass::Medium => 1 * 1_024 * 1_024,
            SessionClass::Long => 16 * 1_024 * 1_024,
            SessionClass::VeryLong => 256 * 1_024 * 1_024,
        }
    }

    /// How long a session of this class lasts.
    pub fn target_duration(self) -> (d: Duration)
        ensures
            d.nanos == self.seconds() * NANOS_PER_SEC,
    {
        match self {
            SessionClass::Short => Duration::from_secs(30),
            SessionClass::Medium => Duration::from_secs(5 * 60),
            SessionClass::Long => Duration::from_secs(30 * 60),
            SessionClass::VeryLong => Duration::from_secs(2 * 60 * 60),
        }
    }

    /// The smallest class that fits `real_bytes`, or the largest class if none
    /// does.
    pub fn for_volume(real_bytes: usize) -> (class: SessionClass)
        ensures
            real_bytes <= class.volume() || class == SessionClass::VeryLong,
            forall|other: SessionClass|
                real_bytes <= #[trigger] other.volume() ==> class.rank() <= other.rank(),
    {
        if real_bytes <= SessionClass::Short.target_volume_bytes() {
            SessionClass::Short
        } else if real_bytes <= SessionClass::Medium.target_volume_bytes() {
            SessionClass::Medium
        } else if real_bytes <= SessionClass::Long.target_volume_bytes() {
            SessionClass::Long
        } else {
            SessionClass::VeryLong
        }
    }

    /// Bytes still missing from the class's volume, zero once it is reached.
    pub fn padding_remaining(self, real_bytes_sent: usize) -> (n: usize)
        ensures
            n == missing(self.volume(), real_bytes_sent as nat),
    {
        self.target_volume_bytes().saturating_sub(real_bytes_sent)
    }
}

/// What `have` lacks of `want`, zero if nothing.
pub open spec fn missing(want: nat, have: nat) -> nat {
    if have < want {
        (want - have) as nat
    } else {
        0
    }
}

/// A larger class carries more and lasts longer.
pub proof fn law_larger_classes_carry_more_and_last_longer(a: SessionClass, b: SessionClass)
    requires
        a.rank() < b.rank(),
    ensures
        a.volume() < b.volume(),
        a.seconds() < b.seconds(),
{
}

/// Class boundaries that a session draws for itself, around the volumes of the
/// classes, so that a class does not give away a fixed volume range.
#[derive(Debug)]
pub struct FuzzedClassThresholds {
    short_max: usize,
    medium_max: usize,
    long_max: usize,
}

/// Whether a boundary lies within 30 percent of `base`, rounded down to a
/// whole byte.
pub open spec fn near(base: nat, drawn: nat) -> bool {
    7 * base < 10 * (drawn + 1) && 10 * drawn <= 13 * base
}

/// Boundaries within 30 percent of the class volumes keep their order.
pub proof fn law_fuzzed_boundaries_keep_their_order(short: nat, medium: nat, long: nat)
    requires
        near(SessionClass::Short.volume(), short),
        near(SessionClass::Medium.volume(), medium),
        near(SessionClass::Long.volume(), long),
    ensures
        short < medium < long,
{
}

/// The class of a volume under these boundaries.
pub open spec fn class_between(short: nat, medium: nat, long: nat, real_bytes: nat) -> SessionClass {
    if real_bytes <= short {
        SessionClass::Short
    } else if real_bytes <= medium {
        SessionClass::Medium
    } else if real_bytes <= long {
        SessionClass::Long
    } else {
        SessionClass::VeryLong
    }
}

/// Boundaries within 30 percent of the class volumes leave no doubt about volumes
/// farther away: one below 70 percent of a class's volume is put into that class
/// or a smaller one, and one above 130 percent of it into a larger one.
pub proof fn law_fuzzed_boundaries_are_clear_farther_away(
    short: nat,
    medium: nat,
    long: nat,
    class: SessionClass,
    real_bytes: nat,
)
    requires
        near(SessionClass::Short.volume(), short),
        near(SessionClass::Medium.volume(), medium),
        near(SessionClass::Long.volume(), long),
    ensures
        10 * real_bytes < 7 * class.volume() ==> class_between(short, medium, long, real_bytes).rank()
            <= class.rank(),
        10 * real_bytes > 13 * class.volume() && class != SessionClass::VeryLong ==> class_between(
            short,
            medium,
            long,
            real_bytes,
        ).rank() > class.rank(),
{
}

impl FuzzedClassThresholds {
    /// Largest volume of a short session.
    pub closed spec fn short_bound(&self) -> nat {
        self.short_max as nat
    }

    /// Largest volume of a medium session.
    pub closed spec fn medium_bound(&self) -> nat {
        self.medium_max as nat
    }

    /// Largest volume of a long session.
    pub closed spec fn long_bound(&self) -> nat {
        self.long_max as nat
    }

    /// The boundaries are in ascending order.
    pub open spec fn wf(&self) -> bool {
        self.short_bound() < self.medium_bound() < self.long_bound()
    }

    /// The thresholds with these boundaries.
    pub fn from_draws(short_max: usize, medium_max: usize, long_max: usize) -> (t:
        FuzzedClassThresholds)
        requires
            short_max < medium_max < long_max,
        ensures
            t.wf(),
            t.short_bound() == short_max,
            t.medium_bound() == medium_max,
            t.long_bound() == long_max,
    {
        FuzzedClassThresholds { short_max, medium_max, long_max }
    }

    /// The class of a session that carried `real_bytes`.
    pub fn classify(&self, real_bytes: usize) -> (class: SessionClass)
        ensures
            class == class_between(
                self.short_bound(),
                self.medium_bound(),
                self.long_bound(),
                real_bytes as nat,
            ),
    {
        if real_bytes <= self.short_max {
            SessionClass::Short
        } else if real_bytes <= self.medium_max {
            SessionClass::Medium
        } else if real_bytes <= self.long_max {
            SessionClass::Long
        } else {
            SessionClass::VeryLong
        }
    }

    /// Largest volume of a short session.
    pub fn short_max(&self) -> (n: usize)
        ensures
            n == self.short_bound(),
    {
        self.short_max
    }

    /// Largest volume of a medium session.
    pub fn medium_max(&self) -> (n: usize)
        ensures
            n == self.medium_bound(),
    {
        self.medium_max
    }

    /// Largest volume of a long session.
    pub fn long_max(&self) -> (n: usize)
        ensures
            n == self.long_bound(),
    {
        self.long_max
    }
}

/// `total * part / whole`, rounded to the nearest integer, halves up.
pub open spec fn share(total: nat, part: nat, whole: nat) -> nat
    recommends
        whole > 0,
{
    (2 * total * part + whole) / (2 * whole)
}

/// What a session has sent, measured against its class.
#[derive(Debug)]
pub struct SessionBounder {
    class: SessionClass,
    real_bytes_sent: usize,
    session_start: Instant,
}

/// What a bounder holds.
pub struct BounderState {
    pub class: SessionClass,
    pub real_bytes: nat,
    pub start: Instant,
}

impl BounderState {
    /// Dummy bytes the session needs in all.
    pub open spec fn padding(self) -> nat {
        missing(self.class.volume(), self.real_bytes)
    }

    /// Nanoseconds of the class's duration that have passed at `now`.
    pub open spec fn elapsed(self, now: Instant) -> nat {
        let lasted = missing(now.nanos as nat, self.start.nanos as nat);
        let whole = self.class.seconds() * NANOS_PER_SEC as nat;
        if lasted < whole {
            lasted
        } else {
            whole
        }
    }

    /// Dummy bytes that should be out at `now`: the padding grows evenly over
    /// the class's duration.
    pub open spec fn padding_due(self, now: Instant) -> nat {
        share(self.padding(), self.elapsed(now), self.class.seconds() * NANOS_PER_SEC as nat)
    }

    /// Nanoseconds of the class's duration still to come at `now`.
    pub open spec fn nanos_left(self, now: Instant) -> nat {
        missing(
            self.class.seconds() * NANOS_PER_SEC as nat,
            missing(now.nanos as nat, self.start.nanos as nat),
        )
    }
}

impl View for SessionBounder {
    type V = BounderState;

    closed spec fn view(&self) -> BounderState {
        BounderState {
            class: self.class,
            real_bytes: self.real_bytes_sent as nat,
            start: self.session_start,
        }
    }
}

impl SessionBounder {
    /// A session of `class` that starts at `now`.
    pub fn new(class: SessionClass, now: Instant) -> (b: SessionBounder)
        ensures
            b@ == (BounderState { class, real_bytes: 0, start: now }),
    {
        SessionBounder { class, real_bytes_sent: 0, session_start: now }
    }

    /// The session's class.
    pub fn class(&self) -> (c: SessionClass)
        ensures
            c == self@.class,
    {
        self.class
    }

    /// Records real traffic. The count stops at the largest `usize`.
    pub fn record_real_bytes(&mut self, bytes: usize)
        ensures
            final(self)@ == (BounderState {
                real_bytes: if old(self)@.real_bytes + bytes <= usize::MAX {
                    old(self)@.real_bytes + bytes as nat
                } else {
                    usize::MAX as nat
                },
                ..old(self)@
            }),
    {
        self.real_bytes_sent = self.real_bytes_sent.saturating_add(bytes);
    }

    /// Dummy bytes the session needs in all.
    pub fn volume_padding_remaining(&self) -> (n: usize)
        ensures
            n == self@.padding(),
    {
        self.class.padding_remaining(self.real_bytes_sent)
    }

    /// How much of the class's duration is still to come at `now`.
    pub fn time_remaining(&self, now: Instant) -> (d: Duration)
        ensures
            d.nanos == self@.nanos_left(now),
    {
        let elapsed = now.since(self.session_start);
        let target = self.class.target_duration();
        Duration::from_nanos(target.nanos.saturating_sub(elapsed.nanos))
    }

    /// Whether real traffic has filled the class's volume and the class's
    /// duration has passed at `now`.
    pub fn is_complete(&self, now: Instant) -> (b: bool)
        ensures
            b == (self@.real_bytes >= self@.class.volume() && self@.nanos_left(now) == 0),
    {
        self.real_bytes_sent >= self.class.target_volume_bytes() && self.time_remaining(
            now,
        ).is_zero()
    }

    /// Dummy bytes that are overdue at `now`, given how many are out.
    pub fn dummy_bytes_needed_now(&self, dummy_bytes_emitted: usize, now: Instant) -> (n: usize)
        ensures
            n == missing(self@.padding_due(now), dummy_bytes_emitted as nat),
    {
        let total_padding: usize = self.volume_padding_remaining();
        let lasted: u128 = now.since(self.session_start).nanos;
        let whole: u128 = self.class.target_duration().nanos;
        let part: u128 = if lasted < whole {
            lasted
        } else {
            whole
        };
        assert(total_padding <= 268_435_456);
        assert(part <= whole <= 7_200_000_000_000);
        assert(2 * total_padding * part <= 2 * 268_435_456 * 7_200_000_000_000) by (nonlinear_arith)
            requires
                total_padding <= 268_435_456,
                part <= 7_200_000_000_000,
        ;
        assert(2 * total_padding <= 536_870_912);
        let due: u128 = (2 * total_padding as u128 * part + whole) / (2 * whole);
        assert(due <= total_padding) by (nonlinear_arith)
            requires
                due == (2 * total_padding * part + whole) / (2 * whole as int),
                part <= whole,
                whole > 0,
        ;
        (due as usize).saturating_sub(dummy_bytes_emitted)
    }

    /// Dummy bytes to send at the end so that the volume comes out exactly.
    pub fn final_padding_bytes(&self, dummy_bytes_emitted: usize) -> (n: usize)
        ensures
            n == missing(self@.padding(), dummy_bytes_emitted as nat),
    {
        self.volume_padding_remaining().saturating_sub(dummy_bytes_emitted)
    }
}

/// Real traffic, the dummy bytes sent and the final padding add up to the
/// class's volume, unless real traffic and dummies already exceed it.
pub proof fn law_final_padding_meets_the_volume(session: BounderState, dummies: nat)
    requires
        session.real_bytes + dummies <= session.class.volume(),
    ensures
        session.real_bytes + dummies + missing(session.padding(), dummies)
            == session.class.volume(),
{
}

/// The dummy bytes that are due grow from nothing at the start of the session
/// to all the padding at its end.
pub proof fn law_padding_due_runs_from_nothing_to_all(session: BounderState, now: Instant)
    ensures
        now.nanos <= session.start.nanos ==> session.padding_due(now) == 0,
        now.nanos >= session.start.nanos + session.class.seconds() * NANOS_PER_SEC
            ==> session.padding_due(now) == session.padding(),
        session.padding_due(now) <= session.padding(),
{
    let total = session.padding();
    let part = session.elapsed(now);
    let whole = session.class.seconds() * NANOS_PER_SEC as nat;
    assert(whole > 0);
    assert(share(total, part, whole) <= total) by (nonlinear_arith)
        requires
            part <= whole,
            whole > 0,
    ;
    if part == 0 {
        assert(share(total, part, whole) == 0) by (nonlinear_arith)
            requires
                part == 0,
                whole > 0,
        ;
    }
    if part == whole {
        assert(share(total, part, whole) == total) by (nonlinear_arith)
            requires
                part == whole,
                whole > 0,
        ;
    }
}

/// The dummy bytes that are due never become fewer as time passes.
pub proof fn law_padding_due_never_falls(session: BounderState, earlier: Instant, later: Instant)
    requires
        earlier.nanos <= later.nanos,
    ensures
        session.padding_due(earlier) <= session.padding_due(later),
{
    let total = session.padding();
    let a = session.elapsed(earlier);
    let b = session.elapsed(later);
    let whole = session.class.seconds() * NANOS_PER_SEC as nat;
    let low = (2 * total * a + whole) as int;
    let high = (2 * total * b + whole) as int;
    assert(low <= high) by (nonlinear_arith)
        requires
            low == 2 * total * a + whole,
            high == 2 * total * b + whole,
            a <= b,
    ;
    vstd::arithmetic::div_mod::lemma_div_is_ordered(low, high, (2 * whole) as int);
}

/// Padding grows evenly: what is due at a time is the padding's share of the time
/// that has passed, to within half a byte.
pub proof fn law_padding_grows_evenly(session: BounderState, now: Instant)
    requires
        now.nanos >= session.start.nanos,
        now.nanos - session.start.nanos <= session.class.seconds() * 1_000_000_000,
    ensures
        ({
            let whole = (session.class.seconds() * 1_000_000_000) as int;
            let passed = now.nanos - session.start.nanos;
            let exact = session.padding() * passed;
            let due = session.padding_due(now) * whole;
            -whole <= 2 * (due - exact) <= whole
        }),
{
    let whole = (session.class.seconds() * 1_000_000_000) as int;
    let passed = now.nanos - session.start.nanos;
    let total = session.padding() as int;
    let due = session.padding_due(now) as int;
    assert(session.elapsed(now) == passed);
    assert(due == (2 * total * passed + whole) / (2 * whole));
    let x = 2 * total * passed + whole;
    assert(2 * whole * due <= x < 2 * whole * due + 2 * whole) by (nonlinear_arith)
        requires
            due == x / (2 * whole),
            whole > 0,
    ;
    assert(2 * (due * whole) == 2 * whole * due) by (nonlinear_arith);
    assert(2 * (total * passed) == 2 * total * passed) by (nonlinear_arith);
}

/// What is missing makes up exactly what was wanted, and is nothing where there is
/// enough. So real traffic and the padding it leaves make up the class's volume.
pub proof fn law_what_is_missing_makes_up_the_rest(want: nat, have: nat, session: BounderState)
    ensures
        have <= want ==> have + missing(want, have) == want,
        have >= want ==> missing(want, have) == 0,
        session.real_bytes <= session.class.volume() ==> session.real_bytes + session.padding()
            == session.class.volume(),
        session.real_bytes >= session.class.volume() ==> session.padding() == 0,
{
}

/// Time that has passed and time that is left make up the class's duration, until
/// it is over.
pub proof fn law_time_runs_out(session: BounderState, now: Instant)
    requires
        now.nanos >= session.start.nanos,
    ensures
        now.nanos - session.start.nanos <= session.class.seconds() * 1_000_000_000
            ==> session.nanos_left(now) + (now.nanos - session.start.nanos)
            == session.class.seconds() * 1_000_000_000,
        now.nanos - session.start.nanos >= session.class.seconds() * 1_000_000_000
            ==> session.nanos_left(now) == 0,
{
}

/// What each class stands for: sixteen times the volume of the class before it,
/// from 64 KiB on, and half a minute, five minutes, half an hour and two hours.
pub proof fn law_classes_grow_sixteenfold(smaller: SessionClass, larger: SessionClass)
    requires
        larger.rank() == smaller.rank() + 1,
    ensures
        larger.volume() == 16 * smaller.volume(),
        smaller.rank() == 0 ==> smaller.volume() == 65_536 && smaller.seconds() == 30
            && larger.seconds() == 300,
        smaller.rank() == 1 ==> larger.seconds() == 1_800,
        smaller.rank() == 2 ==> larger.seconds() == 7_200,
{
}

} // verus!
