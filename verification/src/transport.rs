//! Rules of the transport: when sessions end, and how connections are told
//! apart on a shared wire.
use crate::cells::CELL_BYTES;
use crate::clock::{Duration, Instant, NANOS_PER_MILLI, NANOS_PER_SEC};
use crate::session_bounder::{class_between, FuzzedClassThresholds, SessionClass};
use crate::text::{
    chars_of, copy_range, decimal, is_digit, lemma_decimal_reads_back, number_up_to, parse_number,
};
use vstd::prelude::*;
use vstd::string::*;

verus! {

/// Largest read from an application or a bridge.
pub const DEFAULT_MAX_FRAME_LEN: usize = 65_536;

/// Cells to a multiple of which a fixed tail is filled up.
pub const TAIL_VOLUME_QUANTUM_CELLS: u64 = 256;

/// Length of an epoch by default, in seconds.
pub const DEFAULT_EPOCH_DURATION: u64 = 5;

/// Shortest time a refused peer is kept waiting, in seconds.
pub const BLACKHOLE_MIN_SECS: u64 = 2;

/// Longest time a refused peer is kept waiting, in seconds.
pub const BLACKHOLE_MAX_SECS: u64 = 30;

/// Divides time into epochs of equal length. Sessions that end at the end of an
/// epoch end together with others.
#[derive(Clone, Copy, Debug, PartialEq, Eq, Structural)]
pub struct EpochClock {
    origin: Instant,
    period: Duration,
}

impl EpochClock {
    /// When the first epoch began.
    pub closed spec fn start(self) -> nat {
        self.origin.nanos as nat
    }

    /// Nanoseconds in an epoch.
    pub closed spec fn length(self) -> nat {
        self.period.nanos as nat
    }

    /// The first end of an epoch after `at`; an instant before the first epoch
    /// counts as its beginning. Without a length there are no epochs, and `at`
    /// itself is the end.
    pub open spec fn boundary(self, at: int) -> int {
        if self.length() == 0 {
            at
        } else {
            let elapsed = if at >= self.start() {
                at - self.start()
            } else {
                0
            };
            self.start() + (elapsed / self.length() as int + 1) * self.length()
        }
    }

    /// A clock whose first epoch begins at `now`.
    pub fn new(period: Duration, now: Instant) -> (c: EpochClock)
        ensures
            c.start() == now.nanos,
            c.length() == period.nanos,
    {
        EpochClock { origin: now, period }
    }

    /// The first end of an epoch after `now`.
    pub fn next_boundary(&self, now: Instant) -> (t: Instant)
        requires
            self.boundary(now.nanos as int) <= u128::MAX,
        ensures
            t.nanos == self.boundary(now.nanos as int),
    {
        let elapsed: u128 = now.since(self.origin).nanos;
        let period: u128 = self.period.nanos;
        if period == 0 {
            return now;
        }
        let epochs: u128 = elapsed / period;
        proof {
            assert((epochs + 1) * period == epochs * period + period) by (nonlinear_arith);
            assert(0 <= epochs * period) by (nonlinear_arith)
                requires
                    0 <= epochs,
                    0 <= period,
            ;
            assert(epochs + 1 <= (epochs + 1) * period) by (nonlinear_arith)
                requires
                    period >= 1,
                    epochs >= 0,
            ;
        }
        let next: u128 = (epochs + 1) * period;
        self.origin.after(Duration::from_nanos(next))
    }

    /// The clock's period.
    pub fn period(&self) -> (d: Duration)
        ensures
            d.nanos == self.length(),
    {
        self.period
    }
}

/// The end of an epoch lies after the instant asked about, at most one epoch
/// away, and a whole number of epochs from the beginning.
pub proof fn law_boundaries_are_ahead_and_aligned(clock: EpochClock, at: int)
    requires
        clock.length() > 0,
        at >= clock.start(),
    ensures
        at < clock.boundary(at) <= at + clock.length(),
        (clock.boundary(at) - clock.start()) % clock.length() as int == 0,
{
    let elapsed = at - clock.start();
    let n = clock.length() as int;
    let q = elapsed / n;
    assert(q * n <= elapsed < q * n + n) by (nonlinear_arith)
        requires
            q == elapsed / n,
            n > 0,
    ;
    assert((q + 1) * n == q * n + n) by (nonlinear_arith);
    assert(((q + 1) * n) % n == 0) by (nonlinear_arith)
        requires
            n > 0,
    ;
}

/// All instants of an epoch share its end: sessions that end within an epoch
/// leave together.
pub proof fn law_an_epoch_has_one_end(clock: EpochClock, a: int, b: int)
    requires
        clock.length() > 0,
        clock.start() <= a <= b,
        b < clock.boundary(a),
    ensures
        clock.boundary(a) == clock.boundary(b),
{
    let n = clock.length() as int;
    let x = a - clock.start();
    let y = b - clock.start();
    let q = x / n;
    assert(q * n <= x) by (nonlinear_arith)
        requires
            q == x / n,
            n > 0,
    ;
    assert((q + 1) * n == q * n + n) by (nonlinear_arith);
    assert(y / n == q) by (nonlinear_arith)
        requires
            q * n <= x <= y < q * n + n,
            n > 0,
    ;
}

/// How long cover goes on once real traffic has ended.
#[derive(Clone, Copy, Debug, PartialEq, Eq, Structural)]
pub enum TailPolicy {
    /// Not at all.
    Off,
    /// Until the session has lasted this long.
    Fixed(Duration),
    /// Until the session fills its class.
    ByClass,
    /// Until the end of an epoch.
    Epoch(EpochClock),
}

/// A letter in lower case, ASCII letters only.
pub open spec fn lower(c: char) -> char {
    if 65 <= c as u32 <= 90 {
        ((c as u32 + 32) as u8) as char
    } else {
        c
    }
}

/// Whether two texts agree but for the case of ASCII letters.
pub open spec fn same_letters(a: Seq<char>, b: Seq<char>) -> bool {
    a.len() == b.len() && forall|i: int| 0 <= i < a.len() ==> lower(#[trigger] a[i]) == lower(b[i])
}

/// A letter in lower case.
fn to_lower(c: char) -> (r: char)
    ensures
        r == lower(c),
{
    let n: u32 = c as u32;
    if 65 <= n && n <= 90 {
        ((n + 32) as u8) as char
    } else {
        c
    }
}

/// Whether two texts agree but for the case of ASCII letters.
fn equal_letters(a: &[char], b: &[char]) -> (r: bool)
    ensures
        r == same_letters(a@, b@),
{
    if a.len() != b.len() {
        return false;
    }
    let mut i: usize = 0;
    while i < a.len()
        invariant
            i <= a@.len(),
            a@.len() == b@.len(),
            forall|j: int| 0 <= j < i ==> lower(#[trigger] a@[j]) == lower(b@[j]),
        decreases a@.len() - i,
    {
        if to_lower(a[i]) != to_lower(b[i]) {
            assert(lower(a@[i as int]) != lower(b@[i as int]));
            return false;
        }
        i = i + 1;
    }
    true
}

/// Whether a text is this word, but for the case of its letters.
fn is_word(text: &[char], word: &str) -> (r: bool)
    ensures
        r == same_letters(text@, word@),
{
    let letters = chars_of(word);
    equal_letters(text, letters.as_slice())
}

/// The policy of epochs this long, the first of which begins at `now`.
pub open spec fn is_epoch_policy(policy: Option<TailPolicy>, nanos: nat, now: Instant) -> bool {
    &&& policy is Some
    &&& policy->Some_0 is Epoch
    &&& policy->Some_0->Epoch_0.start() == now.nanos
    &&& policy->Some_0->Epoch_0.length() == nanos
}

impl TailPolicy {
    /// The policy that a setting asks for: `epoch`, `epoch:` and a number of
    /// milliseconds, `class`, `off` or `none`, or a number of milliseconds, of
    /// which zero means off. Anything else asks for none.
    pub open spec fn asked_for(setting: Option<Seq<char>>, now: Instant, policy: Option<TailPolicy>) -> bool {
        match setting {
            None => policy is None,
            Some(v) => if same_letters(v, "epoch"@) {
                is_epoch_policy(
                    policy,
                    DEFAULT_EPOCH_DURATION as nat * NANOS_PER_SEC as nat,
                    now,
                )
            } else if v.len() > 6 && same_letters(v.take(6), "epoch:"@) {
                match number_up_to(v.skip(6), u64::MAX as nat) {
                    Some(ms) => is_epoch_policy(policy, ms * NANOS_PER_MILLI as nat, now),
                    None => policy is None,
                }
            } else if same_letters(v, "class"@) {
                policy == Some(TailPolicy::ByClass)
            } else if same_letters(v, "off"@) || same_letters(v, "none"@) {
                policy == Some(TailPolicy::Off)
            } else {
                match number_up_to(v, u64::MAX as nat) {
                    Some(ms) => if ms == 0 {
                        policy == Some(TailPolicy::Off)
                    } else {
                        policy == Some(
                            TailPolicy::Fixed(Duration { nanos: (ms * NANOS_PER_MILLI) as u128 }),
                        )
                    },
                    None => policy is None,
                }
            },
        }
    }

    /// The policy that a setting asks for, if it asks for one.
    pub fn from_env(setting: Option<&str>, now: Instant) -> (policy: Option<TailPolicy>)
        ensures
            Self::asked_for(text_view(setting), now, policy),
    {
        let v = match setting {
            None => {
                return None;
            },
            Some(text) => chars_of(text),
        };
        if is_word(v.as_slice(), "epoch") {
            return Some(
                TailPolicy::Epoch(
                    EpochClock::new(Duration::from_secs(DEFAULT_EPOCH_DURATION), now),
                ),
            );
        }
        if v.len() > 6 {
            let head = copy_range(v.as_slice(), 0, 6);
            assert(head@ =~= v@.take(6));
            if is_word(head.as_slice(), "epoch:") {
                let rest = copy_range(v.as_slice(), 6, v.len());
                assert(rest@ =~= v@.skip(6));
                return match parse_number(rest.as_slice(), u64::MAX as u128) {
                    Some(ms) => Some(
                        TailPolicy::Epoch(EpochClock::new(Duration::from_millis(ms as u64), now)),
                    ),
                    None => None,
                };
            }
        }
        if is_word(v.as_slice(), "class") {
            return Some(TailPolicy::ByClass);
        }
        if is_word(v.as_slice(), "off") || is_word(v.as_slice(), "none") {
            return Some(TailPolicy::Off);
        }
        match parse_number(v.as_slice(), u64::MAX as u128) {
            Some(ms) => {
                if ms == 0 {
                    Some(TailPolicy::Off)
                } else {
                    Some(TailPolicy::Fixed(Duration::from_millis(ms as u64)))
                }
            },
            None => None,
        }
    }

    /// The policy that a setting asks for, or else `default`.
    pub fn from_env_or(setting: Option<&str>, default: TailPolicy, now: Instant) -> (policy:
        TailPolicy)
        ensures
            Self::asked_for(text_view(setting), now, Some(policy)) || (Self::asked_for(
                text_view(setting),
                now,
                None,
            ) && policy == default),
    {
        match Self::from_env(setting, now) {
            Some(policy) => policy,
            None => default,
        }
    }

    /// The policy that a setting asks for, or else epochs of the default
    /// length.
    pub fn default_for_production(setting: Option<&str>, now: Instant) -> (policy: TailPolicy)
        ensures
            Self::asked_for(text_view(setting), now, Some(policy)) || (Self::asked_for(
                text_view(setting),
                now,
                None,
            ) && is_epoch_policy(
                Some(policy),
                DEFAULT_EPOCH_DURATION as nat * NANOS_PER_SEC as nat,
                now,
            )),
    {
        match Self::from_env(setting, now) {
            Some(policy) => policy,
            None => TailPolicy::Epoch(
                EpochClock::new(Duration::from_secs(DEFAULT_EPOCH_DURATION), now),
            ),
        }
    }
}

/// The text of a setting that may be there.
pub open spec fn text_view(setting: Option<&str>) -> Option<Seq<char>> {
    match setting {
        Some(text) => Some(text@),
        None => None,
    }
}

/// A count as a `usize`, or the largest one where it does not fit.
spec fn as_count_spec(n: u64) -> int {
    if n <= usize::MAX {
        n as int
    } else {
        usize::MAX as int
    }
}

/// A count as a `usize`, or the largest one where it does not fit.
fn as_count(n: u64) -> (r: usize)
    ensures
        r == as_count_spec(n),
{
    if n <= usize::MAX as u64 {
        n as usize
    } else {
        usize::MAX
    }
}

/// How long a session of a class lasts, and how many cells it sends.
pub open spec fn targets_of(class: SessionClass) -> (Duration, u64) {
    (
        Duration { nanos: (class.seconds() * NANOS_PER_SEC) as u128 },
        (class.volume() / CELL_BYTES as nat) as u64,
    )
}

/// How long a session of a class lasts, and how many cells it sends.
fn targets(class: SessionClass) -> (r: (Duration, u64))
    ensures
        r == targets_of(class),
{
    (class.target_duration(), (class.target_volume_bytes() / CELL_BYTES) as u64)
}

/// The smallest class that fits a volume.
pub open spec fn class_fitting(real_bytes: nat) -> SessionClass {
    if real_bytes <= SessionClass::Short.volume() {
        SessionClass::Short
    } else if real_bytes <= SessionClass::Medium.volume() {
        SessionClass::Medium
    } else if real_bytes <= SessionClass::Long.volume() {
        SessionClass::Long
    } else {
        SessionClass::VeryLong
    }
}

/// The targets of the smallest class that fits what was sent.
pub fn class_targets(real_bytes_sent: u64) -> (r: (Duration, u64))
    ensures
        r == targets_of(class_fitting(real_bytes_sent as nat)),
{
    let class = SessionClass::for_volume(as_count(real_bytes_sent));
    assert(SessionClass::Short.volume() < SessionClass::Medium.volume());
    assert(class == class_fitting(real_bytes_sent as nat)) by {
        let n = as_count_spec(real_bytes_sent);
        assert(n <= SessionClass::Short.volume() ==> class.rank() <= SessionClass::Short.rank());
        assert(n <= SessionClass::Medium.volume() ==> class.rank() <= SessionClass::Medium.rank());
        assert(n <= SessionClass::Long.volume() ==> class.rank() <= SessionClass::Long.rank());
    }
    targets(class)
}

/// The class of a volume under a session's own boundaries.
pub open spec fn class_under(thresholds: FuzzedClassThresholds, real_bytes: nat) -> SessionClass {
    class_between(
        thresholds.short_bound(),
        thresholds.medium_bound(),
        thresholds.long_bound(),
        real_bytes,
    )
}

/// The targets of the class of what was sent, under a session's own boundaries.
pub fn class_targets_fuzzy(real_bytes_sent: u64, thresholds: &FuzzedClassThresholds) -> (r: (
    Duration,
    u64,
))
    ensures
        r == targets_of(class_under(*thresholds, real_bytes_sent as nat)),
{
    let class = if real_bytes_sent <= usize::MAX as u64 {
        thresholds.classify(real_bytes_sent as usize)
    } else {
        let short: usize = thresholds.short_max();
        let medium: usize = thresholds.medium_max();
        let long: usize = thresholds.long_max();
        assert(real_bytes_sent > short && real_bytes_sent > medium && real_bytes_sent > long);
        SessionClass::VeryLong
    };
    targets(class)
}

/// Without a length there are no epochs: every instant is an end itself.
pub proof fn law_epochs_need_a_length(clock: EpochClock, at: int)
    requires
        clock.length() == 0,
    ensures
        clock.boundary(at) == at,
{
}

/// A number of milliseconds asks for a tail that lasts as long, and zero for
/// none; after `epoch:` it asks for epochs of that length.
pub proof fn law_numbers_set_the_tail(ms: u64, now: Instant, policy: Option<TailPolicy>)
    ensures
        ms == 0 ==> (TailPolicy::asked_for(Some(decimal(ms as nat)), now, policy) <==> policy == Some(
            TailPolicy::Off,
        )),
        ms > 0 ==> (TailPolicy::asked_for(Some(decimal(ms as nat)), now, policy) <==> policy is Some
            && policy->Some_0 is Fixed && policy->Some_0->Fixed_0.nanos == ms * 1_000_000),
        TailPolicy::asked_for(Some("epoch:"@ + decimal(ms as nat)), now, policy) <==> policy is Some
            && policy->Some_0 is Epoch && policy->Some_0->Epoch_0.start() == now.nanos
            && policy->Some_0->Epoch_0.length() == ms * 1_000_000,
{
    reveal_strlit("epoch");
    reveal_strlit("epoch:");
    reveal_strlit("class");
    reveal_strlit("off");
    reveal_strlit("none");
    let v = decimal(ms as nat);
    lemma_decimal_reads_back(ms as nat);
    assert(is_digit(v[0]));
    assert(lower(v[0]) == v[0]);
    assert(lower("epoch"@[0]) == 'e' && lower("class"@[0]) == 'c' && lower("off"@[0]) == 'o'
        && lower("none"@[0]) == 'n' && lower("epoch:"@[0]) == 'e');
    if v.len() > 6 {
        assert(v.take(6)[0] == v[0]);
    }
    let w = "epoch:"@ + v;
    assert(w.take(6) =~= "epoch:"@);
    assert(w.skip(6) =~= v);
}

/// The words for a policy, in whatever case their letters are, ask for that
/// policy; without a setting, none is asked for.
pub proof fn law_words_set_the_tail(v: Seq<char>, now: Instant, policy: Option<TailPolicy>)
    ensures
        spells(v, seq!['c', 'l', 'a', 's', 's']) ==> (TailPolicy::asked_for(Some(v), now, policy)
            <==> policy == Some(TailPolicy::ByClass)),
        spells(v, seq!['o', 'f', 'f']) || spells(v, seq!['n', 'o', 'n', 'e']) ==> (
        TailPolicy::asked_for(Some(v), now, policy) <==> policy == Some(TailPolicy::Off)),
        spells(v, seq!['e', 'p', 'o', 'c', 'h']) ==> (TailPolicy::asked_for(Some(v), now, policy)
            <==> policy is Some && policy->Some_0 is Epoch && policy->Some_0->Epoch_0.start()
            == now.nanos && policy->Some_0->Epoch_0.length() == 5_000_000_000),
        TailPolicy::asked_for(None, now, policy) <==> policy is None,
{
    reveal_strlit("epoch");
    reveal_strlit("epoch:");
    reveal_strlit("class");
    reveal_strlit("off");
    reveal_strlit("none");
    assert("epoch"@ =~= seq!['e', 'p', 'o', 'c', 'h']);
    assert("class"@ =~= seq!['c', 'l', 'a', 's', 's']);
    assert("off"@ =~= seq!['o', 'f', 'f']);
    assert("none"@ =~= seq!['n', 'o', 'n', 'e']);
    lemma_spelled(v, "epoch"@);
    lemma_spelled(v, "class"@);
    lemma_spelled(v, "off"@);
    lemma_spelled(v, "none"@);
    if spells(v, "class"@) {
        assert(lower(v[0]) == 'c');
    }
    if spells(v, "off"@) {
        assert(lower(v[0]) == 'o');
    }
    if spells(v, "none"@) {
        assert(lower(v[0]) == 'n');
    }
}

/// Whether a text spells a word, each letter small or capital.
pub open spec fn spells(v: Seq<char>, word: Seq<char>) -> bool {
    v.len() == word.len() && forall|i: int|
        0 <= i < v.len() ==> #[trigger] v[i] == word[i] || v[i] as u32 + 32 == word[i] as u32
}

proof fn lemma_spelled(v: Seq<char>, word: Seq<char>)
    requires
        forall|i: int| 0 <= i < word.len() ==> 97 <= #[trigger] word[i] as u32 <= 122,
    ensures
        spells(v, word) ==> same_letters(v, word),
{
    if spells(v, word) {
        assert forall|i: int| 0 <= i < v.len() implies lower(#[trigger] v[i]) == lower(word[i]) by {
            assert(97 <= word[i] as u32 <= 122);
        }
    }
}

/// What a volume asks for: half a minute and 127 cells up to 64 KiB, five minutes
/// and 2040 cells up to 1 MiB, half an hour and 32640 cells up to 16 MiB, and two
/// hours and 522247 cells beyond. Under boundaries of its own, a session asks for
/// the same by these.
pub proof fn law_volumes_set_the_targets(real_bytes: nat, thresholds: FuzzedClassThresholds)
    requires
        thresholds.wf(),
    ensures
        ({
            let plain = targets_of(class_fitting(real_bytes));
            let own = targets_of(class_under(thresholds, real_bytes));
            &&& asks_for(plain, 65_536, 1_048_576, 16_777_216, real_bytes)
            &&& asks_for(
                own,
                thresholds.short_bound(),
                thresholds.medium_bound(),
                thresholds.long_bound(),
                real_bytes,
            )
        }),
{
}

/// Whether targets are those of a volume between these boundaries.
pub open spec fn asks_for(
    targets: (Duration, u64),
    short: nat,
    medium: nat,
    long: nat,
    real_bytes: nat,
) -> bool {
    &&& real_bytes <= short ==> targets.0.nanos == 30_000_000_000 && targets.1 == 127
    &&& short < real_bytes <= medium ==> targets.0.nanos == 300_000_000_000 && targets.1 == 2_040
    &&& medium < real_bytes <= long ==> targets.0.nanos == 1_800_000_000_000 && targets.1
        == 32_640
    &&& long < real_bytes ==> targets.0.nanos == 7_200_000_000_000 && targets.1 == 522_247
}

/// An instant before the first epoch counts to it.
pub proof fn law_early_instants_are_in_the_first_epoch(clock: EpochClock, at: int)
    requires
        clock.length() > 0,
        at <= clock.start(),
    ensures
        clock.boundary(at) == clock.start() + clock.length(),
{
    let n = clock.length() as int;
    assert((0int / n + 1) * n == n) by (nonlinear_arith)
        requires
            n > 0,
    ;
}

} // verus!
