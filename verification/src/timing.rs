//! Burst timing: the delay before each burst follows a regime, and regimes
//! change after an amount of traffic that is itself drawn at random.
use crate::clock::{Duration, NANOS_PER_MILLI};
use crate::clumping::{
    draw_thresholds, wrong_role_message, wrong_role_text, ClumpingConfig, ClumpingError,
    CycleThresholds, DEFAULT_MAX_PACKETS_PER_BURST, DEFAULT_MAX_TIMEOUT,
    DEFAULT_MIN_PACKETS_PER_BURST, DEFAULT_MIN_TIMEOUT,
};
use crate::primitives::blake3_keyed;
use crate::rng::{Draw, RngState, SeededRng};
use crate::seeds::{EphemeralSeed, SeedRole};
use vstd::prelude::*;
use vstd::string::*;

verus! {

/// Shortest delay by default, in milliseconds.
pub const MIN_DELAY_MS: u64 = 4;

/// Longest delay by default, in milliseconds.
pub const MAX_DELAY_MS: u64 = 240;

/// The domain under which the scheduler's generator is seeded.
pub open spec fn timing_domain() -> Seq<u8> {
    "mixtor.timing.v1".spec_bytes()
}

/// The distribution delays are drawn from.
#[derive(Clone, Copy, Debug, PartialEq, Eq, Structural)]
pub enum TimingDistributionKind {
    Poisson,
    Pareto,
    Bimodal,
    BurstAndSilence,
    Uniform,
    Exponential,
}

/// The traffic after which a regime ends, whichever comes first.
#[derive(Clone, Copy, Debug, PartialEq, Eq, Structural)]
pub struct RegimeSwitchThreshold {
    pub bytes: u64,
    pub packets: u64,
}

/// A distribution and the traffic it holds for.
#[derive(Clone, Copy, Debug, PartialEq, Eq, Structural)]
pub struct TimingRegime {
    pub kind: TimingDistributionKind,
    pub switch_after: RegimeSwitchThreshold,
}

/// What the scheduler decides for one burst.
#[derive(Clone, Copy, Debug, PartialEq, Eq, Structural)]
pub struct TimingDecision {
    pub delay: Duration,
    pub regime: TimingRegime,
    pub pool_thresholds: CycleThresholds,
}

/// Why a configuration or a seed was refused.
#[derive(Debug, PartialEq, Eq)]
pub enum TimingError {
    InvalidConfig(&'static str),
    InvalidClumpingConfig(ClumpingError),
    WrongSeedRole { expected: SeedRole, actual: SeedRole },
}

impl From<ClumpingError> for TimingError {
    fn from(error: ClumpingError) -> (e: TimingError) {
        TimingError::InvalidClumpingConfig(error)
    }
}

impl vstd::std_specs::convert::FromSpecImpl<ClumpingError> for TimingError {
    open spec fn obeys_from_spec() -> bool {
        true
    }

    open spec fn from_spec(error: ClumpingError) -> TimingError {
        TimingError::InvalidClumpingConfig(error)
    }
}

impl TimingError {
    /// The error in words.
    pub open spec fn text(self) -> Seq<char> {
        match self {
            TimingError::InvalidConfig(message) => "invalid timing config: "@ + message@,
            TimingError::InvalidClumpingConfig(error) => error.text(),
            TimingError::WrongSeedRole { expected, actual } => wrong_role_text(expected, actual),
        }
    }

    /// The error in words.
    pub fn message(&self) -> (s: String)
        ensures
            s@ == self.text(),
    {
        match self {
            TimingError::InvalidConfig(message) => {
                let mut s = String::from_str("invalid timing config: ");
                s.append(message);
                s
            },
            TimingError::InvalidClumpingConfig(error) => error.message(),
            TimingError::WrongSeedRole { expected, actual } => wrong_role_message(
                *expected,
                *actual,
            ),
        }
    }
}

/// The ranges delays, regimes and pool thresholds are drawn from.
#[derive(Clone, Copy, Debug, PartialEq, Eq, Structural)]
pub struct TimingConfig {
    pub min_delay: Duration,
    pub max_delay: Duration,
    pub min_regime_bytes: u64,
    pub max_regime_bytes: u64,
    pub min_regime_packets: u64,
    pub max_regime_packets: u64,
    pub clumping: ClumpingConfig,
}

impl TimingConfig {
    /// The default configuration.
    pub open spec fn standard() -> TimingConfig {
        TimingConfig {
            min_delay: Duration { nanos: (MIN_DELAY_MS * NANOS_PER_MILLI) as u128 },
            max_delay: Duration { nanos: (MAX_DELAY_MS * NANOS_PER_MILLI) as u128 },
            min_regime_bytes: 24_576,
            max_regime_bytes: 524_288,
            min_regime_packets: 48,
            max_regime_packets: 1024,
            clumping: ClumpingConfig {
                min_packets_per_burst: DEFAULT_MIN_PACKETS_PER_BURST,
                max_packets_per_burst: DEFAULT_MAX_PACKETS_PER_BURST,
                min_timeout: Duration { nanos: (DEFAULT_MIN_TIMEOUT * NANOS_PER_MILLI) as u128 },
                max_timeout: Duration { nanos: (DEFAULT_MAX_TIMEOUT * NANOS_PER_MILLI) as u128 },
            },
        }
    }
}

impl Default for TimingConfig {
    fn default() -> (c: TimingConfig)
        ensures
            c == TimingConfig::standard(),
    {
        TimingConfig {
            min_delay: Duration::from_millis(MIN_DELAY_MS),
            max_delay: Duration::from_millis(MAX_DELAY_MS),
            min_regime_bytes: 24 * 1024,
            max_regime_bytes: 512 * 1024,
            min_regime_packets: 48,
            max_regime_packets: 1024,
            clumping: ClumpingConfig::default(),
        }
    }
}

impl TimingConfig {
    /// The first rule on timing itself that the configuration breaks, if any.
    pub open spec fn fault(self) -> Option<Seq<char>> {
        if self.min_delay.nanos == 0 {
            Some("minimum delay must be non-zero"@)
        } else if self.min_delay.nanos > self.max_delay.nanos {
            Some("minimum delay cannot exceed maximum delay"@)
        } else if self.min_regime_bytes == 0 || self.min_regime_packets == 0 {
            Some("regime switch thresholds must be non-zero"@)
        } else if self.min_regime_bytes > self.max_regime_bytes {
            Some("minimum regime bytes cannot exceed maximum regime bytes"@)
        } else if self.min_regime_packets > self.max_regime_packets {
            Some("minimum regime packets cannot exceed maximum regime packets"@)
        } else {
            None
        }
    }

    /// Whether the configuration breaks no rule, neither on timing nor on
    /// clumping.
    pub open spec fn valid(self) -> bool {
        self.fault() is None && self.clumping.fault() is None
    }

    /// Whether `error` reports the first rule that the configuration breaks;
    /// the rules on clumping come last.
    pub open spec fn refused_with(self, error: TimingError) -> bool {
        match self.fault() {
            Some(text) => error is InvalidConfig && error->InvalidConfig_0@ == text,
            None => {
                &&& self.clumping.fault() is Some
                &&& error is InvalidClumpingConfig
                &&& error->InvalidClumpingConfig_0 is InvalidConfig
                &&& error->InvalidClumpingConfig_0->InvalidConfig_0@
                    == self.clumping.fault()->Some_0
            },
        }
    }

    /// Hands the configuration back if it breaks no rule, and else reports the
    /// first rule it breaks.
    pub fn validate(self) -> (r: Result<TimingConfig, TimingError>)
        ensures
            match r {
                Ok(config) => self.valid() && config == self,
                Err(error) => !self.valid() && self.refused_with(error),
            },
    {
        if self.min_delay.is_zero() {
            return Err(TimingError::InvalidConfig("minimum delay must be non-zero"));
        }
        if self.min_delay.nanos > self.max_delay.nanos {
            return Err(TimingError::InvalidConfig("minimum delay cannot exceed maximum delay"));
        }
        if self.min_regime_bytes == 0 || self.min_regime_packets == 0 {
            return Err(TimingError::InvalidConfig("regime switch thresholds must be non-zero"));
        }
        if self.min_regime_bytes > self.max_regime_bytes {
            return Err(
                TimingError::InvalidConfig(
                    "minimum regime bytes cannot exceed maximum regime bytes",
                ),
            );
        }
        if self.min_regime_packets > self.max_regime_packets {
            return Err(
                TimingError::InvalidConfig(
                    "minimum regime packets cannot exceed maximum regime packets",
                ),
            );
        }
        match self.clumping.validate() {
            Ok(_) => Ok(self),
            Err(e) => Err(TimingError::from(e)),
        }
    }

    /// The delay for a sample of `sampled_ms` milliseconds: the sample itself
    /// where it lies between the shortest and the longest delay, counted in
    /// whole milliseconds, and else the nearer of the two.
    pub open spec fn delay_ms(self, sampled_ms: u64) -> int {
        let lo = self.min_delay.nanos as int / NANOS_PER_MILLI as int;
        let hi = self.max_delay.nanos as int / NANOS_PER_MILLI as int;
        let bounded = if sampled_ms < lo {
            lo
        } else if sampled_ms > hi {
            hi
        } else {
            sampled_ms as int
        };
        if bounded > u64::MAX {
            u64::MAX as int
        } else {
            bounded
        }
    }

    /// Keeps a sampled delay within the shortest and the longest delay.
    pub fn bound_delay(&self, sampled_ms: u64) -> (d: Duration)
        requires
            self.min_delay.nanos <= self.max_delay.nanos,
        ensures
            d.nanos == self.delay_ms(sampled_ms) * NANOS_PER_MILLI,
    {
        let lo: u128 = self.min_delay.as_millis();
        let hi: u128 = self.max_delay.as_millis();
        let sampled: u128 = sampled_ms as u128;
        let bounded: u128 = if sampled < lo {
            lo
        } else if sampled > hi {
            hi
        } else {
            sampled
        };
        let whole: u64 = if bounded > u64::MAX as u128 {
            u64::MAX
        } else {
            bounded as u64
        };
        Duration::from_millis(whole)
    }
}

/// The distribution that a draw from 0 to 5 stands for.
pub open spec fn kind_of_draw(draw: u32) -> TimingDistributionKind {
    if draw == 0 {
        TimingDistributionKind::Poisson
    } else if draw == 1 {
        TimingDistributionKind::Pareto
    } else if draw == 2 {
        TimingDistributionKind::Bimodal
    } else if draw == 3 {
        TimingDistributionKind::BurstAndSilence
    } else if draw == 4 {
        TimingDistributionKind::Uniform
    } else {
        TimingDistributionKind::Exponential
    }
}

impl TimingConfig {
    /// The generator once the kind of the next regime is drawn.
    pub open spec fn kind_drawn(self, rng: RngState) -> RngState {
        rng.then_draw(Draw::Range32 { lo: 0, hi: 5 })
    }

    /// The generator once the byte threshold is drawn, too.
    pub open spec fn bytes_drawn(self, rng: RngState) -> RngState {
        self.kind_drawn(rng).then_draw(
            Draw::Range64 { lo: self.min_regime_bytes, hi: self.max_regime_bytes },
        )
    }

    /// The generator once the whole regime is drawn.
    pub open spec fn regime_drawn(self, rng: RngState) -> RngState {
        self.bytes_drawn(rng).then_draw(
            Draw::Range64 { lo: self.min_regime_packets, hi: self.max_regime_packets },
        )
    }

    /// The regime drawn from a generator in state `rng`.
    pub open spec fn regime_from(self, rng: RngState) -> TimingRegime {
        TimingRegime {
            kind: kind_of_draw(rng.range32(0, 5)),
            switch_after: RegimeSwitchThreshold {
                bytes: self.kind_drawn(rng).range64(self.min_regime_bytes, self.max_regime_bytes),
                packets: self.bytes_drawn(rng).range64(
                    self.min_regime_packets,
                    self.max_regime_packets,
                ),
            },
        }
    }

    /// Whether a regime's thresholds lie in the ranges they are drawn from.
    pub open spec fn in_range(self, regime: TimingRegime) -> bool {
        &&& self.min_regime_bytes <= regime.switch_after.bytes <= self.max_regime_bytes
        &&& self.min_regime_packets <= regime.switch_after.packets <= self.max_regime_packets
    }
}

/// What a scheduler holds.
pub struct SchedulerState {
    pub config: TimingConfig,
    pub rng: RngState,
    pub regime: TimingRegime,
    pub bytes: u64,
    pub packets: u64,
}

/// `a + b`, or the largest 64-bit integer if that is smaller.
pub open spec fn capped_sum(a: u64, b: u64) -> u64 {
    if a + b > u64::MAX {
        u64::MAX
    } else {
        (a + b) as u64
    }
}

impl SchedulerState {
    /// The configuration is valid and the traffic counted stays below the
    /// thresholds of the current regime.
    pub open spec fn wf(self) -> bool {
        &&& self.config.valid()
        &&& self.config.clumping.drawable()
        &&& self.config.in_range(self.regime)
        &&& self.bytes < self.regime.switch_after.bytes
        &&& self.packets < self.regime.switch_after.packets
    }

    /// The scheduler once a burst has been counted. A burst that reaches a
    /// threshold ends the regime: the next one is drawn and counting starts
    /// anew.
    pub open spec fn observed(self, bytes: u64, packets: u64) -> SchedulerState {
        let bytes = capped_sum(self.bytes, bytes);
        let packets = capped_sum(self.packets, packets);
        if bytes >= self.regime.switch_after.bytes || packets >= self.regime.switch_after.packets {
            SchedulerState {
                config: self.config,
                rng: self.config.regime_drawn(self.rng),
                regime: self.config.regime_from(self.rng),
                bytes: 0,
                packets: 0,
            }
        } else {
            SchedulerState { bytes, packets, ..self }
        }
    }

    /// The decision for a burst whose delay was sampled as `sampled_ms`.
    pub open spec fn decision(self, sampled_ms: u64) -> TimingDecision {
        TimingDecision {
            delay: Duration { nanos: (self.config.delay_ms(sampled_ms) * NANOS_PER_MILLI) as u128 },
            regime: self.regime,
            pool_thresholds: self.config.clumping.thresholds_from(self.rng),
        }
    }
}

/// Decides how long each burst waits.
pub struct SeedATimingScheduler {
    config: TimingConfig,
    rng: SeededRng,
    regime: TimingRegime,
    bytes_in_regime: u64,
    packets_in_regime: u64,
}

impl View for SeedATimingScheduler {
    type V = SchedulerState;

    closed spec fn view(&self) -> SchedulerState {
        SchedulerState {
            config: self.config,
            rng: self.rng@,
            regime: self.regime,
            bytes: self.bytes_in_regime,
            packets: self.packets_in_regime,
        }
    }
}

impl SeedATimingScheduler {
    /// The scheduler made from a seed: in a regime drawn from a generator
    /// seeded for this purpose alone, with nothing counted.
    pub open spec fn started(seed_a: &EphemeralSeed, config: TimingConfig) -> SchedulerState {
        let rng = RngState::fresh(blake3_keyed(seed_a.material()@, timing_domain()));
        SchedulerState {
            config,
            rng: config.regime_drawn(rng),
            regime: config.regime_from(rng),
            bytes: 0,
            packets: 0,
        }
    }

    /// A scheduler under the default configuration.
    pub fn new(seed_a: &EphemeralSeed) -> (r: Result<SeedATimingScheduler, TimingError>)
        ensures
            match r {
                Ok(s) => seed_a.spec_role() == SeedRole::TimingAndPool && s@.wf() && s@
                    == Self::started(seed_a, TimingConfig::standard()),
                Err(e) => seed_a.spec_role() != SeedRole::TimingAndPool && e
                    == (TimingError::WrongSeedRole {
                    expected: SeedRole::TimingAndPool,
                    actual: seed_a.spec_role(),
                }),
            },
    {
        Self::with_config(seed_a, TimingConfig::default())
    }

    /// A scheduler under `config`. The seed must be the one for timing and
    /// pooling.
    pub fn with_config(seed_a: &EphemeralSeed, config: TimingConfig) -> (r: Result<
        SeedATimingScheduler,
        TimingError,
    >)
        requires
            config.valid() ==> config.clumping.drawable(),
        ensures
            match r {
                Ok(s) => seed_a.spec_role() == SeedRole::TimingAndPool && config.valid() && s@.wf()
                    && s@ == Self::started(seed_a, config),
                Err(e) => if seed_a.spec_role() != SeedRole::TimingAndPool {
                    e == (TimingError::WrongSeedRole {
                        expected: SeedRole::TimingAndPool,
                        actual: seed_a.spec_role(),
                    })
                } else {
                    !config.valid() && config.refused_with(e)
                },
            },
    {
        if seed_a.role() != SeedRole::TimingAndPool {
            return Err(
                TimingError::WrongSeedRole {
                    expected: SeedRole::TimingAndPool,
                    actual: seed_a.role(),
                },
            );
        }
        let config = match config.validate() {
            Ok(config) => config,
            Err(e) => {
                return Err(e);
            },
        };
        let mut rng = SeededRng::new(seed_a.derive_rng_seed("mixtor.timing.v1".as_bytes()));
        let regime = Self::next_regime(config, &mut rng);
        Ok(
            SeedATimingScheduler {
                config,
                rng,
                regime,
                bytes_in_regime: 0,
                packets_in_regime: 0,
            },
        )
    }

    /// Counts a burst, and ends the regime if the burst reaches one of its
    /// thresholds.
    pub fn observe_burst(&mut self, bytes: u64, packets: u64)
        requires
            old(self)@.wf(),
        ensures
            final(self)@.wf(),
            final(self)@ == old(self)@.observed(bytes, packets),
    {
        self.bytes_in_regime = self.bytes_in_regime.saturating_add(bytes);
        self.packets_in_regime = self.packets_in_regime.saturating_add(packets);
        if self.bytes_in_regime >= self.regime.switch_after.bytes || self.packets_in_regime
            >= self.regime.switch_after.packets {
            self.regime = Self::next_regime(self.config, &mut self.rng);
            self.bytes_in_regime = 0;
            self.packets_in_regime = 0;
        }
    }

    /// Decides on the next burst, given a delay sampled from the current
    /// regime's distribution and rounded to milliseconds.
    pub fn next_decision(&mut self, sampled_ms: u64) -> (d: TimingDecision)
        requires
            old(self)@.wf(),
        ensures
            final(self)@.wf(),
            d == old(self)@.decision(sampled_ms),
            final(self)@ == (SchedulerState {
                rng: old(self)@.config.clumping.thresholds_drawn(old(self)@.rng),
                ..old(self)@
            }),
            old(self)@.config.clumping.in_range(d.pool_thresholds),
    {
        let delay = self.config.bound_delay(sampled_ms);
        let regime = self.regime;
        let pool_thresholds = draw_thresholds(self.config.clumping, &mut self.rng);
        TimingDecision { delay, regime, pool_thresholds }
    }

    /// The current regime.
    pub fn current_regime(&self) -> (r: TimingRegime)
        ensures
            r == self@.regime,
    {
        self.regime
    }

    /// Bytes counted in the current regime.
    pub fn bytes_in_regime(&self) -> (n: u64)
        ensures
            n == self@.bytes,
    {
        self.bytes_in_regime
    }

    /// Packets counted in the current regime.
    pub fn packets_in_regime(&self) -> (n: u64)
        ensures
            n == self@.packets,
    {
        self.packets_in_regime
    }

    /// The configuration.
    pub fn config(&self) -> (c: TimingConfig)
        ensures
            c == self@.config,
    {
        self.config
    }

    /// The generator that delays are sampled with.
    pub fn rng(&mut self) -> (r: &mut SeededRng)
        ensures
            r@ == old(self)@.rng,
            final(self)@ == (SchedulerState { rng: final(r)@, ..old(self)@ }),
    {
        &mut self.rng
    }

    fn next_regime(config: TimingConfig, rng: &mut SeededRng) -> (r: TimingRegime)
        requires
            config.valid(),
        ensures
            r == config.regime_from(old(rng)@),
            config.in_range(r),
            final(rng)@ == config.regime_drawn(old(rng)@),
    {
        let draw: u32 = rng.range_u32(0, 5);
        let kind = match draw {
            0 => TimingDistributionKind::Poisson,
            1 => TimingDistributionKind::Pareto,
            2 => TimingDistributionKind::Bimodal,
            3 => TimingDistributionKind::BurstAndSilence,
            4 => TimingDistributionKind::Uniform,
            _ => TimingDistributionKind::Exponential,
        };
        let bytes: u64 = rng.range_u64(config.min_regime_bytes, config.max_regime_bytes);
        let packets: u64 = rng.range_u64(config.min_regime_packets, config.max_regime_packets);
        TimingRegime { kind, switch_after: RegimeSwitchThreshold { bytes, packets } }
    }
}

/// Every delay lies between the shortest and the longest delay, taken in whole
/// milliseconds.
pub proof fn law_delays_stay_within_the_configured_range(config: TimingConfig, sampled_ms: u64)
    requires
        config.valid(),
        config.max_delay.nanos / NANOS_PER_MILLI <= u64::MAX,
    ensures
        config.min_delay.nanos as int / NANOS_PER_MILLI as int <= config.delay_ms(sampled_ms),
        config.delay_ms(sampled_ms) <= config.max_delay.nanos as int / NANOS_PER_MILLI as int,
{
}

/// Traffic below both thresholds leaves the regime as it is, and nothing is
/// drawn.
pub proof fn law_regime_lasts_until_a_threshold(s: SchedulerState, bytes: u64, packets: u64)
    requires
        s.bytes + bytes < s.regime.switch_after.bytes,
        s.packets + packets < s.regime.switch_after.packets,
    ensures
        s.observed(bytes, packets).regime == s.regime,
        s.observed(bytes, packets).rng == s.rng,
        s.observed(bytes, packets).bytes == s.bytes + bytes,
        s.observed(bytes, packets).packets == s.packets + packets,
{
}

/// A sample that lies between the shortest and the longest delay is the delay
/// itself; one below is the shortest and one above the longest. The decision's
/// delay is that many whole milliseconds, under the regime in force.
pub proof fn law_delays_are_the_samples(s: SchedulerState, sampled_ms: u64)
    requires
        s.wf(),
        s.config.max_delay.nanos <= u64::MAX as int * 1_000_000,
    ensures
        s.config.min_delay.nanos <= sampled_ms * 1_000_000 <= s.config.max_delay.nanos
            ==> s.decision(sampled_ms).delay.nanos == sampled_ms * 1_000_000,
        sampled_ms * 1_000_000 < s.config.min_delay.nanos ==> s.decision(sampled_ms).delay.nanos
            <= s.config.min_delay.nanos < s.decision(sampled_ms).delay.nanos + 1_000_000,
        sampled_ms * 1_000_000 > s.config.max_delay.nanos ==> s.decision(sampled_ms).delay.nanos
            <= s.config.max_delay.nanos < s.decision(sampled_ms).delay.nanos + 1_000_000,
        s.decision(sampled_ms).regime == s.regime,
        s.config.clumping.in_range(s.decision(sampled_ms).pool_thresholds),
{
}

/// Longer samples never give shorter delays.
pub proof fn law_longer_samples_wait_no_less(config: TimingConfig, shorter: u64, longer: u64)
    requires
        config.valid(),
        shorter <= longer,
    ensures
        config.delay_ms(shorter) <= config.delay_ms(longer),
{
}

/// A burst that reaches either threshold ends the regime: another is drawn, with
/// thresholds in their ranges, and counting starts at nothing.
pub proof fn law_regimes_end_at_a_threshold(s: SchedulerState, bytes: u64, packets: u64)
    requires
        s.wf(),
        s.bytes + bytes >= s.regime.switch_after.bytes || s.packets + packets
            >= s.regime.switch_after.packets,
    ensures
        s.observed(bytes, packets).bytes == 0,
        s.observed(bytes, packets).packets == 0,
        s.observed(bytes, packets).rng.seed == s.rng.seed,
        s.observed(bytes, packets).rng.log.len() == s.rng.log.len() + 3,
        s.observed(bytes, packets).rng.log.take(s.rng.log.len() as int) == s.rng.log,
        s.observed(bytes, packets).config == s.config,
        s.observed(bytes, packets).wf(),
{
    assert(s.observed(bytes, packets).rng.log.take(s.rng.log.len() as int) =~= s.rng.log);
}

/// Each of the six distributions has a draw of its own, and what a regime is
/// follows from the draws: another first number gives another distribution, and
/// other thresholds come of other numbers.
pub proof fn law_regimes_follow_the_draws(config: TimingConfig, a: RngState, b: RngState)
    requires
        config.valid(),
    ensures
        a.range32(0, 5) != b.range32(0, 5) ==> config.regime_from(a).kind != config.regime_from(b).kind,
        config.in_range(config.regime_from(a)),
{
}

/// What a configuration must be: delays and thresholds are not zero, no range's
/// lower end exceeds its upper end, and the same holds of the pool's part.
pub proof fn law_schedules_have_ranges(config: TimingConfig)
    ensures
        config.valid() <==> {
            &&& 1 <= config.min_delay.nanos <= config.max_delay.nanos
            &&& 1 <= config.min_regime_bytes <= config.max_regime_bytes
            &&& 1 <= config.min_regime_packets <= config.max_regime_packets
            &&& 1 <= config.clumping.min_packets_per_burst <= config.clumping.max_packets_per_burst
            &&& 1 <= config.clumping.min_timeout.nanos <= config.clumping.max_timeout.nanos
        },
{
}

/// Which distribution a draw stands for; all six are as likely.
pub proof fn law_distributions_are_as_likely(config: TimingConfig, rng: RngState)
    ensures
        ({
            let draw = rng.range32(0, 5);
            let kind = config.regime_from(rng).kind;
            &&& draw <= 5
            &&& kind == TimingDistributionKind::Poisson <==> draw == 0
            &&& kind == TimingDistributionKind::Pareto <==> draw == 1
            &&& kind == TimingDistributionKind::Bimodal <==> draw == 2
            &&& kind == TimingDistributionKind::BurstAndSilence <==> draw == 3
            &&& kind == TimingDistributionKind::Uniform <==> draw == 4
            &&& kind == TimingDistributionKind::Exponential <==> draw == 5
            &&& config.regime_drawn(rng).seed == rng.seed
            &&& config.regime_drawn(rng).log.len() == rng.log.len() + 3
        }),
{
}

/// Counts stay at the largest number once they reach it; they never wrap.
pub proof fn law_counts_never_wrap(a: u64, b: u64)
    ensures
        a + b <= u64::MAX ==> capped_sum(a, b) == a + b,
        a + b > u64::MAX ==> capped_sum(a, b) == u64::MAX,
        capped_sum(a, b) >= a,
        capped_sum(a, b) == capped_sum(b, a),
{
}

/// A new scheduler has counted nothing, and is in the regime that its own
/// generator draws first. Under the default configuration bursts wait 4 to 240
/// milliseconds, and a regime lasts 24 to 512 kibibytes or 48 to 1024 packets.
pub proof fn law_new_schedulers_have_counted_nothing(seed_a: &EphemeralSeed, config: TimingConfig)
    ensures
        ({
            let s = SeedATimingScheduler::started(seed_a, config);
            let rng = RngState::fresh(blake3_keyed(seed_a.material()@, timing_domain()));
            &&& s.bytes == 0 && s.packets == 0
            &&& s.config == config
            &&& s.regime == config.regime_from(rng)
            &&& s.rng == config.regime_drawn(rng)
        }),
        ({
            let c = SeedATimingScheduler::started(seed_a, TimingConfig::standard()).config;
            &&& c.valid()
            &&& c.min_delay.nanos == 4_000_000 && c.max_delay.nanos == 240_000_000
            &&& c.min_regime_bytes == 24 * 1024 && c.max_regime_bytes == 512 * 1024
            &&& c.min_regime_packets == 48 && c.max_regime_packets == 1024
            &&& c.clumping.min_packets_per_burst == 2 && c.clumping.max_packets_per_burst == 7
            &&& c.clumping.min_timeout.nanos == 12_000_000
            &&& c.clumping.max_timeout.nanos == 85_000_000
        }),
{
}

} // verus!
