//! The composer: mixes bursts with cover and keeps the books that the mixing
//! depends on.
use crate::clock::{Duration, Instant, NANOS_PER_MILLI};
use crate::clumping::{payload_bytes, Burst, BurstView, Packet};
use crate::composition::{
    dummies_among, law_uniform_frames_weigh_by_count, reals_among, CompositionConfig,
    CompositionError, MixedBurst, MixedBurstView, RatioDistributionKind, RatioRegime, RatioSwitchThreshold,
    LENGTH_POOL_CAP, SPECTRAL_FLOOR_MS, SPIKY_QUIET_PERCENT,
};
use crate::frames::{fit_drawn, fit_to_cell, fitted, frame_views, FrameView, MixedFrame};
use crate::optimal_padding::{catch_all, padded, OptimalPadder, PadderState};
use crate::primitives::blake3_keyed;
use crate::rng::{Draw, RngState, SeededRng};
use crate::seeds::{EphemeralSeed, SeedRole};
use crate::self_test::{SelfTester, TesterState};
use crate::session_bounder::{missing, BounderState, SessionBounder};
use crate::timing::capped_sum;
use vstd::prelude::*;
use vstd::string::*;

verus! {

/// The domain under which the composer's generator is seeded.
pub open spec fn composition_domain() -> Seq<u8> {
    "mixtor.composition.v1".spec_bytes()
}

/// The domain under which the generator of keepalive gaps is seeded.
pub open spec fn spectral_domain() -> Seq<u8> {
    "mixtor.spectral.v1".spec_bytes()
}

/// The domain under which the privacy shaper's generator is seeded.
pub open spec fn dp_domain() -> Seq<u8> {
    "mixtor.dp.v1".spec_bytes()
}

/// The generator of keepalive gaps.
pub fn spectral_rng(seed_b: &EphemeralSeed) -> (r: SeededRng)
    ensures
        r@ == RngState::fresh(blake3_keyed(seed_b.material()@, spectral_domain())),
{
    SeededRng::new(seed_b.derive_rng_seed("mixtor.spectral.v1".as_bytes()))
}

/// The privacy shaper's generator.
pub fn dp_rng(seed_b: &EphemeralSeed) -> (r: SeededRng)
    ensures
        r@ == RngState::fresh(blake3_keyed(seed_b.material()@, dp_domain())),
{
    SeededRng::new(seed_b.derive_rng_seed("mixtor.dp.v1".as_bytes()))
}

/// The kind of regime that a draw from 0 to 19 stands for.
pub open spec fn ratio_kind_of_draw(draw: u32) -> RatioDistributionKind {
    if draw <= 2 {
        RatioDistributionKind::Sparse
    } else if draw <= 8 {
        RatioDistributionKind::Balanced
    } else if draw <= 15 {
        RatioDistributionKind::HeavyCover
    } else {
        RatioDistributionKind::Spiky
    }
}

/// The smaller of two counts.
pub open spec fn lesser(a: nat, b: nat) -> nat {
    if a < b {
        a
    } else {
        b
    }
}

impl CompositionConfig {
    /// The generator once the kind of the next regime is drawn.
    pub open spec fn kind_drawn(self, rng: RngState) -> RngState {
        rng.then_draw(Draw::Range32 { lo: 0, hi: 19 })
    }

    /// The generator once the burst threshold is drawn, too.
    pub open spec fn bursts_drawn(self, rng: RngState) -> RngState {
        self.kind_drawn(rng).then_draw(
            Draw::Range64 { lo: self.min_switch_bursts, hi: self.max_switch_bursts },
        )
    }

    /// The generator once the byte threshold is drawn, too.
    pub open spec fn bytes_drawn(self, rng: RngState) -> RngState {
        self.bursts_drawn(rng).then_draw(
            Draw::Range64 { lo: self.min_switch_real_bytes, hi: self.max_switch_real_bytes },
        )
    }

    /// The generator once the whole regime is drawn.
    pub open spec fn regime_drawn(self, rng: RngState) -> RngState {
        self.bytes_drawn(rng).then_draw(
            Draw::Range64 { lo: self.min_switch_real_packets, hi: self.max_switch_real_packets },
        )
    }

    /// The regime of this kind with these thresholds: the kind's range of dummy
    /// counts, capped at the most dummies a burst may have.
    pub open spec fn regime_with(
        self,
        kind: RatioDistributionKind,
        switch_after: RatioSwitchThreshold,
    ) -> RatioRegime {
        RatioRegime {
            kind,
            switch_after,
            dummy_lo: kind.range().0,
            dummy_hi: if kind.range().1 <= self.max_dummy_packets_per_burst {
                kind.range().1
            } else {
                self.max_dummy_packets_per_burst
            },
            spiky: kind == RatioDistributionKind::Spiky,
        }
    }

    /// The regime drawn from a generator in state `rng`.
    pub open spec fn regime_from(self, rng: RngState) -> RatioRegime {
        self.regime_with(
            ratio_kind_of_draw(rng.range32(0, 19)),
            RatioSwitchThreshold {
                bursts: self.kind_drawn(rng).range64(
                    self.min_switch_bursts,
                    self.max_switch_bursts,
                ),
                real_bytes: self.bursts_drawn(rng).range64(
                    self.min_switch_real_bytes,
                    self.max_switch_real_bytes,
                ),
                real_packets: self.bytes_drawn(rng).range64(
                    self.min_switch_real_packets,
                    self.max_switch_real_packets,
                ),
            },
        )
    }

    /// Whether a regime is one that this configuration draws.
    pub open spec fn regime_fits(self, regime: RatioRegime) -> bool {
        &&& regime == self.regime_with(regime.kind, regime.switch_after)
        &&& self.min_switch_bursts <= regime.switch_after.bursts <= self.max_switch_bursts
        &&& self.min_switch_real_bytes <= regime.switch_after.real_bytes
            <= self.max_switch_real_bytes
        &&& self.min_switch_real_packets <= regime.switch_after.real_packets
            <= self.max_switch_real_packets
    }
}

/// Draws the next regime.
fn next_regime(config: CompositionConfig, rng: &mut SeededRng) -> (r: RatioRegime)
    requires
        config.fault() is None,
    ensures
        r == config.regime_from(old(rng)@),
        config.regime_fits(r),
        final(rng)@ == config.regime_drawn(old(rng)@),
{
    let draw: u32 = rng.range_u32(0, 19);
    let kind = if draw <= 2 {
        RatioDistributionKind::Sparse
    } else if draw <= 8 {
        RatioDistributionKind::Balanced
    } else if draw <= 15 {
        RatioDistributionKind::HeavyCover
    } else {
        RatioDistributionKind::Spiky
    };
    let range: (usize, usize) = kind.dummy_count_range();
    let dummy_lo: usize = range.0;
    let dummy_hi: usize = if range.1 <= config.max_dummy_packets_per_burst {
        range.1
    } else {
        config.max_dummy_packets_per_burst
    };
    let spiky = matches!(kind, RatioDistributionKind::Spiky);
    let bursts: u64 = rng.range_u64(config.min_switch_bursts, config.max_switch_bursts);
    let real_bytes: u64 = rng.range_u64(
        config.min_switch_real_bytes,
        config.max_switch_real_bytes,
    );
    let real_packets: u64 = rng.range_u64(
        config.min_switch_real_packets,
        config.max_switch_real_packets,
    );
    RatioRegime {
        kind,
        switch_after: RatioSwitchThreshold { bursts, real_bytes, real_packets },
        dummy_lo,
        dummy_hi,
        spiky,
    }
}

/// What a composer holds.
pub struct ComposerState {
    pub config: CompositionConfig,
    pub rng: RngState,
    pub regime: RatioRegime,
    pub bursts: u64,
    pub real_bytes: u64,
    pub real_packets: u64,
    pub last_burst_at: Instant,
    pub next_keepalive_due: Instant,
    pub length_pool: Seq<usize>,
    pub length_pos: nat,
    pub last_real_burst_at: Option<Instant>,
    pub padder: PadderState,
    pub bounder: Option<BounderState>,
    pub dummy_bytes: nat,
    pub tester: TesterState,
    pub frame_clock_ms: u64,
}

/// The sum of a sequence of lengths.
pub open spec fn sum_of(lengths: Seq<usize>) -> nat
    decreases lengths.len(),
{
    if lengths.len() == 0 {
        0
    } else {
        sum_of(lengths.drop_last()) + lengths.last() as nat
    }
}

/// Bytes in the cover among the first `n` frames.
pub open spec fn dummy_bytes_in(frames: Seq<FrameView>, n: nat) -> nat
    decreases n,
{
    if n == 0 {
        0
    } else {
        dummy_bytes_in(frames, (n - 1) as nat) + if frames[n - 1] is Dummy {
            frames[n - 1].bytes().len()
        } else {
            0
        }
    }
}

impl ComposerState {
    /// The configuration is valid, the regime one it draws, the pool of lengths
    /// within its bounds, and the traffic counted below the regime's
    /// thresholds.
    pub open spec fn wf(self) -> bool {
        &&& self.config.fault() is None
        &&& self.config.regime_fits(self.regime)
        &&& self.length_pool.len() <= LENGTH_POOL_CAP
        &&& self.length_pos < LENGTH_POOL_CAP
        &&& self.padder.wf()
        &&& self.dummy_bytes <= usize::MAX
        &&& self.bursts < self.regime.switch_after.bursts
        &&& self.real_bytes < self.regime.switch_after.real_bytes
        &&& self.real_packets < self.regime.switch_after.real_packets
    }

    /// The pool once a length has joined: while it is not full the length is
    /// added, and then the oldest length gives way.
    pub open spec fn with_length(self, len: usize) -> ComposerState {
        if self.length_pool.len() < LENGTH_POOL_CAP {
            ComposerState { length_pool: self.length_pool.push(len), ..self }
        } else {
            ComposerState {
                length_pool: self.length_pool.update(self.length_pos as int, len),
                length_pos: (self.length_pos + 1) % (LENGTH_POOL_CAP as nat),
                ..self
            }
        }
    }

    /// The books once the lengths of the first `n` packets are noted, each
    /// three times in the pool and once in the padder.
    pub open spec fn with_packets(self, packets: Seq<Packet>, n: nat) -> ComposerState
        decreases n,
    {
        if n == 0 {
            self
        } else {
            let before = self.with_packets(packets, (n - 1) as nat);
            let len = packets[n - 1]@.len() as usize;
            let noted = before.with_length(len).with_length(len).with_length(len);
            ComposerState { padder: noted.padder.observed(len), ..noted }
        }
    }

    /// The generator once a spiky regime has drawn whether to stay quiet.
    pub open spec fn quiet_drawn(self) -> RngState {
        self.rng.then_draw(Draw::Ratio { numerator: SPIKY_QUIET_PERCENT, denominator: 100 })
    }

    /// Dummies that the regime alone gives the next burst. A spiky regime
    /// mostly gives one at most, and else a count from its range.
    pub open spec fn regime_count(self) -> nat {
        let lo = self.regime.dummy_lo;
        let hi = self.regime.dummy_hi;
        let drawn = if self.regime.spiky {
            if self.rng.ratio(SPIKY_QUIET_PERCENT, 100) {
                self.quiet_drawn().count(0, 1)
            } else {
                self.quiet_drawn().count(lo, hi)
            }
        } else {
            self.rng.count(lo, hi)
        };
        lesser(drawn as nat, self.config.max_dummy_packets_per_burst as nat)
    }

    /// The generator once that count is drawn.
    pub open spec fn count_drawn(self) -> RngState {
        let range = Draw::count(self.regime.dummy_lo, self.regime.dummy_hi);
        if self.regime.spiky {
            if self.rng.ratio(SPIKY_QUIET_PERCENT, 100) {
                self.quiet_drawn().then_draw(Draw::count(0, 1))
            } else {
                self.quiet_drawn().then_draw(range)
            }
        } else {
            self.rng.then_draw(range)
        }
    }

    /// The length that the privacy shaper's bytes are divided by: the mean of
    /// the pool, or the shortest keepalive while the pool is empty.
    pub open spec fn mean_length(self) -> nat {
        let mean = if self.length_pool.len() == 0 {
            self.config.keepalive_min_bytes as nat
        } else {
            sum_of(self.length_pool) / self.length_pool.len()
        };
        if mean == 0 {
            1
        } else {
            mean
        }
    }

    /// Dummies for the next burst: what the regime gives, or what
    /// `window_bytes` of cover amount to where a privacy shaper asks for more,
    /// and never more than a burst may have.
    pub open spec fn burst_count(self, window_bytes: nat) -> nat {
        if self.config.dp_shaper is Some {
            let asked = window_bytes / self.mean_length();
            let count = if asked > self.regime_count() {
                asked
            } else {
                self.regime_count()
            };
            lesser(count, self.config.max_dummy_packets_per_burst as nat)
        } else {
            self.regime_count()
        }
    }

    /// The length of the next dummy before it is padded to its bucket.
    pub open spec fn dummy_true_length(self) -> usize {
        if self.length_pool.len() == 0 {
            self.rng.count(self.config.keepalive_min_bytes, self.config.keepalive_max_bytes)
        } else {
            self.length_pool[self.rng.count(0, (self.length_pool.len() - 1) as usize) as int]
        }
    }

    /// The books once the length of the next dummy is chosen.
    pub open spec fn dummy_length_chosen(self) -> ComposerState {
        if self.config.cell_bytes is Some {
            self
        } else {
            ComposerState {
                rng: if self.length_pool.len() == 0 {
                    self.rng.then_draw(
                        Draw::count(
                            self.config.keepalive_min_bytes,
                            self.config.keepalive_max_bytes,
                        ),
                    )
                } else {
                    self.rng.then_draw(
                        Draw::count(0, (self.length_pool.len() - 1) as usize),
                    )
                },
                padder: self.padder.refreshed(),
                ..self
            }
        }
    }

    /// The length of the next dummy: the cell size where it is fixed, and else
    /// a drawn length padded to its bucket.
    pub open spec fn dummy_length(self) -> nat {
        match self.config.cell_bytes {
            Some(cell) => cell as nat,
            None => padded(self.dummy_true_length(), self.padder.refreshed().buckets) as nat,
        }
    }

    /// The next dummy: random bytes.
    pub open spec fn dummy(self) -> FrameView {
        FrameView::Dummy(self.dummy_length_chosen().rng.bytes(self.dummy_length()))
    }

    /// The books after the next dummy.
    pub open spec fn dummy_made(self) -> ComposerState {
        let chosen = self.dummy_length_chosen();
        ComposerState {
            rng: chosen.rng.then_draw(Draw::Bytes { len: self.dummy_length() }),
            ..chosen
        }
    }

    /// The next `n` dummies.
    pub open spec fn dummies(self, n: nat) -> Seq<FrameView>
        decreases n,
    {
        if n == 0 {
            Seq::empty()
        } else {
            self.dummies((n - 1) as nat).push(self.dummies_made((n - 1) as nat).dummy())
        }
    }

    /// The books after the next `n` dummies.
    pub open spec fn dummies_made(self, n: nat) -> ComposerState
        decreases n,
    {
        if n == 0 {
            self
        } else {
            self.dummies_made((n - 1) as nat).dummy_made()
        }
    }

    /// A payload brought to cell size, where that is fixed.
    pub open spec fn padded_payload(self, payload: Seq<u8>) -> Seq<u8> {
        match self.config.cell_bytes {
            Some(cell) => fitted(payload, cell as nat, self.rng),
            None => payload,
        }
    }

    /// The books after a payload has been brought to cell size.
    pub open spec fn payload_padded(self, payload: Seq<u8>) -> ComposerState {
        match self.config.cell_bytes {
            Some(cell) => ComposerState {
                rng: fit_drawn(payload.len(), cell as nat, self.rng),
                ..self
            },
            None => self,
        }
    }

    /// Where the next `k` dummies of a burst of `reals` packets go: gap 0 lies
    /// before the first packet, and gap `i` after packet `i`.
    pub open spec fn spread(self, reals: nat, k: nat) -> Seq<nat>
        decreases k,
    {
        if k == 0 {
            Seq::new(reals + 1, |i: int| 0nat)
        } else {
            let gaps = self.spread(reals, (k - 1) as nat);
            let at = self.spread_drawn(reals, (k - 1) as nat).count(0, reals as usize) as int;
            gaps.update(at, gaps[at] + 1)
        }
    }

    /// The generator once `k` dummies have been given their gaps.
    pub open spec fn spread_drawn(self, reals: nat, k: nat) -> RngState
        decreases k,
    {
        if k == 0 {
            self.rng
        } else {
            self.spread_drawn(reals, (k - 1) as nat).then_draw(Draw::count(0, reals as usize))
        }
    }

    /// Dummies in each gap of a burst: with a single packet, a drawn number of
    /// them comes first; else each dummy picks a gap.
    pub open spec fn gaps(self, reals: nat, dummies: nat) -> Seq<nat> {
        if reals == 1 {
            let leading = self.rng.count(0, dummies as usize) as nat;
            seq![leading, (dummies - leading) as nat]
        } else {
            self.spread(reals, dummies)
        }
    }

    /// The books once the gaps are drawn.
    pub open spec fn gaps_drawn(self, reals: nat, dummies: nat) -> ComposerState {
        ComposerState {
            rng: if reals == 1 {
                self.rng.then_draw(Draw::count(0, dummies as usize))
            } else {
                self.spread_drawn(reals, dummies)
            },
            ..self
        }
    }

    /// The frames up to the gap after packet `n`: the packets in order, each
    /// brought to cell size, with the gaps filled by dummies.
    pub open spec fn woven(self, packets: Seq<Packet>, gaps: Seq<nat>, n: nat) -> Seq<FrameView>
        decreases n,
    {
        if n == 0 {
            self.dummies(gaps[0])
        } else {
            let before = self.after_woven(packets, gaps, (n - 1) as nat);
            let padded = before.payload_padded(packets[n - 1]@);
            self.woven(packets, gaps, (n - 1) as nat).push(
                FrameView::Real(before.padded_payload(packets[n - 1]@)),
            ) + padded.dummies(gaps[n as int])
        }
    }

    /// The books after those frames.
    pub open spec fn after_woven(self, packets: Seq<Packet>, gaps: Seq<nat>, n: nat) -> ComposerState
        decreases n,
    {
        if n == 0 {
            self.dummies_made(gaps[0])
        } else {
            let before = self.after_woven(packets, gaps, (n - 1) as nat);
            before.payload_padded(packets[n - 1]@).dummies_made(gaps[n as int])
        }
    }

    /// The frames of a burst of these packets with this many dummies.
    pub open spec fn mixed(self, packets: Seq<Packet>, dummies: nat) -> Seq<FrameView> {
        self.gaps_drawn(packets.len(), dummies).woven(
            packets,
            self.gaps(packets.len(), dummies),
            packets.len(),
        )
    }

    /// The books after those frames.
    pub open spec fn after_mixed(self, packets: Seq<Packet>, dummies: nat) -> ComposerState {
        self.gaps_drawn(packets.len(), dummies).after_woven(
            packets,
            self.gaps(packets.len(), dummies),
            packets.len(),
        )
    }

    /// The record of frames once the first `n` frames have been entered.
    pub open spec fn tested(self, frames: Seq<FrameView>, n: nat) -> TesterState
        decreases n,
    {
        if n == 0 {
            self.tester
        } else {
            self.tested(frames, (n - 1) as nat).recorded(
                frames[n - 1],
                (self.frame_clock_ms + n) as u64,
            )
        }
    }

    /// The books once frames have been entered: their cover adds to the dummy
    /// bytes, up to the largest `usize`, and each advances the frame clock.
    pub open spec fn entered(self, frames: Seq<FrameView>) -> ComposerState {
        ComposerState {
            dummy_bytes: lesser(
                self.dummy_bytes + dummy_bytes_in(frames, frames.len()),
                usize::MAX as nat,
            ),
            tester: self.tested(frames, frames.len()),
            frame_clock_ms: (self.frame_clock_ms + frames.len()) as u64,
            ..self
        }
    }

    /// The books once a burst has been counted. A burst that reaches a
    /// threshold ends the regime: the next one is drawn and counting starts
    /// anew.
    pub open spec fn observed(self, real_bytes: u64, real_packets: u64, now: Instant) -> ComposerState {
        let counted = ComposerState {
            bursts: capped_sum(self.bursts, 1),
            real_bytes: capped_sum(self.real_bytes, real_bytes),
            real_packets: capped_sum(self.real_packets, real_packets),
            bounder: match self.bounder {
                Some(b) => Some(
                    BounderState {
                        real_bytes: lesser(b.real_bytes + real_bytes as nat, usize::MAX as nat),
                        ..b
                    },
                ),
                None => None,
            },
            last_real_burst_at: Some(now),
            ..self
        };
        if counted.bursts >= self.regime.switch_after.bursts || counted.real_bytes
            >= self.regime.switch_after.real_bytes || counted.real_packets
            >= self.regime.switch_after.real_packets {
            ComposerState {
                regime: self.config.regime_from(self.rng),
                rng: self.config.regime_drawn(self.rng),
                bursts: 0,
                real_bytes: 0,
                real_packets: 0,
                ..counted
            }
        } else {
            counted
        }
    }

    /// Milliseconds until the next keepalive for a sampled gap: at least one,
    /// and no more than the longest silence.
    pub open spec fn keepalive_gap_ms(self, sampled_ms: u64) -> nat {
        let capped = lesser(sampled_ms as nat, self.config.max_idle_gap_ms as nat);
        if capped == 0 {
            1
        } else {
            capped
        }
    }

    /// The books once the next keepalive is set.
    pub open spec fn keepalive_set(self, sampled_ms: u64, now: Instant) -> ComposerState {
        ComposerState {
            next_keepalive_due: Instant {
                nanos: (now.nanos + self.keepalive_gap_ms(sampled_ms) * NANOS_PER_MILLI) as u128,
            },
            ..self
        }
    }

    /// The books once something has been sent at `now`.
    pub open spec fn rested(self, sampled_ms: u64, now: Instant) -> ComposerState {
        ComposerState { last_burst_at: now, ..self }.keepalive_set(sampled_ms, now)
    }

    /// The books of a burst before its frames are made: its lengths noted and
    /// its dummies counted.
    pub open spec fn prepared(self, burst: BurstView) -> ComposerState {
        let noted = self.with_packets(burst.packets, burst.packets.len());
        ComposerState { rng: noted.count_drawn(), ..noted }
    }

    /// The dummies of a burst.
    pub open spec fn dummies_for(self, burst: BurstView, window_bytes: nat) -> nat {
        self.with_packets(burst.packets, burst.packets.len()).burst_count(window_bytes)
    }

    /// A burst with its cover.
    pub open spec fn composed(self, burst: BurstView, window_bytes: nat) -> MixedBurstView {
        let dummies = self.dummies_for(burst, window_bytes);
        MixedBurstView {
            frames: self.prepared(burst).mixed(burst.packets, dummies),
            ratio_regime: self.regime,
            real_packets: burst.packets.len(),
            dummy_packets: dummies,
        }
    }

    /// The books after a burst has been composed.
    pub open spec fn after_composed(
        self,
        burst: BurstView,
        window_bytes: nat,
        keepalive_ms: u64,
        now: Instant,
    ) -> ComposerState {
        let dummies = self.dummies_for(burst, window_bytes);
        self.prepared(burst).after_mixed(burst.packets, dummies).entered(
            self.composed(burst, window_bytes).frames,
        ).observed(
            payload_bytes(burst.packets, burst.packets.len()) as u64,
            burst.packets.len() as u64,
            now,
        ).rested(keepalive_ms, now)
    }

    /// Dummies in a keepalive: one, and as many more as make up for overdue
    /// padding of a bounded session, but no more than a burst may have.
    pub open spec fn keepalive_count(self, now: Instant) -> nat {
        let extra = match self.bounder {
            Some(b) => {
                let mean = (self.config.keepalive_min_bytes + self.config.keepalive_max_bytes) / 2;
                missing(b.padding_due(now), self.dummy_bytes) / (if mean == 0 {
                    1
                } else {
                    mean as nat
                })
            },
            None => 0,
        };
        lesser(1 + extra, self.config.max_dummy_packets_per_burst as nat)
    }
}

impl ComposerState {
    /// What the making of frames relies on.
    pub open spec fn makes_frames(self) -> bool {
        &&& self.config.fault() is None
        &&& self.length_pool.len() <= LENGTH_POOL_CAP
        &&& self.length_pos < LENGTH_POOL_CAP
        &&& self.padder.wf()
        &&& self.dummy_bytes <= usize::MAX
    }
}

/// Mixes bursts with cover.
pub struct SeedBComposer {
    config: CompositionConfig,
    rng: SeededRng,
    regime: RatioRegime,
    bursts_in_regime: u64,
    real_bytes_in_regime: u64,
    real_packets_in_regime: u64,
    last_burst_at: Instant,
    next_keepalive_due: Instant,
    length_pool: Vec<usize>,
    length_pool_pos: usize,
    last_real_burst_at: Option<Instant>,
    optimal_padder: OptimalPadder,
    session_bounder: Option<SessionBounder>,
    dummy_bytes_emitted: usize,
    self_tester: SelfTester,
    frame_clock_ms: u64,
}

/// The view of a bounder that may be there.
pub open spec fn bounder_view(b: Option<SessionBounder>) -> Option<BounderState> {
    match b {
        Some(b) => Some(b@),
        None => None,
    }
}

impl View for SeedBComposer {
    type V = ComposerState;

    closed spec fn view(&self) -> ComposerState {
        ComposerState {
            config: self.config,
            rng: self.rng@,
            regime: self.regime,
            bursts: self.bursts_in_regime,
            real_bytes: self.real_bytes_in_regime,
            real_packets: self.real_packets_in_regime,
            last_burst_at: self.last_burst_at,
            next_keepalive_due: self.next_keepalive_due,
            length_pool: self.length_pool@,
            length_pos: self.length_pool_pos as nat,
            last_real_burst_at: self.last_real_burst_at,
            padder: self.optimal_padder@,
            bounder: bounder_view(self.session_bounder),
            dummy_bytes: self.dummy_bytes_emitted as nat,
            tester: self.self_tester@,
            frame_clock_ms: self.frame_clock_ms,
        }
    }
}

impl SeedBComposer {
    /// Notes the length of a packet.
    fn ingest_length(&mut self, len: usize)
        requires
            old(self)@.makes_frames(),
        ensures
            final(self)@ == old(self)@.with_length(len),
            final(self)@.makes_frames(),
    {
        if self.length_pool.len() < LENGTH_POOL_CAP {
            self.length_pool.push(len);
        } else {
            self.length_pool.set(self.length_pool_pos, len);
            self.length_pool_pos = (self.length_pool_pos + 1) % LENGTH_POOL_CAP;
        }
    }

    /// Notes the lengths of a burst's packets.
    fn note_packets(&mut self, packets: &[Packet])
        requires
            old(self)@.makes_frames(),
        ensures
            final(self)@ == old(self)@.with_packets(packets@, packets@.len()),
            final(self)@.makes_frames(),
    {
        let mut i: usize = 0;
        while i < packets.len()
            invariant
                i <= packets@.len(),
                self@ == old(self)@.with_packets(packets@, i as nat),
                self@.makes_frames(),
            decreases packets@.len() - i,
        {
            let len: usize = packets[i].len();
            self.ingest_length(len);
            self.ingest_length(len);
            self.ingest_length(len);
            self.optimal_padder.observe_length(len);
            i = i + 1;
        }
    }

    /// Dummies that the regime alone gives the next burst.
    fn dummy_count_absolute(&mut self) -> (n: usize)
        requires
            old(self)@.regime.dummy_lo <= old(self)@.regime.dummy_hi,
        ensures
            n == old(self)@.regime_count(),
            n <= old(self)@.config.max_dummy_packets_per_burst,
            final(self)@ == (ComposerState { rng: old(self)@.count_drawn(), ..old(self)@ }),
    {
        let raw: usize = if self.regime.spiky {
            if self.rng.ratio(SPIKY_QUIET_PERCENT, 100) {
                self.rng.range_usize(0, 1)
            } else {
                self.rng.range_usize(self.regime.dummy_lo, self.regime.dummy_hi)
            }
        } else {
            self.rng.range_usize(self.regime.dummy_lo, self.regime.dummy_hi)
        };
        if raw < self.config.max_dummy_packets_per_burst {
            raw
        } else {
            self.config.max_dummy_packets_per_burst
        }
    }

    /// The mean of the pool of lengths, or the shortest keepalive while the
    /// pool is empty; at least one.
    fn mean_length(&self) -> (n: usize)
        requires
            self@.makes_frames(),
        ensures
            n == self@.mean_length(),
            n > 0,
    {
        let mean: usize = if self.length_pool.len() == 0 {
            self.config.keepalive_min_bytes
        } else {
            let mut sum: u128 = 0;
            let mut i: usize = 0;
            while i < self.length_pool.len()
                invariant
                    i <= self.length_pool@.len(),
                    self.length_pool@.len() <= LENGTH_POOL_CAP,
                    sum == sum_of(self.length_pool@.take(i as int)),
                    sum <= i * usize::MAX,
                decreases self.length_pool@.len() - i,
            {
                assert(self.length_pool@.take(i + 1).drop_last() =~= self.length_pool@.take(
                    i as int,
                ));
                assert((i + 1) * usize::MAX == i * usize::MAX + usize::MAX) by (nonlinear_arith);
                assert(i * usize::MAX <= 16 * usize::MAX) by (nonlinear_arith)
                    requires
                        i <= 16,
                ;
                sum = sum + self.length_pool[i] as u128;
                i = i + 1;
            }
            assert(self.length_pool@.take(i as int) =~= self.length_pool@);
            let n: u128 = self.length_pool.len() as u128;
            assert(sum / n <= usize::MAX) by (nonlinear_arith)
                requires
                    sum <= n * usize::MAX,
                    n > 0,
            ;
            (sum / n) as usize
        };
        if mean == 0 {
            1
        } else {
            mean
        }
    }

    /// Dummies for a burst; `window_bytes` is the cover that the privacy shaper
    /// asks for in this window, and is not read where there is no shaper.
    fn dummy_count_for_burst(&mut self, window_bytes: usize) -> (n: usize)
        requires
            old(self)@.makes_frames(),
            old(self)@.regime.dummy_lo <= old(self)@.regime.dummy_hi,
        ensures
            n == old(self)@.burst_count(window_bytes as nat),
            n <= old(self)@.config.max_dummy_packets_per_burst,
            final(self)@ == (ComposerState { rng: old(self)@.count_drawn(), ..old(self)@ }),
    {
        let regime_count: usize = self.dummy_count_absolute();
        if self.config.dp_shaper.is_some() {
            let asked: usize = window_bytes / self.mean_length();
            let count: usize = if asked > regime_count {
                asked
            } else {
                regime_count
            };
            if count < self.config.max_dummy_packets_per_burst {
                count
            } else {
                self.config.max_dummy_packets_per_burst
            }
        } else {
            regime_count
        }
    }

    /// A payload of cover.
    fn dummy_payload(&mut self) -> (bytes: Vec<u8>)
        requires
            old(self)@.makes_frames(),
        ensures
            FrameView::Dummy(bytes@) == old(self)@.dummy(),
            bytes@.len() == old(self)@.dummy_length(),
            final(self)@ == old(self)@.dummy_made(),
            final(self)@.makes_frames(),
    {
        let len: usize = if let Some(cell) = self.config.cell_bytes {
            cell
        } else {
            let true_len: usize = if self.length_pool.len() == 0 {
                self.rng.range_usize(
                    self.config.keepalive_min_bytes,
                    self.config.keepalive_max_bytes,
                )
            } else {
                let idx: usize = self.rng.range_usize(0, self.length_pool.len() - 1);
                self.length_pool[idx]
            };
            self.optimal_padder.pad_length(true_len)
        };
        self.rng.bytes(len)
    }

    /// Appends `n` dummies to `frames`.
    fn push_dummies(&mut self, frames: &mut Vec<MixedFrame>, n: usize)
        requires
            old(self)@.makes_frames(),
        ensures
            frame_views(final(frames)@) == frame_views(old(frames)@) + old(self)@.dummies(n as nat),
            final(self)@ == old(self)@.dummies_made(n as nat),
            final(self)@.makes_frames(),
            final(self)@.config == old(self)@.config,
            forall|i: int|
                old(self)@.config.cell_bytes is Some && 0 <= i < n ==> (
                #[trigger] old(self)@.dummies(n as nat)[i]).bytes().len()
                    == old(self)@.config.cell_bytes->Some_0,
    {
        let ghost start = self@;
        let ghost before = frame_views(frames@);
        let mut i: usize = 0;
        assert(frame_views(frames@) =~= before + start.dummies(0));
        while i < n
            invariant
                i <= n,
                start == old(self)@,
                frame_views(frames@) == before + start.dummies(i as nat),
                start.dummies(i as nat).len() == i,
                self@ == start.dummies_made(i as nat),
                self@.makes_frames(),
                self@.config == start.config,
                forall|j: int|
                    start.config.cell_bytes is Some && 0 <= j < i ==> (
                    #[trigger] start.dummies(i as nat)[j]).bytes().len()
                        == start.config.cell_bytes->Some_0,
            decreases n - i,
        {
            let ghost made = frames@;
            let bytes = self.dummy_payload();
            frames.push(MixedFrame::Dummy(bytes));
            assert(frame_views(frames@) =~= frame_views(made).push(
                start.dummies_made(i as nat).dummy(),
            ));
            i = i + 1;
            assert(frame_views(frames@) =~= before + start.dummies(i as nat));
        }
    }

    /// A packet brought to cell size, where that is fixed.
    fn pad_real_packet(&mut self, packet: Packet) -> (p: Packet)
        requires
            old(self)@.makes_frames(),
        ensures
            p@ == old(self)@.padded_payload(packet@),
            old(self)@.config.cell_bytes is Some ==> p@.len()
                == old(self)@.config.cell_bytes->Some_0,
            final(self)@ == old(self)@.payload_padded(packet@),
            final(self)@.makes_frames(),
    {
        let cell: usize = match self.config.cell_bytes {
            Some(cell) => cell,
            None => {
                return packet;
            },
        };
        let ghost payload = packet@;
        let bytes = fit_to_cell(packet.into_bytes(), cell, &mut self.rng);
        match Packet::new(bytes) {
            Ok(p) => p,
            Err(_) => {
                assert(false);
                vstd::pervasive::unreached()
            },
        }
    }
}

/// The sum of a sequence of counts.
pub open spec fn total_of(counts: Seq<nat>) -> nat
    decreases counts.len(),
{
    if counts.len() == 0 {
        0
    } else {
        total_of(counts.drop_last()) + counts.last()
    }
}

proof fn lemma_total_of_update(counts: Seq<nat>, at: int)
    requires
        0 <= at < counts.len(),
    ensures
        total_of(counts.update(at, counts[at] + 1)) == total_of(counts) + 1,
    decreases counts.len(),
{
    let more = counts.update(at, counts[at] + 1);
    if at == counts.len() - 1 {
        assert(more.drop_last() =~= counts.drop_last());
    } else {
        lemma_total_of_update(counts.drop_last(), at);
        assert(more.drop_last() =~= counts.drop_last().update(at, counts[at] + 1));
    }
}

proof fn lemma_total_of_zeros(n: nat)
    ensures
        total_of(Seq::new(n, |i: int| 0nat)) == 0,
    decreases n,
{
    let zeros = Seq::new(n, |i: int| 0nat);
    if n > 0 {
        lemma_total_of_zeros((n - 1) as nat);
        assert(zeros.drop_last() =~= Seq::new((n - 1) as nat, |i: int| 0nat));
    }
}

proof fn lemma_part_within_total(counts: Seq<nat>, at: int)
    requires
        0 <= at < counts.len(),
    ensures
        counts[at] <= total_of(counts),
    decreases counts.len(),
{
    if at < counts.len() - 1 {
        lemma_part_within_total(counts.drop_last(), at);
    }
}

/// The counts as natural numbers.
pub open spec fn counts_view(counts: Seq<usize>) -> Seq<nat> {
    counts.map_values(|c: usize| c as nat)
}

proof fn lemma_dummies_len(state: ComposerState, n: nat)
    ensures
        state.dummies(n).len() == n,
    decreases n,
{
    if n > 0 {
        lemma_dummies_len(state, (n - 1) as nat);
    }
}

impl SeedBComposer {
    /// Draws how many dummies go into each gap of a burst.
    fn draw_gaps(&mut self, reals: usize, dummies: usize) -> (gaps: Vec<usize>)
        requires
            reals < usize::MAX,
            old(self)@.makes_frames(),
        ensures
            counts_view(gaps@) == old(self)@.gaps(reals as nat, dummies as nat),
            gaps@.len() == reals + 1,
            total_of(counts_view(gaps@)) == dummies,
            final(self)@ == old(self)@.gaps_drawn(reals as nat, dummies as nat),
            final(self)@.makes_frames(),
    {
        let ghost start = self@;
        if reals == 1 {
            let leading: usize = self.rng.range_usize(0, dummies);
            let mut gaps: Vec<usize> = Vec::new();
            gaps.push(leading);
            gaps.push(dummies - leading);
            assert(counts_view(gaps@) =~= start.gaps(1, dummies as nat));
            let ghost two = counts_view(gaps@);
            assert(two.drop_last() =~= seq![leading as nat]);
            assert(two.drop_last().drop_last() =~= Seq::<nat>::empty());
            assert(total_of(two.drop_last()) == total_of(two.drop_last().drop_last())
                + two.drop_last().last());
            return gaps;
        }
        let mut gaps: Vec<usize> = vec![0usize; reals + 1];
        assert(counts_view(gaps@) =~= start.spread(reals as nat, 0));
        proof {
            lemma_total_of_zeros((reals + 1) as nat);
        }
        let mut k: usize = 0;
        while k < dummies
            invariant
                k <= dummies,
                reals < usize::MAX,
                gaps@.len() == reals + 1,
                start.makes_frames(),
                counts_view(gaps@) == start.spread(reals as nat, k as nat),
                total_of(counts_view(gaps@)) == k,
                self@ == (ComposerState {
                    rng: start.spread_drawn(reals as nat, k as nat),
                    ..start
                }),
            decreases dummies - k,
        {
            let at: usize = self.rng.range_usize(0, reals);
            let ghost before = counts_view(gaps@);
            proof {
                lemma_part_within_total(before, at as int);
                lemma_total_of_update(before, at as int);
            }
            let more: usize = gaps[at] + 1;
            gaps.set(at, more);
            assert(counts_view(gaps@) =~= before.update(at as int, before[at as int] + 1));
            k = k + 1;
        }
        gaps
    }

    /// Mixes packets with dummies, keeping the packets in order.
    fn interleave_preserving_real_order(
        &mut self,
        real_packets: Vec<Packet>,
        dummy_packets: usize,
    ) -> (frames: Vec<MixedFrame>)
        requires
            real_packets@.len() < usize::MAX,
            old(self)@.makes_frames(),
        ensures
            frame_views(frames@) == old(self)@.mixed(real_packets@, dummy_packets as nat),
            frames@.len() == real_packets@.len() + dummy_packets,
            old(self)@.config.cell_bytes is Some ==> forall|i: int|
                0 <= i < frames@.len() ==> (#[trigger] frame_views(frames@)[i]).bytes().len()
                    == old(self)@.config.cell_bytes->Some_0,
            final(self)@ == old(self)@.after_mixed(real_packets@, dummy_packets as nat),
            final(self)@.makes_frames(),
    {
        let ghost start = self@;
        let ghost packets = real_packets@;
        let reals: usize = real_packets.len();
        let gaps = self.draw_gaps(reals, dummy_packets);
        let ghost counts = counts_view(gaps@);
        let ghost drawn = self@;
        let ghost cell = start.config.cell_bytes;
        let mut frames: Vec<MixedFrame> = Vec::new();
        self.push_dummies(&mut frames, gaps[0]);
        assert(frame_views(frames@) =~= drawn.woven(packets, counts, 0));
        proof {
            lemma_dummies_len(drawn, counts[0]);
            assert(counts.take(1).drop_last() =~= Seq::<nat>::empty());
            assert(total_of(counts.take(1)) == total_of(counts.take(1).drop_last()) + counts[0]);
        }
        let mut index: usize = 0;
        for packet in it: real_packets
            invariant
                it.seq() == packets,
                index == it.index(),
                packets.len() == reals,
                gaps@.len() == reals + 1,
                counts == counts_view(gaps@),
                drawn.config == start.config,
                cell == start.config.cell_bytes,
                self@.makes_frames(),
                self@.config == start.config,
                frame_views(frames@) == drawn.woven(packets, counts, it.index() as nat),
                self@ == drawn.after_woven(packets, counts, it.index() as nat),
                frames@.len() == it.index() + total_of(counts.take(it.index() + 1)),
                cell is Some ==> forall|i: int|
                    0 <= i < frames@.len() ==> (#[trigger] frame_views(frames@)[i]).bytes().len()
                        == cell->Some_0,
        {
            let ghost n = it.index();
            let ghost before = self@;
            let ghost made = frames@;
            let padded = self.pad_real_packet(packet);
            frames.push(MixedFrame::Real(padded));
            assert(frame_views(frames@) =~= frame_views(made).push(
                FrameView::Real(before.padded_payload(packet@)),
            ));
            let ghost mid = self@;
            let ghost with_real = frame_views(frames@);
            assert(cell is Some ==> forall|i: int|
                0 <= i < frames@.len() ==> (#[trigger] with_real[i]).bytes().len() == cell->Some_0);
            index = index + 1;
            proof {
                lemma_dummies_len(mid, counts[n + 1]);
                assert(counts.take(n + 2).drop_last() =~= counts.take(n + 1));
                assert(total_of(counts.take(n + 2)) == total_of(counts.take(n + 1)) + counts[n + 1]);
            }
            self.push_dummies(&mut frames, gaps[index]);
            assert(frame_views(frames@) =~= drawn.woven(packets, counts, (n + 1) as nat));
            assert(frames@.len() == frame_views(frames@).len());
            assert(with_real.len() == n + 1 + total_of(counts.take(n + 1)));
            assert forall|i: int| cell is Some && 0 <= i < frames@.len() implies (
            #[trigger] frame_views(frames@)[i]).bytes().len() == cell->Some_0 by {
                if i < with_real.len() {
                    assert(frame_views(frames@)[i] == with_real[i]);
                } else {
                    assert(frame_views(frames@)[i] == mid.dummies(counts[n + 1])[i
                        - with_real.len()]);
                }
            }
        }
        assert(counts.take(reals + 1) =~= counts);
        frames
    }
}

impl CompositionConfig {
    /// What stands against composing under this configuration, if anything:
    /// the first rule it breaks, then a silence too short to sample keepalive
    /// gaps in, then a privacy shaper that cannot work.
    pub open spec fn composing_fault(self, epsilon_positive: bool) -> Option<Seq<char>> {
        if self.fault() is Some {
            self.fault()
        } else if self.max_idle_gap_ms * 2 <= SPECTRAL_FLOOR_MS {
            Some("spectral IAT: invalid configuration"@)
        } else if self.dp_shaper is Some && self.dp_shaper->Some_0.fault(epsilon_positive) is Some {
            Some("invalid DP shaper config"@)
        } else {
            None
        }
    }
}

/// Whether `r` is the error for a seed with the wrong role.
pub open spec fn role_refused<T>(seed_b: &EphemeralSeed, r: Result<T, CompositionError>) -> bool {
    r == Err::<T, CompositionError>(
        CompositionError::WrongSeedRole {
            expected: SeedRole::BurstComposition,
            actual: seed_b.spec_role(),
        },
    )
}

/// Whether `r` is the error for a configuration, reported with `text`.
pub open spec fn config_refused<T>(r: Result<T, CompositionError>, text: Seq<char>) -> bool {
    r is Err && r->Err_0 is InvalidConfig && r->Err_0->InvalidConfig_0@ == text
}

/// What comes of making a composer: the role of the seed is checked first, then
/// the configuration.
pub open spec fn composer_made(
    seed_b: &EphemeralSeed,
    config: CompositionConfig,
    epsilon_positive: bool,
    keepalive_ms: u64,
    now: Instant,
    r: Result<SeedBComposer, CompositionError>,
) -> bool {
    if seed_b.spec_role() != SeedRole::BurstComposition {
        role_refused(seed_b, r)
    } else {
        match config.composing_fault(epsilon_positive) {
            Some(text) => config_refused(r, text),
            None => r is Ok && r->Ok_0@.wf() && r->Ok_0@ == SeedBComposer::started(
                seed_b,
                config,
                keepalive_ms,
                now,
            ),
        }
    }
}

impl SeedBComposer {
    /// The books of a composer made from a seed: in a regime drawn from a
    /// generator seeded for this purpose alone, with nothing counted.
    pub open spec fn started(
        seed_b: &EphemeralSeed,
        config: CompositionConfig,
        keepalive_ms: u64,
        now: Instant,
    ) -> ComposerState {
        let rng = RngState::fresh(blake3_keyed(seed_b.material()@, composition_domain()));
        ComposerState {
            config,
            rng: config.regime_drawn(rng),
            regime: config.regime_from(rng),
            bursts: 0,
            real_bytes: 0,
            real_packets: 0,
            last_burst_at: now,
            next_keepalive_due: now,
            length_pool: Seq::empty(),
            length_pos: 0,
            last_real_burst_at: None,
            padder: PadderState {
                k: config.padding_buckets as nat,
                rebuild_interval: 32,
                seen: Seq::empty(),
                built_at: 0,
                buckets: seq![catch_all()],
            },
            bounder: match config.session_class {
                Some(class) => Some(BounderState { class, real_bytes: 0, start: now }),
                None => None,
            },
            dummy_bytes: 0,
            tester: SelfTester::blank(),
            frame_clock_ms: 0,
        }.keepalive_set(keepalive_ms, now)
    }

    /// A composer under the default configuration.
    pub fn new(seed_b: &EphemeralSeed, epsilon_positive: bool, keepalive_ms: u64, now: Instant) -> (r:
        Result<SeedBComposer, CompositionError>)
        requires
            now.nanos + u64::MAX * NANOS_PER_MILLI <= u128::MAX,
        ensures
            composer_made(
                seed_b,
                CompositionConfig::standard(),
                epsilon_positive,
                keepalive_ms,
                now,
                r,
            ),
    {
        Self::with_config(seed_b, CompositionConfig::default(), epsilon_positive, keepalive_ms, now)
    }

    /// A composer under `config`, started at `now`. The seed must be the one
    /// for burst composition. `epsilon_positive` tells whether the privacy
    /// shaper's budget is positive, and `keepalive_ms` is the sampled gap to
    /// the first keepalive.
    pub fn with_config(
        seed_b: &EphemeralSeed,
        config: CompositionConfig,
        epsilon_positive: bool,
        keepalive_ms: u64,
        now: Instant,
    ) -> (r: Result<SeedBComposer, CompositionError>)
        requires
            now.nanos + u64::MAX * NANOS_PER_MILLI <= u128::MAX,
        ensures
            composer_made(seed_b, config, epsilon_positive, keepalive_ms, now, r),
    {
        if seed_b.role() != SeedRole::BurstComposition {
            return Err(
                CompositionError::WrongSeedRole {
                    expected: SeedRole::BurstComposition,
                    actual: seed_b.role(),
                },
            );
        }
        let config = match config.validate() {
            Ok(config) => config,
            Err(e) => {
                return Err(e);
            },
        };
        let mut rng = SeededRng::new(
            seed_b.derive_rng_seed("mixtor.composition.v1".as_bytes()),
        );
        let regime = next_regime(config, &mut rng);
        if config.max_idle_gap_ms as u128 * 2 <= SPECTRAL_FLOOR_MS as u128 {
            return Err(CompositionError::InvalidConfig("spectral IAT: invalid configuration"));
        }
        if let Some(shaper) = config.dp_shaper {
            if shaper.validate(epsilon_positive).is_err() {
                return Err(CompositionError::InvalidConfig("invalid DP shaper config"));
            }
        }
        let session_bounder = match config.session_class {
            Some(class) => Some(SessionBounder::new(class, now)),
            None => None,
        };
        let mut composer = SeedBComposer {
            config,
            rng,
            regime,
            bursts_in_regime: 0,
            real_bytes_in_regime: 0,
            real_packets_in_regime: 0,
            last_burst_at: now,
            next_keepalive_due: now,
            length_pool: Vec::new(),
            length_pool_pos: 0,
            last_real_burst_at: None,
            optimal_padder: OptimalPadder::new(config.padding_buckets, 32),
            session_bounder,
            dummy_bytes_emitted: 0,
            self_tester: SelfTester::new(),
            frame_clock_ms: 0,
        };
        composer.reset_keepalive_deadline(keepalive_ms, now);
        Ok(composer)
    }

    /// Sets the next keepalive from a sampled gap.
    fn reset_keepalive_deadline(&mut self, sampled_ms: u64, now: Instant)
        requires
            now.nanos + u64::MAX * NANOS_PER_MILLI <= u128::MAX,
        ensures
            final(self)@ == old(self)@.keepalive_set(sampled_ms, now),
    {
        let capped: u64 = if sampled_ms < self.config.max_idle_gap_ms {
            sampled_ms
        } else {
            self.config.max_idle_gap_ms
        };
        let gap: u64 = if capped == 0 {
            1
        } else {
            capped
        };
        self.next_keepalive_due = now.after(Duration::from_millis(gap));
    }

    /// Enters frames into the books.
    fn enter_frames(&mut self, frames: &Vec<MixedFrame>)
        requires
            old(self)@.makes_frames(),
            old(self)@.frame_clock_ms + frames@.len() <= u64::MAX,
        ensures
            final(self)@ == old(self)@.entered(frame_views(frames@)),
            final(self)@.makes_frames(),
    {
        let ghost start = self@;
        let ghost views = frame_views(frames@);
        let mut i: usize = 0;
        while i < frames.len()
            invariant
                i <= frames@.len(),
                views == frame_views(frames@),
                start.makes_frames(),
                start.frame_clock_ms + frames@.len() <= u64::MAX,
                self@ == (ComposerState {
                    dummy_bytes: lesser(
                        start.dummy_bytes + dummy_bytes_in(views, i as nat),
                        usize::MAX as nat,
                    ),
                    tester: start.tested(views, i as nat),
                    frame_clock_ms: (start.frame_clock_ms + i) as u64,
                    ..start
                }),
            decreases frames@.len() - i,
        {
            let frame = &frames[i];
            assert(views[i as int] == frame@);
            if frame.is_dummy() {
                self.dummy_bytes_emitted = self.dummy_bytes_emitted.saturating_add(frame.len());
            }
            self.frame_clock_ms = self.frame_clock_ms + 1;
            self.self_tester.record_frame(frame, self.frame_clock_ms);
            i = i + 1;
        }
    }

    /// Counts a burst of real traffic sent at `now`.
    fn observe(&mut self, real_bytes: usize, real_packets: usize, now: Instant)
        requires
            old(self)@.wf(),
        ensures
            final(self)@ == old(self)@.observed(real_bytes as u64, real_packets as u64, now),
            final(self)@.wf(),
    {
        self.bursts_in_regime = self.bursts_in_regime.saturating_add(1);
        self.real_bytes_in_regime = self.real_bytes_in_regime.saturating_add(real_bytes as u64);
        self.real_packets_in_regime = self.real_packets_in_regime.saturating_add(
            real_packets as u64,
        );
        if let Some(bounder) = &mut self.session_bounder {
            bounder.record_real_bytes(real_bytes);
        }
        self.last_real_burst_at = Some(now);
        if self.bursts_in_regime >= self.regime.switch_after.bursts || self.real_bytes_in_regime
            >= self.regime.switch_after.real_bytes || self.real_packets_in_regime
            >= self.regime.switch_after.real_packets {
            self.regime = next_regime(self.config, &mut self.rng);
            self.bursts_in_regime = 0;
            self.real_bytes_in_regime = 0;
            self.real_packets_in_regime = 0;
        }
    }
}

proof fn lemma_with_packets_keeps(state: ComposerState, packets: Seq<Packet>, n: nat)
    ensures
        ({
            let noted = state.with_packets(packets, n);
            noted == (ComposerState {
                length_pool: noted.length_pool,
                length_pos: noted.length_pos,
                padder: noted.padder,
                ..state
            })
        }),
    decreases n,
{
    if n > 0 {
        lemma_with_packets_keeps(state, packets, (n - 1) as nat);
    }
}

proof fn lemma_dummies_made_keeps(state: ComposerState, n: nat)
    ensures
        state.dummies_made(n) == (ComposerState {
            rng: state.dummies_made(n).rng,
            padder: state.dummies_made(n).padder,
            ..state
        }),
    decreases n,
{
    if n > 0 {
        lemma_dummies_made_keeps(state, (n - 1) as nat);
    }
}

proof fn lemma_after_woven_keeps(
    state: ComposerState,
    packets: Seq<Packet>,
    gaps: Seq<nat>,
    n: nat,
)
    ensures
        state.after_woven(packets, gaps, n) == (ComposerState {
            rng: state.after_woven(packets, gaps, n).rng,
            padder: state.after_woven(packets, gaps, n).padder,
            ..state
        }),
    decreases n,
{
    if n == 0 {
        lemma_dummies_made_keeps(state, gaps[0]);
    } else {
        lemma_after_woven_keeps(state, packets, gaps, (n - 1) as nat);
        let before = state.after_woven(packets, gaps, (n - 1) as nat);
        lemma_dummies_made_keeps(before.payload_padded(packets[n - 1]@), gaps[n as int]);
    }
}

impl SeedBComposer {
    /// Mixes a burst with cover at `now`. `window_bytes` is the cover that the
    /// privacy shaper asks for in this window, and `keepalive_ms` the sampled
    /// gap to the next keepalive.
    pub fn compose(
        &mut self,
        burst: Burst,
        window_bytes: usize,
        keepalive_ms: u64,
        now: Instant,
    ) -> (mixed: MixedBurst)
        requires
            old(self)@.wf(),
            old(self)@.regime.dummy_lo <= old(self)@.regime.dummy_hi,
            payload_bytes(burst@.packets, burst@.packets.len()) <= usize::MAX,
            burst@.packets.len() + old(self)@.config.max_dummy_packets_per_burst <= usize::MAX,
            old(self)@.frame_clock_ms + burst@.packets.len()
                + old(self)@.config.max_dummy_packets_per_burst <= u64::MAX,
            now.nanos + u64::MAX * NANOS_PER_MILLI <= u128::MAX,
        ensures
            final(self)@.wf(),
            mixed@ == old(self)@.composed(burst@, window_bytes as nat),
            final(self)@ == old(self)@.after_composed(
                burst@,
                window_bytes as nat,
                keepalive_ms,
                now,
            ),
            final(self)@.config == old(self)@.config,
            final(self)@.frame_clock_ms == old(self)@.frame_clock_ms + mixed@.frames.len(),
            mixed@.adds_up(),
            mixed@.dummy_packets <= old(self)@.config.max_dummy_packets_per_burst,
            old(self)@.config.cell_bytes is Some ==> mixed@.is_uniform(
                old(self)@.config.cell_bytes->Some_0 as nat,
            ),
    {
        let ghost start = self@;
        let ghost view = burst@;
        let real_packets: usize = burst.packet_count();
        let real_bytes: usize = burst.total_bytes();
        self.note_packets(burst.packets());
        proof {
            lemma_with_packets_keeps(start, view.packets, view.packets.len());
        }
        let dummy_count: usize = self.dummy_count_for_burst(window_bytes);
        let ratio_regime = self.regime;
        let ghost prepared = self@;
        assert(prepared == start.prepared(view));
        let frames = self.interleave_preserving_real_order(burst.into_packets(), dummy_count);
        proof {
            lemma_after_woven_keeps(
                prepared.gaps_drawn(view.packets.len(), dummy_count as nat),
                view.packets,
                prepared.gaps(view.packets.len(), dummy_count as nat),
                view.packets.len(),
            );
        }
        proof {
            law_mixing_keeps_real_order(prepared, view.packets, dummy_count as nat);
            lemma_reals_among(frame_views(frames@));
            if start.config.cell_bytes is Some {
                law_uniform_frames_weigh_by_count(
                    frame_views(frames@),
                    start.config.cell_bytes->Some_0 as nat,
                    frames@.len(),
                );
            }
        }
        self.enter_frames(&frames);
        let mixed = MixedBurst::from_parts(frames, ratio_regime, real_packets, dummy_count);
        self.observe(real_bytes, real_packets, now);
        self.last_burst_at = now;
        self.reset_keepalive_deadline(keepalive_ms, now);
        mixed
    }

    /// Cover for a silent line at `now`: one dummy, and more where a bounded
    /// session is behind its schedule.
    pub fn compose_keepalive(&mut self, keepalive_ms: u64, now: Instant) -> (mixed: MixedBurst)
        requires
            old(self)@.wf(),
            old(self)@.frame_clock_ms + old(self)@.config.max_dummy_packets_per_burst <= u64::MAX,
            now.nanos + u64::MAX * NANOS_PER_MILLI <= u128::MAX,
        ensures
            final(self)@.wf(),
            ({
                let count = old(self)@.keepalive_count(now);
                &&& mixed@ == (MixedBurstView {
                    frames: old(self)@.dummies(count),
                    ratio_regime: old(self)@.regime,
                    real_packets: 0,
                    dummy_packets: count,
                })
                &&& final(self)@ == old(self)@.dummies_made(count).entered(
                    old(self)@.dummies(count),
                ).rested(keepalive_ms, now)
            }),
            final(self)@.config == old(self)@.config,
            final(self)@.frame_clock_ms == old(self)@.frame_clock_ms + mixed@.frames.len(),
            mixed@.adds_up(),
            mixed@.real_packets == 0,
            1 <= mixed@.dummy_packets <= old(self)@.config.max_dummy_packets_per_burst,
            old(self)@.config.cell_bytes is Some ==> mixed@.is_uniform(
                old(self)@.config.cell_bytes->Some_0 as nat,
            ),
    {
        let ghost start = self@;
        let extra: usize = match &self.session_bounder {
            Some(bounder) => {
                let needed: usize = bounder.dummy_bytes_needed_now(self.dummy_bytes_emitted, now);
                let mean: usize = ((self.config.keepalive_min_bytes as u128
                    + self.config.keepalive_max_bytes as u128) / 2) as usize;
                let divisor: usize = if mean == 0 {
                    1
                } else {
                    mean
                };
                needed / divisor
            },
            None => 0,
        };
        let most: usize = self.config.max_dummy_packets_per_burst;
        let dummy_count: usize = if extra < most {
            if 1 + extra < most {
                1 + extra
            } else {
                most
            }
        } else {
            most
        };
        assert(dummy_count == start.keepalive_count(now));
        let mut frames: Vec<MixedFrame> = Vec::new();
        assert(frame_views(frames@) =~= Seq::<FrameView>::empty());
        self.push_dummies(&mut frames, dummy_count);
        proof {
            lemma_dummies_len(start, dummy_count as nat);
            lemma_dummies_made_keeps(start, dummy_count as nat);
            assert(frame_views(frames@) =~= start.dummies(dummy_count as nat));
            assert(frames@.len() == frame_views(frames@).len());
            law_keepalives_are_cover(start, dummy_count as nat);
            lemma_reals_among(frame_views(frames@));
            if start.config.cell_bytes is Some {
                law_uniform_frames_weigh_by_count(
                    frame_views(frames@),
                    start.config.cell_bytes->Some_0 as nat,
                    frames@.len(),
                );
            }
        }
        self.enter_frames(&frames);
        self.last_burst_at = now;
        self.reset_keepalive_deadline(keepalive_ms, now);
        MixedBurst::from_parts(frames, self.regime, 0, dummy_count)
    }

    /// Brings a packet that is to wait for a slot to cell size.
    pub fn pad_packet(&mut self, packet: Packet) -> (p: Packet)
        requires
            old(self)@.wf(),
        ensures
            final(self)@.wf(),
            p@ == old(self)@.padded_payload(packet@),
            final(self)@ == old(self)@.payload_padded(packet@),
    {
        self.pad_real_packet(packet)
    }

    /// Enters a frame that left in a slot into the books.
    pub fn enter_frame(&mut self, frame: &MixedFrame)
        requires
            old(self)@.wf(),
            old(self)@.frame_clock_ms < u64::MAX,
        ensures
            final(self)@.wf(),
            final(self)@ == old(self)@.entered(seq![frame@]),
    {
        let ghost one = seq![frame@];
        if frame.is_dummy() {
            self.dummy_bytes_emitted = self.dummy_bytes_emitted.saturating_add(frame.len());
        }
        self.frame_clock_ms = self.frame_clock_ms + 1;
        self.self_tester.record_frame(frame, self.frame_clock_ms);
        proof {
            reveal_with_fuel(dummy_bytes_in, 2);
            reveal_with_fuel(ComposerState::tested, 2);
        }
        assert(one.len() == 1);
    }

    /// Notes the lengths of a burst and counts its dummies, for a burst whose
    /// packets wait for slots.
    pub fn prepare_burst(&mut self, burst: &Burst, window_bytes: usize) -> (dummies: usize)
        requires
            old(self)@.wf(),
            old(self)@.regime.dummy_lo <= old(self)@.regime.dummy_hi,
        ensures
            final(self)@.wf(),
            final(self)@ == old(self)@.prepared(burst@),
            dummies == old(self)@.dummies_for(burst@, window_bytes as nat),
    {
        self.note_packets(burst.packets());
        proof {
            lemma_with_packets_keeps(old(self)@, burst@.packets, burst@.packets.len());
        }
        self.dummy_count_for_burst(window_bytes)
    }

    /// Counts a burst whose packets wait for slots.
    pub fn settle_burst(
        &mut self,
        real_bytes: usize,
        real_packets: usize,
        keepalive_ms: u64,
        now: Instant,
    )
        requires
            old(self)@.wf(),
            now.nanos + u64::MAX * NANOS_PER_MILLI <= u128::MAX,
        ensures
            final(self)@.wf(),
            final(self)@ == old(self)@.observed(
                real_bytes as u64,
                real_packets as u64,
                now,
            ).rested(keepalive_ms, now),
    {
        self.observe(real_bytes, real_packets, now);
        self.last_burst_at = now;
        self.reset_keepalive_deadline(keepalive_ms, now);
    }

    /// Whether a keepalive is due at `now`.
    pub fn needs_keepalive(&self, now: Instant) -> (b: bool)
        ensures
            b == (now.nanos >= self@.next_keepalive_due.nanos),
    {
        now.nanos >= self.next_keepalive_due.nanos
    }

    /// When the next keepalive is due.
    pub fn next_keepalive_due(&self) -> (t: Instant)
        ensures
            t == self@.next_keepalive_due,
    {
        self.next_keepalive_due
    }

    /// The current regime.
    pub fn current_regime(&self) -> (r: RatioRegime)
        ensures
            r == self@.regime,
    {
        self.regime
    }

    /// Bursts counted in the current regime.
    pub fn bursts_in_regime(&self) -> (n: u64)
        ensures
            n == self@.bursts,
    {
        self.bursts_in_regime
    }

    /// The configuration.
    pub fn config(&self) -> (c: CompositionConfig)
        ensures
            c == self@.config,
    {
        self.config
    }

    /// The record of the frames made.
    pub fn self_tester(&self) -> (t: &SelfTester)
        ensures
            t@ == self@.tester,
    {
        &self.self_tester
    }

    /// Time since the last burst of real traffic, if there was one.
    pub fn real_burst_gap(&self, now: Instant) -> (gap: Option<Duration>)
        ensures
            match self@.last_real_burst_at {
                Some(last) => gap is Some && gap->Some_0.nanos == if now.nanos >= last.nanos {
                    now.nanos - last.nanos
                } else {
                    0
                },
                None => gap is None,
            },
    {
        match self.last_real_burst_at {
            Some(last) => Some(now.since(last)),
            None => None,
        }
    }
}

/// The payloads of the real frames, in order.
pub open spec fn reals_of(frames: Seq<FrameView>) -> Seq<Seq<u8>>
    decreases frames.len(),
{
    if frames.len() == 0 {
        Seq::empty()
    } else {
        match frames.last() {
            FrameView::Real(bytes) => reals_of(frames.drop_last()).push(bytes),
            FrameView::Dummy(_) => reals_of(frames.drop_last()),
        }
    }
}

proof fn lemma_reals_of_concat(a: Seq<FrameView>, b: Seq<FrameView>)
    ensures
        reals_of(a + b) == reals_of(a) + reals_of(b),
    decreases b.len(),
{
    if b.len() == 0 {
        assert(a + b =~= a);
        assert(reals_of(a) + reals_of(b) =~= reals_of(a));
    } else {
        lemma_reals_of_concat(a, b.drop_last());
        assert((a + b).drop_last() =~= a + b.drop_last());
        assert((a + b).last() == b.last());
        assert(reals_of(a + b) =~= reals_of(a) + reals_of(b));
    }
}

proof fn lemma_dummies_hold_no_reals(state: ComposerState, n: nat)
    ensures
        reals_of(state.dummies(n)) == Seq::<Seq<u8>>::empty(),
    decreases n,
{
    if n > 0 {
        lemma_dummies_hold_no_reals(state, (n - 1) as nat);
        assert(state.dummies(n).drop_last() =~= state.dummies((n - 1) as nat));
    }
}

/// The frames with a payload, counted, are those whose payloads are listed.
proof fn lemma_reals_among(frames: Seq<FrameView>)
    ensures
        reals_among(frames) == reals_of(frames).len(),
        reals_among(frames) + dummies_among(frames) == frames.len(),
    decreases frames.len(),
{
    if frames.len() > 0 {
        lemma_reals_among(frames.drop_last());
    }
}

/// Whether a real frame carries a payload: the payload itself where frames have
/// no fixed size, and else the payload brought to cell size.
pub open spec fn carries(frame: Seq<u8>, payload: Seq<u8>, cell: Option<usize>) -> bool {
    match cell {
        None => frame == payload,
        Some(c) => if payload.len() <= c {
            frame.take(payload.len() as int) == payload
        } else {
            frame == payload.take(c as int)
        },
    }
}

proof fn lemma_woven_reals(state: ComposerState, packets: Seq<Packet>, gaps: Seq<nat>, n: nat)
    requires
        n <= packets.len(),
    ensures
        reals_of(state.woven(packets, gaps, n)).len() == n,
        forall|i: int|
            0 <= i < n ==> carries(
                #[trigger] reals_of(state.woven(packets, gaps, n))[i],
                packets[i]@,
                state.config.cell_bytes,
            ),
    decreases n,
{
    if n == 0 {
        lemma_dummies_hold_no_reals(state, gaps[0]);
    } else {
        let m = (n - 1) as nat;
        lemma_woven_reals(state, packets, gaps, m);
        lemma_after_woven_keeps(state, packets, gaps, m);
        let before = state.after_woven(packets, gaps, m);
        let payload = packets[n - 1]@;
        let frame = before.padded_payload(payload);
        let so_far = state.woven(packets, gaps, m).push(FrameView::Real(frame));
        let cover = before.payload_padded(payload).dummies(gaps[n as int]);
        lemma_dummies_hold_no_reals(before.payload_padded(payload), gaps[n as int]);
        lemma_reals_of_concat(so_far, cover);
        assert(so_far.drop_last() =~= state.woven(packets, gaps, m));
        assert(reals_of(so_far) == reals_of(state.woven(packets, gaps, m)).push(frame));
        assert(reals_of(so_far + cover) =~= reals_of(so_far));
        if state.config.cell_bytes is Some && payload.len() <= state.config.cell_bytes->Some_0 {
            assert(frame.take(payload.len() as int) =~= payload);
        }
    }
}

/// Cover never disturbs real traffic: the real frames of a mixed burst carry
/// the burst's packets, all of them and in order.
pub proof fn law_mixing_keeps_real_order(state: ComposerState, packets: Seq<Packet>, dummies: nat)
    ensures
        reals_of(state.mixed(packets, dummies)).len() == packets.len(),
        forall|i: int|
            0 <= i < packets.len() ==> carries(
                #[trigger] reals_of(state.mixed(packets, dummies))[i],
                packets[i]@,
                state.config.cell_bytes,
            ),
{
    let drawn = state.gaps_drawn(packets.len(), dummies);
    lemma_woven_reals(drawn, packets, state.gaps(packets.len(), dummies), packets.len());
}

/// A keepalive carries no real traffic.
pub proof fn law_keepalives_are_cover(state: ComposerState, n: nat)
    ensures
        state.dummies(n).len() == n,
        reals_of(state.dummies(n)) == Seq::<Seq<u8>>::empty(),
{
    lemma_dummies_len(state, n);
    lemma_dummies_hold_no_reals(state, n);
}

/// Where a burst may have at least as many dummies as the fullest regime's
/// least count, every regime has a count to draw.
pub proof fn law_regimes_have_counts_to_draw(config: CompositionConfig, regime: RatioRegime)
    requires
        config.regime_fits(regime),
        config.max_dummy_packets_per_burst >= RatioDistributionKind::Spiky.range().0,
    ensures
        regime.dummy_lo <= regime.dummy_hi <= config.max_dummy_packets_per_burst,
{
}

/// The pool of lengths never outgrows its bound, and the length last noted is
/// in it.
pub proof fn law_length_pool_is_bounded(state: ComposerState, len: usize)
    requires
        state.length_pool.len() <= LENGTH_POOL_CAP,
        state.length_pos < LENGTH_POOL_CAP,
    ensures
        state.with_length(len).length_pool.len() <= LENGTH_POOL_CAP,
        state.with_length(len).length_pool.contains(len),
        state.with_length(len).length_pos < LENGTH_POOL_CAP,
{
    let pool = state.with_length(len).length_pool;
    if state.length_pool.len() < LENGTH_POOL_CAP {
        assert(pool[state.length_pool.len() as int] == len);
    } else {
        assert(pool[state.length_pos as int] == len);
    }
}

/// How often each kind of regime comes: of twenty draws, three stand for sparse
/// cover, six for balanced, seven for heavy and four for spiky cover.
pub proof fn law_kinds_have_their_share(draw: u32)
    requires
        draw < 20,
    ensures
        ratio_kind_of_draw(draw) == RatioDistributionKind::Sparse <==> draw < 3,
        ratio_kind_of_draw(draw) == RatioDistributionKind::Balanced <==> 3 <= draw < 9,
        ratio_kind_of_draw(draw) == RatioDistributionKind::HeavyCover <==> 9 <= draw < 16,
        ratio_kind_of_draw(draw) == RatioDistributionKind::Spiky <==> 16 <= draw,
{
}

/// What a regime is: its kind's range of dummy counts, cut at the most that a
/// burst may have, and thresholds in their ranges. Other draws give other
/// regimes.
pub proof fn law_regimes_have_their_ranges(config: CompositionConfig, rng: RngState, other: RngState)
    requires
        config.fault() is None,
    ensures
        ({
            let regime = config.regime_from(rng);
            let most = config.max_dummy_packets_per_burst;
            let range: (nat, nat) = match regime.kind {
                RatioDistributionKind::Sparse => (0, 1),
                RatioDistributionKind::Balanced => (3, 8),
                RatioDistributionKind::HeavyCover => (10, 18),
                RatioDistributionKind::Spiky => (12, 20),
            };
            &&& regime.dummy_lo == range.0
            &&& regime.dummy_hi == if range.1 <= most {
                range.1
            } else {
                most as nat
            }
            &&& regime.spiky <==> regime.kind == RatioDistributionKind::Spiky
            &&& config.regime_fits(regime)
            &&& config.regime_drawn(rng).log.len() == rng.log.len() + 4
            &&& config.regime_drawn(rng).seed == rng.seed
            &&& config.bursts_drawn(rng).range64(
                config.min_switch_real_bytes,
                config.max_switch_real_bytes,
            ) != config.bursts_drawn(other).range64(
                config.min_switch_real_bytes,
                config.max_switch_real_bytes,
            ) ==> regime.switch_after.real_bytes
                != config.regime_from(other).switch_after.real_bytes
        }),
{
}

/// How many dummies a regime gives: a count from its range, except that a spiky
/// regime that stays quiet gives one at most.
pub proof fn law_regimes_give_counts_from_their_range(state: ComposerState)
    requires
        state.wf(),
        state.regime.dummy_lo <= state.regime.dummy_hi,
    ensures
        !state.regime.spiky ==> state.regime.dummy_lo <= state.regime_count()
            <= state.regime.dummy_hi,
        state.regime.spiky && state.rng.ratio(74, 100) ==> state.regime_count() <= 1,
        state.regime.spiky && !state.rng.ratio(74, 100) ==> state.regime.dummy_lo
            <= state.regime_count() <= state.regime.dummy_hi,
{
}

/// How many dummies a burst gets: what its regime gives, or as many as make up the
/// bytes that the privacy shaper asks for where those are more, cut at the most a
/// burst may have. More bytes asked for never give fewer dummies.
pub proof fn law_shapers_raise_the_count(state: ComposerState, window: nat, more: nat)
    requires
        state.wf(),
        window <= more,
    ensures
        state.regime_count() <= state.burst_count(window)
            <= state.config.max_dummy_packets_per_burst,
        state.burst_count(window) <= state.burst_count(more),
        state.config.dp_shaper is None ==> state.burst_count(window) == state.regime_count(),
        state.config.dp_shaper is Some ==> state.burst_count(window)
            == state.config.max_dummy_packets_per_burst || (state.burst_count(window) + 1)
            * state.mean_length() > window,
        state.config.dp_shaper is Some && state.burst_count(window) > state.regime_count()
            ==> state.burst_count(window) * state.mean_length() <= window,
{
    let mean = state.mean_length() as int;
    let a = window as int / mean;
    let b = more as int / mean;
    vstd::arithmetic::div_mod::lemma_div_is_ordered(window as int, more as int, mean);
    assert(a * mean <= window < (a + 1) * mean) by (nonlinear_arith)
        requires
            a == window as int / mean,
            mean > 0,
    ;
    let n = state.burst_count(window) as int;
    if state.config.dp_shaper is Some {
        if n != state.config.max_dummy_packets_per_burst {
            assert(n >= a);
            assert((n + 1) * mean >= (a + 1) * mean) by (nonlinear_arith)
                requires
                    n >= a,
                    mean > 0,
            ;
        }
        if n > state.regime_count() {
            assert(n <= a);
            assert(n * mean <= a * mean) by (nonlinear_arith)
                requires
                    n <= a,
                    mean > 0,
            ;
        }
    }
}

/// The length that bytes are divided by is the mean of the lengths in the pool,
/// rounded down, or the shortest keepalive where the pool is empty; one at least.
pub proof fn law_the_mean_is_that_of_the_pool(state: ComposerState, len: usize)
    requires
        state.wf(),
    ensures
        state.length_pool.len() == 0 ==> state.mean_length() == state.config.keepalive_min_bytes,
        state.length_pool.len() > 0 && sum_of(state.length_pool) >= state.length_pool.len() ==> {
            let n = state.length_pool.len();
            state.mean_length() * n <= sum_of(state.length_pool) < (state.mean_length() + 1) * n
        },
        state.mean_length() >= 1,
        sum_of(state.length_pool.push(len)) == sum_of(state.length_pool) + len,
{
    assert(state.length_pool.push(len).drop_last() =~= state.length_pool);
    let n = state.length_pool.len() as int;
    let sum = sum_of(state.length_pool) as int;
    if n > 0 && sum >= n {
        let mean = sum / n;
        assert(mean >= 1 && mean * n <= sum < (mean + 1) * n) by (nonlinear_arith)
            requires
                mean == sum / n,
                n > 0,
                sum >= n,
        ;
    }
}

/// When the next keepalive is due: after the sampled gap, but never later than the
/// longest silence, and never at once.
pub proof fn law_keepalives_break_the_silence(state: ComposerState, sampled_ms: u64, now: Instant)
    requires
        state.wf(),
        now.nanos + u64::MAX * 1_000_000 <= u128::MAX,
    ensures
        ({
            let due = state.keepalive_set(sampled_ms, now).next_keepalive_due.nanos;
            let most = now.nanos + state.config.max_idle_gap_ms * 1_000_000;
            &&& now.nanos < due <= most
            &&& 1 <= sampled_ms <= state.config.max_idle_gap_ms ==> due == now.nanos + sampled_ms
                * 1_000_000
            &&& sampled_ms >= state.config.max_idle_gap_ms ==> due == most
            &&& sampled_ms == 0 ==> due == now.nanos + 1_000_000
            &&& state.rested(sampled_ms, now).last_burst_at == now
            &&& state.rested(sampled_ms, now).next_keepalive_due.nanos == due
        }),
{
    let gap = state.keepalive_gap_ms(sampled_ms);
    assert(1 <= gap <= u64::MAX);
}

/// How many dummies a keepalive has: one, and in a bounded session as many more as
/// the overdue padding fills at the mean size, cut at the most a burst may have.
pub proof fn law_keepalives_catch_up(state: ComposerState, now: Instant)
    requires
        state.wf(),
    ensures
        1 <= state.keepalive_count(now) <= state.config.max_dummy_packets_per_burst,
        state.bounder is None ==> state.keepalive_count(now) == 1,
        state.bounder is Some ==> {
            let overdue = missing(state.bounder->Some_0.padding_due(now), state.dummy_bytes);
            let mean = ((state.config.keepalive_min_bytes + state.config.keepalive_max_bytes)
                / 2) as nat;
            let n = state.keepalive_count(now);
            &&& (n - 1) * mean <= overdue
            &&& n == state.config.max_dummy_packets_per_burst || n * mean > overdue
        },
{
    if let Some(b) = state.bounder {
        let overdue = missing(b.padding_due(now), state.dummy_bytes) as int;
        let mean = (state.config.keepalive_min_bytes + state.config.keepalive_max_bytes) / 2;
        let extra = overdue / mean;
        let n = state.keepalive_count(now) as int;
        assert(mean >= 1);
        assert(extra * mean <= overdue < (extra + 1) * mean) by (nonlinear_arith)
            requires
                extra == overdue / mean,
                mean > 0,
        ;
        assert((n - 1) * mean <= extra * mean) by (nonlinear_arith)
            requires
                n - 1 <= extra,
                mean > 0,
        ;
    }
}

/// When a regime ends: with the burst that reaches one of its three thresholds.
/// Until then bursts are counted and nothing is drawn; then another regime is
/// drawn and counting starts at nothing. Either way the burst counts toward a
/// bounded session's volume.
pub proof fn law_bursts_end_regimes(state: ComposerState, bytes: u64, packets: u64, now: Instant)
    requires
        state.wf(),
        state.real_bytes + bytes <= u64::MAX,
        state.real_packets + packets <= u64::MAX,
    ensures
        ({
            let after = state.observed(bytes, packets, now);
            let ends = state.bursts + 1 >= state.regime.switch_after.bursts || state.real_bytes
                + bytes >= state.regime.switch_after.real_bytes || state.real_packets + packets
                >= state.regime.switch_after.real_packets;
            &&& !ends ==> after.regime == state.regime && after.rng == state.rng && after.bursts
                == state.bursts + 1 && after.real_bytes == state.real_bytes + bytes
                && after.real_packets == state.real_packets + packets
            &&& ends ==> after.bursts == 0 && after.real_bytes == 0 && after.real_packets == 0
                && after.rng.log.len() == state.rng.log.len() + 4
                && state.config.regime_fits(after.regime) && after.regime
                == state.config.regime_from(state.rng)
            &&& after.last_real_burst_at == Some(now)
            &&& after.length_pool == state.length_pool
            &&& after.dummy_bytes == state.dummy_bytes
            &&& state.bounder is Some && state.bounder->Some_0.real_bytes + bytes <= usize::MAX
                ==> after.bounder is Some && after.bounder->Some_0.real_bytes
                == state.bounder->Some_0.real_bytes + bytes && after.bounder->Some_0.class
                == state.bounder->Some_0.class
        }),
{
}

impl ComposerState {
    /// The books once these lengths were noted, one after the other.
    pub open spec fn with_lengths(self, lengths: Seq<usize>) -> ComposerState
        decreases lengths.len(),
    {
        if lengths.len() == 0 {
            self
        } else {
            self.with_lengths(lengths.drop_last()).with_length(lengths.last())
        }
    }
}

/// The pool holds the lengths noted last: of the lengths noted in a pool that was
/// empty at first, it holds the last sixteen, or all where there were fewer. A
/// place of the pool holds the latest of the lengths that came to it in turn.
pub proof fn law_the_pool_holds_the_last_lengths(state: ComposerState, lengths: Seq<usize>)
    requires
        state.length_pool.len() == 0,
        state.length_pos == 0,
    ensures
        ({
            let after = state.with_lengths(lengths);
            let n = lengths.len();
            &&& after.length_pool.len() == if n < 16 {
                n
            } else {
                16
            }
            &&& after.length_pos == if n < 16 {
                0
            } else {
                n % 16
            }
            &&& forall|i: int|
                0 <= i < n && n - 16 <= i ==> after.length_pool[i % 16] == #[trigger] lengths[i]
        }),
    decreases lengths.len(),
{
    if lengths.len() > 0 {
        let before = lengths.drop_last();
        law_the_pool_holds_the_last_lengths(state, before);
        let mid = state.with_lengths(before);
        let after = state.with_lengths(lengths);
        let n = lengths.len();
        let m = before.len();
        assert forall|i: int| 0 <= i < n && n - 16 <= i implies after.length_pool[i % 16]
            == #[trigger] lengths[i] by {
            if i < m {
                assert(before[i] == lengths[i]);
                assert(mid.length_pool[i % 16] == before[i]);
                if m >= 16 {
                    assert(i % 16 != m % 16);
                } else {
                    assert(i % 16 == i);
                }
            } else {
                if m < 16 {
                    assert(i % 16 == m);
                }
            }
        }
    }
}

/// What is noted of a burst: the length of each packet, in order, once with the
/// padder and three times in the pool.
pub proof fn law_packet_lengths_are_noted(state: ComposerState, packets: Seq<Packet>, n: nat)
    requires
        n < packets.len(),
        packets[n as int]@.len() <= usize::MAX,
    ensures
        ({
            let before = state.with_packets(packets, n);
            let after = state.with_packets(packets, n + 1);
            let len = packets[n as int]@.len() as usize;
            &&& after.padder.seen == before.padder.seen.push(len)
            &&& after.padder.buckets == before.padder.buckets
            &&& after.length_pool == before.with_lengths(seq![len, len, len]).length_pool
            &&& state.with_packets(packets, 0) == state
        }),
{
    let before = state.with_packets(packets, n);
    let len = packets[n as int]@.len() as usize;
    let three = seq![len, len, len];
    assert(three.drop_last() =~= seq![len, len]);
    assert(three.drop_last().drop_last() =~= seq![len]);
    assert(seq![len].drop_last() =~= Seq::<usize>::empty());
    assert(seq![len, len].drop_last() =~= seq![len]);
    reveal_with_fuel(ComposerState::with_lengths, 4);
    assert(before.with_lengths(three) == before.with_length(len).with_length(len).with_length(len));
}

/// How long a dummy is: a cell where the cell size is fixed; else as long as a
/// packet that was seen, or as a keepalive where none was, once padded to its
/// bucket. Its bytes come from the composer's generator.
pub proof fn law_dummies_look_like_packets(state: ComposerState)
    requires
        state.wf(),
    ensures
        state.dummy() is Dummy,
        state.dummy().bytes().len() == state.dummy_length(),
        state.config.cell_bytes is Some ==> state.dummy_length() == state.config.cell_bytes->Some_0,
        state.config.cell_bytes is None && state.length_pool.len() > 0 ==> exists|i: int|
            0 <= i < state.length_pool.len() && state.dummy_length() == padded(
                #[trigger] state.length_pool[i],
                state.padder.refreshed().buckets,
            ),
        state.config.cell_bytes is None && state.length_pool.len() == 0 ==> exists|len: usize|
            state.config.keepalive_min_bytes <= len <= state.config.keepalive_max_bytes
                && state.dummy_length() == #[trigger] padded(
                len,
                state.padder.refreshed().buckets,
            ),
        state.dummy_made().rng.log.len() > state.rng.log.len(),
        state.dummy_made().rng.seed == state.rng.seed,
{
    if state.config.cell_bytes is None {
        if state.length_pool.len() > 0 {
            let i = state.rng.count(0, (state.length_pool.len() - 1) as usize) as int;
            assert(state.dummy_length() == padded(
                state.length_pool[i],
                state.padder.refreshed().buckets,
            ));
        } else {
            let len = state.rng.count(
                state.config.keepalive_min_bytes,
                state.config.keepalive_max_bytes,
            );
            assert(state.dummy_length() == padded(len, state.padder.refreshed().buckets));
        }
    }
}

/// Where dummies go: every burst has a gap before its first packet and one after
/// each, and all its dummies are in these gaps. With a single packet the number
/// of dummies before it is drawn as a whole, so that every place is as likely.
pub proof fn law_all_dummies_have_a_gap(state: ComposerState, reals: nat, dummies: nat)
    requires
        reals <= usize::MAX,
        dummies <= usize::MAX,
    ensures
        state.gaps(reals, dummies).len() == reals + 1,
        total_of(state.gaps(reals, dummies)) == dummies,
        reals == 1 ==> state.gaps(reals, dummies)[0] == state.rng.count(0, dummies as usize),
{
    if reals == 1 {
        let gaps = state.gaps(reals, dummies);
        assert(gaps.drop_last() =~= seq![gaps[0]]);
        assert(seq![gaps[0]].drop_last() =~= Seq::<nat>::empty());
        reveal_with_fuel(total_of, 3);
    } else {
        lemma_spread(state, reals, dummies);
    }
}

proof fn lemma_spread(state: ComposerState, reals: nat, k: nat)
    requires
        reals <= usize::MAX,
    ensures
        state.spread(reals, k).len() == reals + 1,
        total_of(state.spread(reals, k)) == k,
    decreases k,
{
    if k == 0 {
        lemma_total_of_zeros(reals + 1);
    } else {
        lemma_spread(state, reals, (k - 1) as nat);
        let at = state.spread_drawn(reals, (k - 1) as nat).count(0, reals as usize) as int;
        lemma_total_of_update(state.spread(reals, (k - 1) as nat), at);
    }
}

/// What frames leave in the books: the cover's bytes add to the dummy bytes, each
/// frame is recorded at a tick of its own, and nothing else changes.
pub proof fn law_frames_are_entered(state: ComposerState, frames: Seq<FrameView>, frame: FrameView)
    requires
        state.frame_clock_ms + frames.len() < u64::MAX,
        state.dummy_bytes + dummy_bytes_in(frames, frames.len()) + frame.bytes().len()
            <= usize::MAX,
    ensures
        ({
            let before = state.entered(frames);
            let after = state.entered(frames.push(frame));
            &&& after.dummy_bytes == before.dummy_bytes + if frame is Dummy {
                frame.bytes().len()
            } else {
                0
            }
            &&& after.frame_clock_ms == before.frame_clock_ms + 1
            &&& after.tester == before.tester.recorded(frame, after.frame_clock_ms)
            &&& after.rng == state.rng
            &&& after.regime == state.regime
            &&& after.length_pool == state.length_pool
        }),
{
    let more = frames.push(frame);
    lemma_dummy_bytes_prefix(frames, more, frames.len());
    lemma_tested_prefix(state, frames, more, frames.len());
}

proof fn lemma_dummy_bytes_prefix(a: Seq<FrameView>, b: Seq<FrameView>, n: nat)
    requires
        n <= a.len(),
        n <= b.len(),
        forall|i: int| 0 <= i < n ==> a[i] == b[i],
    ensures
        dummy_bytes_in(a, n) == dummy_bytes_in(b, n),
    decreases n,
{
    if n > 0 {
        lemma_dummy_bytes_prefix(a, b, (n - 1) as nat);
    }
}

proof fn lemma_tested_prefix(state: ComposerState, a: Seq<FrameView>, b: Seq<FrameView>, n: nat)
    requires
        n <= a.len(),
        n <= b.len(),
        forall|i: int| 0 <= i < n ==> a[i] == b[i],
    ensures
        state.tested(a, n) == state.tested(b, n),
    decreases n,
{
    if n > 0 {
        lemma_tested_prefix(state, a, b, (n - 1) as nat);
    }
}

/// The generators of a session have seeds of their own: no two of the names under
/// which they are derived are the same.
pub proof fn law_generators_have_their_own_seeds()
    ensures
        composition_domain() != spectral_domain(),
        composition_domain() != dp_domain(),
        spectral_domain() != dp_domain(),
{
    reveal_strlit("mixtor.composition.v1");
    reveal_strlit("mixtor.spectral.v1");
    reveal_strlit("mixtor.dp.v1");
    broadcast use vstd::string::group_string_axioms;
    broadcast use vstd::utf8::group_utf8_lib;

    assert("mixtor.composition.v1".is_ascii());
    assert("mixtor.spectral.v1".is_ascii());
    assert("mixtor.dp.v1".is_ascii());
    assert(composition_domain().len() == 21);
    assert(spectral_domain().len() == 18);
    assert(dp_domain().len() == 12);
}

/// A mixed burst tells the regime it was mixed under, and has the burst's packets
/// and the dummies that were counted for it, each frame of cell size where that
/// is fixed.
pub proof fn law_mixed_bursts_are_what_was_counted(state: ComposerState, burst: BurstView, window: nat)
    ensures
        state.composed(burst, window).ratio_regime == state.regime,
        state.composed(burst, window).real_packets == burst.packets.len(),
        state.composed(burst, window).dummy_packets == state.with_packets(
            burst.packets,
            burst.packets.len(),
        ).burst_count(window),
        reals_of(state.composed(burst, window).frames).len() == burst.packets.len(),
{
    law_mixing_keeps_real_order(
        state.prepared(burst),
        burst.packets,
        state.dummies_for(burst, window),
    );
}

/// Where packets and dummies stand in a mixed burst: every packet stands behind
/// the packets before it and the dummies of the gaps before it, and the burst ends
/// with the dummies of the last gap.
pub proof fn law_dummies_stand_in_their_gaps(
    state: ComposerState,
    packets: Seq<Packet>,
    dummies: nat,
    i: int,
)
    requires
        packets.len() <= usize::MAX,
        dummies <= usize::MAX,
        0 <= i < packets.len(),
    ensures
        ({
            let frames = state.mixed(packets, dummies);
            let gaps = state.gaps(packets.len(), dummies);
            let at = total_of(gaps.take(i + 1)) + i;
            &&& frames.len() == packets.len() + dummies
            &&& 0 <= at < frames.len() && frames[at] is Real
            &&& forall|j: int|
                at < j <= at + gaps[i + 1] ==> #[trigger] frames[j] is Dummy && j < frames.len()
            &&& forall|j: int| 0 <= j < gaps[0] ==> #[trigger] frames[j] is Dummy
        }),
{
    let start = state.gaps_drawn(packets.len(), dummies);
    let gaps = state.gaps(packets.len(), dummies);
    law_all_dummies_have_a_gap(state, packets.len(), dummies);
    lemma_woven_places(start, packets, gaps, packets.len());
    assert(gaps.take(gaps.len() as int) =~= gaps);
    assert(is_placed(
        state.mixed(packets, dummies),
        total_of(gaps.take(i + 1)) + i,
        gaps[i + 1],
    ));
}

proof fn lemma_dummies_are_cover(state: ComposerState, n: nat)
    ensures
        state.dummies(n).len() == n,
        forall|j: int| 0 <= j < n ==> #[trigger] state.dummies(n)[j] is Dummy,
    decreases n,
{
    if n > 0 {
        lemma_dummies_are_cover(state, (n - 1) as nat);
    }
}

proof fn lemma_total_of_take(gaps: Seq<nat>, m: int, n: int)
    requires
        0 <= m <= n <= gaps.len(),
    ensures
        total_of(gaps.take(m)) <= total_of(gaps.take(n)),
        m < n ==> total_of(gaps.take(m)) + gaps[m] <= total_of(gaps.take(n)),
        m == n - 1 ==> total_of(gaps.take(m)) + gaps[m] == total_of(gaps.take(n)),
    decreases n - m,
{
    if m < n {
        lemma_total_of_take(gaps, m, n - 1);
        assert(gaps.take(n).drop_last() =~= gaps.take(n - 1));
    }
}

proof fn lemma_woven_places(state: ComposerState, packets: Seq<Packet>, gaps: Seq<nat>, n: nat)
    requires
        n <= packets.len(),
        gaps.len() == packets.len() + 1,
    ensures
        ({
            let frames = state.woven(packets, gaps, n);
            &&& frames.len() == total_of(gaps.take(n as int + 1)) + n
            &&& forall|j: int| 0 <= j < gaps[0] ==> #[trigger] frames[j] is Dummy
            &&& forall|i: int|
                0 <= i < n ==> #[trigger] is_placed(frames, total_of(gaps.take(i + 1)) + i, gaps[i + 1])
        }),
    decreases n,
{
    let frames = state.woven(packets, gaps, n);
    lemma_total_of_take(gaps, n as int, n as int + 1);
    if n == 0 {
        lemma_dummies_are_cover(state, gaps[0]);
        assert(total_of(gaps.take(0)) == 0);
    } else {
        let m = (n - 1) as nat;
        lemma_woven_places(state, packets, gaps, m);
        let before = state.woven(packets, gaps, m);
        let padded = state.after_woven(packets, gaps, m).payload_padded(packets[n - 1]@);
        lemma_dummies_are_cover(padded, gaps[n as int]);
        let tail = padded.dummies(gaps[n as int]);
        lemma_total_of_take(gaps, 0, n as int);
        assert forall|j: int| 0 <= j < gaps[0] implies #[trigger] frames[j] is Dummy by {
            assert(before[j] is Dummy);
        }
        assert forall|i: int| 0 <= i < n implies #[trigger] is_placed(
            frames,
            total_of(gaps.take(i + 1)) + i,
            gaps[i + 1],
        ) by {
            let at = total_of(gaps.take(i + 1)) + i;
            if i < m {
                assert(is_placed(before, at, gaps[i + 1]));
                lemma_total_of_take(gaps, i + 1, n as int);
                assert forall|j: int| at < j <= at + gaps[i + 1] implies #[trigger] frames[j] is Dummy by {
                    assert(before[j] is Dummy);
                }
            } else {
                assert(at == before.len());
                assert forall|j: int| at < j <= at + gaps[i + 1] implies #[trigger] frames[j] is Dummy by {
                    assert(frames[j] == tail[j - at - 1]);
                }
            }
        }
    }
}

/// Whether a packet stands at `at`, with so many dummies behind it.
spec fn is_placed(frames: Seq<FrameView>, at: int, dummies: nat) -> bool {
    &&& 0 <= at && at + dummies < frames.len()
    &&& frames[at] is Real
    &&& forall|j: int| at < j <= at + dummies ==> #[trigger] frames[j] is Dummy
}

/// What a new composer is: it has counted nothing and noted no length, pads to the
/// widest length until 32 lengths were seen, and owes a keepalive after the sampled
/// gap. A bounded session has just begun.
pub proof fn law_new_composers_have_counted_nothing(
    seed_b: &EphemeralSeed,
    config: CompositionConfig,
    keepalive_ms: u64,
    now: Instant,
)
    requires
        config.fault() is None,
        now.nanos + u64::MAX * 1_000_000 <= u128::MAX,
    ensures
        ({
            let s = SeedBComposer::started(seed_b, config, keepalive_ms, now);
            &&& s.config == config
            &&& s.bursts == 0 && s.real_bytes == 0 && s.real_packets == 0
            &&& s.dummy_bytes == 0 && s.frame_clock_ms == 0
            &&& s.length_pool.len() == 0
            &&& s.last_burst_at == now && s.last_real_burst_at is None
            &&& s.tester.total() == 0 && s.tester.gaps_ms.len() == 0
            &&& config.regime_fits(s.regime)
            &&& s.padder.k == config.padding_buckets && s.padder.rebuild_interval == 32
            &&& forall|len: usize|
                #[trigger] padded(len, s.padder.buckets) == 65535
            &&& s.bounder is Some <==> config.session_class is Some
            &&& s.bounder is Some ==> s.bounder->Some_0 == (BounderState {
                class: config.session_class->Some_0,
                real_bytes: 0,
                start: now,
            })
            &&& 1 <= keepalive_ms <= config.max_idle_gap_ms ==> s.next_keepalive_due.nanos
                == now.nanos + keepalive_ms * 1_000_000
        }),
{
    let s = SeedBComposer::started(seed_b, config, keepalive_ms, now);
    assert forall|len: usize| #[trigger] padded(len, s.padder.buckets) == 65535 by {
        reveal_with_fuel(crate::optimal_padding::first_covering, 3);
    }
}

/// What the default configuration is: bursts get 32 dummies at most, a regime
/// lasts 180 to 800 bursts, and silence is broken within 480 milliseconds.
pub proof fn law_default_composers(seed_b: &EphemeralSeed, keepalive_ms: u64, now: Instant)
    ensures
        ({
            let c = SeedBComposer::started(
                seed_b,
                CompositionConfig::standard(),
                keepalive_ms,
                now,
            ).config;
            &&& c.composing_fault(true) is None
            &&& c.max_dummy_packets_per_burst == 32
            &&& c.min_switch_bursts == 180 && c.max_switch_bursts == 800
            &&& c.min_switch_real_bytes == 4 * 1024 * 1024
            &&& c.max_switch_real_bytes == 32 * 1024 * 1024
            &&& c.min_switch_real_packets == 4096 && c.max_switch_real_packets == 32768
            &&& c.max_idle_gap_ms == 480
            &&& c.keepalive_min_bytes == 100 && c.keepalive_max_bytes == 1400
            &&& c.dp_shaper is Some && c.dp_shaper->Some_0.window_ms == 100
            &&& c.dp_shaper->Some_0.max_real_bytes_per_window == 65536
            &&& c.session_class is None && c.padding_buckets == 4
            &&& c.cell_bytes == Some(514usize) && c.clock_adapt_rate is None
        }),
{
}

/// What a composer asks beyond the rules of its configuration: silence that leaves
/// gaps above five milliseconds, and valid settings of a shaper where there is one.
pub proof fn law_composers_leave_gaps(config: CompositionConfig, epsilon_positive: bool)
    ensures
        config.composing_fault(epsilon_positive) is None <==> config.fault() is None
            && config.max_idle_gap_ms > 5 && (config.dp_shaper is Some ==> epsilon_positive
            && config.dp_shaper->Some_0.window_ms >= 1
            && config.dp_shaper->Some_0.max_real_bytes_per_window >= 1),
        config.fault() is Some ==> config.composing_fault(epsilon_positive) == config.fault(),
{
}

/// A regime is what its four draws give: the kind, and then how many bursts, bytes
/// and packets it lasts.
pub proof fn law_regimes_are_the_draws(config: CompositionConfig, rng: RngState)
    ensures
        ({
            let regime = config.regime_from(rng);
            let second = rng.then_draw(Draw::Range32 { lo: 0, hi: 19 });
            let third = second.then_draw(
                Draw::Range64 { lo: config.min_switch_bursts, hi: config.max_switch_bursts },
            );
            let fourth = third.then_draw(
                Draw::Range64 {
                    lo: config.min_switch_real_bytes,
                    hi: config.max_switch_real_bytes,
                },
            );
            &&& regime.kind == ratio_kind_of_draw(rng.range32(0, 19))
            &&& regime.switch_after.bursts == second.range64(
                config.min_switch_bursts,
                config.max_switch_bursts,
            )
            &&& regime.switch_after.real_bytes == third.range64(
                config.min_switch_real_bytes,
                config.max_switch_real_bytes,
            )
            &&& regime.switch_after.real_packets == fourth.range64(
                config.min_switch_real_packets,
                config.max_switch_real_packets,
            )
            &&& config.regime_drawn(rng) == fourth.then_draw(
                Draw::Range64 {
                    lo: config.min_switch_real_packets,
                    hi: config.max_switch_real_packets,
                },
            )
        }),
{
}

/// The dummies that a regime gives are a count drawn from its range, up to the most
/// that a burst may have. A spiky regime first draws whether it stays quiet, as it
/// does 74 times out of a hundred, and then draws none or one.
pub proof fn law_counts_are_the_draws(state: ComposerState)
    ensures
        ({
            let lo = state.regime.dummy_lo;
            let hi = state.regime.dummy_hi;
            let most = state.config.max_dummy_packets_per_burst;
            let second = state.rng.then_draw(Draw::Ratio { numerator: 74, denominator: 100 });
            let quiet = state.rng.ratio(74, 100);
            let drawn = if !state.regime.spiky {
                state.rng.count(lo, hi)
            } else if quiet {
                second.count(0, 1)
            } else {
                second.count(lo, hi)
            };
            &&& drawn <= most ==> state.regime_count() == drawn
            &&& drawn > most ==> state.regime_count() == most
            &&& state.count_drawn() == if !state.regime.spiky {
                state.rng.then_draw(Draw::count(lo, hi))
            } else if quiet {
                second.then_draw(Draw::count(0, 1))
            } else {
                second.then_draw(Draw::count(lo, hi))
            }
        }),
{
}

/// A dummy's length is drawn anew for each: a place of the pool, or a keepalive's
/// length while the pool is empty; then its bytes are drawn. A cell of fixed size
/// needs only the bytes.
pub proof fn law_dummy_lengths_are_drawn(state: ComposerState)
    requires
        state.wf(),
    ensures
        ({
            let n = state.length_pool.len();
            let place = (n - 1) as usize;
            let lo = state.config.keepalive_min_bytes;
            let hi = state.config.keepalive_max_bytes;
            let buckets = state.padder.refreshed().buckets;
            let bytes = Draw::Bytes { len: state.dummy_length() };
            let after = state.dummy_made().rng;
            if state.config.cell_bytes is Some {
                after == state.rng.then_draw(bytes)
            } else if n > 0 {
                &&& state.dummy_length() == padded(
                    state.length_pool[state.rng.count(0, place) as int],
                    buckets,
                )
                &&& after == state.rng.then_draw(Draw::count(0, place)).then_draw(bytes)
            } else {
                &&& state.dummy_length() == padded(state.rng.count(lo, hi), buckets)
                &&& after == state.rng.then_draw(Draw::count(lo, hi)).then_draw(bytes)
            }
        }),
        state.config.cell_bytes is None ==> state.dummy_made().padder == state.padder.refreshed(),
        state.dummy_made().length_pool == state.length_pool,
{
}

/// With several packets, each dummy picks its gap by a draw of its own, and every
/// gap is as likely.
pub proof fn law_each_dummy_picks_its_gap(state: ComposerState, reals: nat, k: nat)
    requires
        reals != 1,
        reals <= usize::MAX,
    ensures
        ({
            let at = state.spread_drawn(reals, k).count(0, reals as usize) as int;
            let before = state.gaps(reals, k);
            &&& 0 <= at <= reals
            &&& state.gaps(reals, k + 1) == before.update(at, before[at] + 1)
            &&& state.spread_drawn(reals, k).log.len() == state.rng.log.len() + k
            &&& state.spread_drawn(reals, k).seed == state.rng.seed
            &&& state.gaps_drawn(reals, k).rng == state.spread_drawn(reals, k)
        }),
    decreases k,
{
    if k > 0 {
        law_each_dummy_picks_its_gap(state, reals, (k - 1) as nat);
    }
}

} // verus!
