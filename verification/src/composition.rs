//! Burst composition: every burst of real packets is brought to cell size and
//! mixed with cover. How much cover a burst gets follows a regime, and regimes
//! change after an amount of traffic that is itself drawn at random.
use crate::clumping::{wrong_role_message, wrong_role_text};
use crate::dp_shaper::DpShaperConfig;
use crate::seeds::SeedRole;
use crate::session_bounder::SessionClass;
use vstd::prelude::*;
use vstd::string::*;

pub use crate::composer::SeedBComposer;
pub use crate::frames::{frame_views, FrameView, MixedFrame};
pub use crate::shaped_session::{BidirectionalComposer, BidirectionalSession, ShapedSession};

verus! {

/// Bytes in a cell.
pub const TOR_CELL_BYTES: usize = 514;

/// Lengths kept to draw the lengths of cover from.
pub const LENGTH_POOL_CAP: usize = 16;

/// Shortest gap between keepalives, in milliseconds. Twice the longest silence
/// must exceed it.
pub const SPECTRAL_FLOOR_MS: u64 = 10;

/// How many bursts in a hundred a spiky regime leaves almost bare.
pub const SPIKY_QUIET_PERCENT: u32 = 74;

/// How much cover a regime adds.
#[derive(Clone, Copy, Debug, PartialEq, Eq, Structural)]
pub enum RatioDistributionKind {
    Sparse,
    Balanced,
    HeavyCover,
    Spiky,
}

impl RatioDistributionKind {
    /// The least and the most dummy packets per burst.
    pub open spec fn range(self) -> (usize, usize) {
        match self {
            RatioDistributionKind::Sparse => (0, 1),
            RatioDistributionKind::Balanced => (3, 8),
            RatioDistributionKind::HeavyCover => (10, 18),
            RatioDistributionKind::Spiky => (12, 20),
        }
    }

    /// The least and the most dummy packets per burst.
    pub fn dummy_count_range(self) -> (r: (usize, usize))
        ensures
            r == self.range(),
    {
        match self {
            RatioDistributionKind::Sparse => (0, 1),
            RatioDistributionKind::Balanced => (3, 8),
            RatioDistributionKind::HeavyCover => (10, 18),
            RatioDistributionKind::Spiky => (12, 20),
        }
    }
}

/// The traffic after which a regime ends, whichever comes first.
#[derive(Clone, Copy, Debug, PartialEq, Eq, Structural)]
pub struct RatioSwitchThreshold {
    pub bursts: u64,
    pub real_bytes: u64,
    pub real_packets: u64,
}

/// How much cover bursts get, and for how much traffic.
#[derive(Clone, Copy, Debug, PartialEq, Eq, Structural)]
pub struct RatioRegime {
    pub kind: RatioDistributionKind,
    pub switch_after: RatioSwitchThreshold,
    pub dummy_lo: usize,
    pub dummy_hi: usize,
    pub spiky: bool,
}

/// A burst with its cover.
#[derive(Debug, PartialEq, Eq)]
pub struct MixedBurst {
    frames: Vec<MixedFrame>,
    ratio_regime: RatioRegime,
    real_packets: usize,
    dummy_packets: usize,
}

/// What a mixed burst holds.
pub struct MixedBurstView {
    pub frames: Seq<FrameView>,
    pub ratio_regime: RatioRegime,
    pub real_packets: nat,
    pub dummy_packets: nat,
}

/// Bytes in the first `n` frames.
pub open spec fn frame_bytes(frames: Seq<FrameView>, n: nat) -> nat
    decreases n,
{
    if n == 0 {
        0
    } else {
        frame_bytes(frames, (n - 1) as nat) + frames[n - 1].bytes().len()
    }
}

proof fn lemma_frame_bytes_monotonic(frames: Seq<FrameView>, m: nat, n: nat)
    requires
        m <= n,
    ensures
        frame_bytes(frames, m) <= frame_bytes(frames, n),
    decreases n,
{
    if m < n {
        lemma_frame_bytes_monotonic(frames, m, (n - 1) as nat);
    }
}

/// Frames with a payload.
pub open spec fn reals_among(frames: Seq<FrameView>) -> nat
    decreases frames.len(),
{
    if frames.len() == 0 {
        0
    } else {
        reals_among(frames.drop_last()) + if frames.last() is Real {
            1nat
        } else {
            0nat
        }
    }
}

/// Frames of cover.
pub open spec fn dummies_among(frames: Seq<FrameView>) -> nat
    decreases frames.len(),
{
    if frames.len() == 0 {
        0
    } else {
        dummies_among(frames.drop_last()) + if frames.last() is Dummy {
            1nat
        } else {
            0nat
        }
    }
}

/// Whether all frames have this size.
pub open spec fn all_of_size(frames: Seq<FrameView>, size: nat) -> bool {
    forall|i: int| 0 <= i < frames.len() ==> (#[trigger] frames[i]).bytes().len() == size
}

impl MixedBurstView {
    /// The counts of real packets and of dummies are those of the frames, and
    /// make up all of them.
    pub open spec fn adds_up(self) -> bool {
        &&& self.real_packets == reals_among(self.frames)
        &&& self.dummy_packets == dummies_among(self.frames)
        &&& self.frames.len() == self.real_packets + self.dummy_packets
    }

    /// All frames have this size, and the burst weighs as much as so many of
    /// them.
    pub open spec fn is_uniform(self, size: nat) -> bool {
        &&& all_of_size(self.frames, size)
        &&& frame_bytes(self.frames, self.frames.len()) == size * self.frames.len()
    }
}

/// Frames of one size weigh as much as their number says, whatever they carry.
pub proof fn law_uniform_frames_weigh_by_count(frames: Seq<FrameView>, size: nat, n: nat)
    requires
        all_of_size(frames, size),
        n <= frames.len(),
    ensures
        frame_bytes(frames, n) == size * n,
    decreases n,
{
    if n > 0 {
        law_uniform_frames_weigh_by_count(frames, size, (n - 1) as nat);
        assert(frames[n - 1].bytes().len() == size);
        assert(size * n == size * (n - 1) + size) by (nonlinear_arith)
            requires
                n > 0,
        ;
    } else {
        assert(size * n == 0) by (nonlinear_arith)
            requires
                n == 0,
        ;
    }
}

impl View for MixedBurst {
    type V = MixedBurstView;

    closed spec fn view(&self) -> MixedBurstView {
        MixedBurstView {
            frames: frame_views(self.frames@),
            ratio_regime: self.ratio_regime,
            real_packets: self.real_packets as nat,
            dummy_packets: self.dummy_packets as nat,
        }
    }
}

impl Clone for MixedBurst {
    fn clone(&self) -> (b: MixedBurst)
        ensures
            b@ == self@,
    {
        let mut frames: Vec<MixedFrame> = Vec::new();
        let mut i: usize = 0;
        while i < self.frames.len()
            invariant
                i <= self.frames@.len(),
                frames@.len() == i,
                forall|j: int| 0 <= j < i ==> (#[trigger] frames@[j])@ == self.frames@[j]@,
            decreases self.frames@.len() - i,
        {
            frames.push(self.frames[i].clone());
            i = i + 1;
        }
        assert(frame_views(frames@) =~= frame_views(self.frames@));
        MixedBurst {
            frames,
            ratio_regime: self.ratio_regime,
            real_packets: self.real_packets,
            dummy_packets: self.dummy_packets,
        }
    }
}

impl MixedBurst {
    /// The burst with these parts.
    pub fn from_parts(
        frames: Vec<MixedFrame>,
        ratio_regime: RatioRegime,
        real_packets: usize,
        dummy_packets: usize,
    ) -> (b: MixedBurst)
        ensures
            b@ == (MixedBurstView {
                frames: frame_views(frames@),
                ratio_regime,
                real_packets: real_packets as nat,
                dummy_packets: dummy_packets as nat,
            }),
    {
        MixedBurst { frames, ratio_regime, real_packets, dummy_packets }
    }

    /// The frames in the order in which they leave.
    pub fn frames(&self) -> (f: &[MixedFrame])
        ensures
            frame_views(f@) == self@.frames,
    {
        self.frames.as_slice()
    }

    /// The frames, taken out of the burst.
    pub fn into_frames(self) -> (f: Vec<MixedFrame>)
        ensures
            frame_views(f@) == self@.frames,
    {
        self.frames
    }

    /// Frames in the burst.
    pub fn total_packets(&self) -> (n: usize)
        ensures
            n == self@.frames.len(),
    {
        self.frames.len()
    }

    /// Real packets in the burst.
    pub fn real_packets(&self) -> (n: usize)
        ensures
            n == self@.real_packets,
    {
        self.real_packets
    }

    /// Dummy packets in the burst.
    pub fn dummy_packets(&self) -> (n: usize)
        ensures
            n == self@.dummy_packets,
    {
        self.dummy_packets
    }

    /// The regime the burst was mixed under.
    pub fn ratio_regime(&self) -> (r: RatioRegime)
        ensures
            r == self@.ratio_regime,
    {
        self.ratio_regime
    }

    /// Bytes in all frames.
    pub fn total_bytes(&self) -> (n: usize)
        requires
            frame_bytes(self@.frames, self@.frames.len()) <= usize::MAX,
        ensures
            n == frame_bytes(self@.frames, self@.frames.len()),
    {
        let mut total: usize = 0;
        let mut i: usize = 0;
        while i < self.frames.len()
            invariant
                i <= self.frames@.len(),
                self@.frames == frame_views(self.frames@),
                total == frame_bytes(self@.frames, i as nat),
                frame_bytes(self@.frames, self@.frames.len()) <= usize::MAX,
            decreases self.frames@.len() - i,
        {
            proof {
                lemma_frame_bytes_monotonic(self@.frames, (i + 1) as nat, self@.frames.len());
            }
            total = total + self.frames[i].len();
            i = i + 1;
        }
        total
    }
}

/// Why a configuration, a seed or a packet was refused.
#[derive(Debug, PartialEq, Eq)]
pub enum CompositionError {
    InvalidConfig(&'static str),
    WrongSeedRole { expected: SeedRole, actual: SeedRole },
    QueueFull,
}

impl CompositionError {
    /// The error in words.
    pub open spec fn text(self) -> Seq<char> {
        match self {
            CompositionError::InvalidConfig(message) => "invalid composition config: "@
                + message@,
            CompositionError::WrongSeedRole { expected, actual } => wrong_role_text(
                expected,
                actual,
            ),
            CompositionError::QueueFull =>
                "timing correlator queue full — apply back-pressure to upstream"@,
        }
    }

    /// The error in words.
    pub fn message(&self) -> (s: String)
        ensures
            s@ == self.text(),
    {
        match self {
            CompositionError::InvalidConfig(message) => {
                let mut s = String::from_str("invalid composition config: ");
                s.append(message);
                s
            },
            CompositionError::WrongSeedRole { expected, actual } => wrong_role_message(
                *expected,
                *actual,
            ),
            CompositionError::QueueFull => String::from_str(
                "timing correlator queue full — apply back-pressure to upstream",
            ),
        }
    }
}

/// How bursts are composed.
#[derive(Clone, Copy, Debug, PartialEq, Eq, Structural)]
pub struct CompositionConfig {
    /// Most dummy packets in a burst.
    pub max_dummy_packets_per_burst: usize,
    pub min_switch_bursts: u64,
    pub max_switch_bursts: u64,
    pub min_switch_real_bytes: u64,
    pub max_switch_real_bytes: u64,
    pub min_switch_real_packets: u64,
    pub max_switch_real_packets: u64,
    /// Longest silence before a keepalive.
    pub max_idle_gap_ms: u64,
    pub keepalive_min_bytes: usize,
    pub keepalive_max_bytes: usize,
    /// Windows of the privacy shaper, where one is used.
    pub dp_shaper: Option<DpShaperConfig>,
    /// Class the session is padded to, where it is bounded.
    pub session_class: Option<SessionClass>,
    pub padding_buckets: usize,
    /// Size of every frame, where it is fixed.
    pub cell_bytes: Option<usize>,
    /// Whether the departure clock follows real arrivals.
    pub clock_adapt_rate: Option<bool>,
}

impl CompositionConfig {
    /// The default configuration.
    pub open spec fn standard() -> CompositionConfig {
        CompositionConfig {
            max_dummy_packets_per_burst: 32,
            min_switch_bursts: 180,
            max_switch_bursts: 800,
            min_switch_real_bytes: 4_194_304,
            max_switch_real_bytes: 33_554_432,
            min_switch_real_packets: 4096,
            max_switch_real_packets: 32768,
            max_idle_gap_ms: 480,
            keepalive_min_bytes: 100,
            keepalive_max_bytes: 1_400,
            dp_shaper: Some(
                DpShaperConfig { window_ms: 100, max_real_bytes_per_window: 65_536 },
            ),
            session_class: None,
            padding_buckets: 4,
            cell_bytes: Some(TOR_CELL_BYTES),
            clock_adapt_rate: None,
        }
    }

    /// The first rule that the configuration breaks, if any.
    pub open spec fn fault(self) -> Option<Seq<char>> {
        if self.max_dummy_packets_per_burst == 0 {
            Some("maximum dummy packets must be non-zero"@)
        } else if self.min_switch_bursts == 0 || self.min_switch_real_bytes == 0
            || self.min_switch_real_packets == 0 {
            Some("ratio switch thresholds must be non-zero"@)
        } else if self.min_switch_bursts > self.max_switch_bursts {
            Some("minimum switch bursts cannot exceed maximum switch bursts"@)
        } else if self.min_switch_real_bytes > self.max_switch_real_bytes {
            Some("minimum switch bytes cannot exceed maximum switch bytes"@)
        } else if self.min_switch_real_packets > self.max_switch_real_packets {
            Some("minimum switch packets cannot exceed maximum switch packets"@)
        } else if self.max_idle_gap_ms == 0 {
            Some("max idle gap must be non-zero"@)
        } else if self.keepalive_min_bytes == 0 || self.keepalive_min_bytes
            > self.keepalive_max_bytes {
            Some("keepalive byte range is invalid"@)
        } else if self.padding_buckets == 0 {
            Some("padding_buckets must be non-zero"@)
        } else if self.cell_bytes == Some(0usize) {
            Some("cell_bytes must be non-zero"@)
        } else {
            None
        }
    }

    /// Hands the configuration back if it breaks no rule, and else reports the
    /// first rule it breaks.
    pub fn validate(self) -> (r: Result<CompositionConfig, CompositionError>)
        ensures
            match self.fault() {
                None => r == Ok::<CompositionConfig, CompositionError>(self),
                Some(text) => r is Err && r->Err_0 is InvalidConfig && r->Err_0->InvalidConfig_0@
                    == text,
            },
    {
        if self.max_dummy_packets_per_burst == 0 {
            return Err(
                CompositionError::InvalidConfig("maximum dummy packets must be non-zero"),
            );
        }
        if self.min_switch_bursts == 0 || self.min_switch_real_bytes == 0
            || self.min_switch_real_packets == 0 {
            return Err(
                CompositionError::InvalidConfig("ratio switch thresholds must be non-zero"),
            );
        }
        if self.min_switch_bursts > self.max_switch_bursts {
            return Err(
                CompositionError::InvalidConfig(
                    "minimum switch bursts cannot exceed maximum switch bursts",
                ),
            );
        }
        if self.min_switch_real_bytes > self.max_switch_real_bytes {
            return Err(
                CompositionError::InvalidConfig(
                    "minimum switch bytes cannot exceed maximum switch bytes",
                ),
            );
        }
        if self.min_switch_real_packets > self.max_switch_real_packets {
            return Err(
                CompositionError::InvalidConfig(
                    "minimum switch packets cannot exceed maximum switch packets",
                ),
            );
        }
        if self.max_idle_gap_ms == 0 {
            return Err(CompositionError::InvalidConfig("max idle gap must be non-zero"));
        }
        if self.keepalive_min_bytes == 0 || self.keepalive_min_bytes > self.keepalive_max_bytes {
            return Err(CompositionError::InvalidConfig("keepalive byte range is invalid"));
        }
        if self.padding_buckets == 0 {
            return Err(CompositionError::InvalidConfig("padding_buckets must be non-zero"));
        }
        if let Some(cell) = self.cell_bytes {
            if cell == 0 {
                return Err(CompositionError::InvalidConfig("cell_bytes must be non-zero"));
            }
        }
        Ok(self)
    }
}

impl Default for CompositionConfig {
    fn default() -> (c: CompositionConfig)
        ensures
            c == CompositionConfig::standard(),
    {
        CompositionConfig {
            max_dummy_packets_per_burst: 32,
            min_switch_bursts: 180,
            max_switch_bursts: 800,
            min_switch_real_bytes: 4 * 1024 * 1024,
            max_switch_real_bytes: 32 * 1024 * 1024,
            min_switch_real_packets: 4096,
            max_switch_real_packets: 32768,
            max_idle_gap_ms: 480,
            keepalive_min_bytes: 100,
            keepalive_max_bytes: 1_400,
            dp_shaper: Some(DpShaperConfig::default()),
            session_class: None,
            padding_buckets: 4,
            cell_bytes: Some(TOR_CELL_BYTES),
            clock_adapt_rate: None,
        }
    }
}

/// What a configuration must be: counts, thresholds and sizes that are not zero,
/// and ranges whose lower ends do not exceed their upper ends. Nothing else is
/// asked.
pub proof fn law_configurations_have_ranges(config: CompositionConfig)
    ensures
        config.fault() is None <==> {
            &&& config.max_dummy_packets_per_burst >= 1
            &&& 1 <= config.min_switch_bursts <= config.max_switch_bursts
            &&& 1 <= config.min_switch_real_bytes <= config.max_switch_real_bytes
            &&& 1 <= config.min_switch_real_packets <= config.max_switch_real_packets
            &&& config.max_idle_gap_ms >= 1
            &&& 1 <= config.keepalive_min_bytes <= config.keepalive_max_bytes
            &&& config.padding_buckets >= 1
            &&& config.cell_bytes is Some ==> config.cell_bytes->Some_0 >= 1
        },
{
}

/// Every frame is a packet or cover, and a burst weighs what its frames weigh.
pub proof fn law_frames_are_packets_or_cover(a: Seq<FrameView>, frame: FrameView)
    ensures
        reals_among(a) + dummies_among(a) == a.len(),
        frame is Real ==> reals_among(a.push(frame)) == reals_among(a) + 1,
        frame is Dummy ==> dummies_among(a.push(frame)) == dummies_among(a) + 1,
        frame_bytes(a.push(frame), a.len() + 1) == frame_bytes(a, a.len()) + frame.bytes().len(),
        frame_bytes(a, 0) == 0,
    decreases a.len(),
{
    if a.len() > 0 {
        law_frames_are_packets_or_cover(a.drop_last(), frame);
    }
    assert(a.push(frame).drop_last() =~= a);
    lemma_frame_bytes_prefix(a, a.push(frame), a.len());
}

proof fn lemma_frame_bytes_prefix(a: Seq<FrameView>, b: Seq<FrameView>, n: nat)
    requires
        n <= a.len(),
        n <= b.len(),
        forall|i: int| 0 <= i < n ==> a[i] == b[i],
    ensures
        frame_bytes(a, n) == frame_bytes(b, n),
    decreases n,
{
    if n > 0 {
        lemma_frame_bytes_prefix(a, b, (n - 1) as nat);
    }
}

} // verus!
