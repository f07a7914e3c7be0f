//! A simulated session: synthetic packets go through pool, scheduler and
//! composer, and what comes out is tallied.
use crate::clock::Instant;
use crate::clumping::{payload_bytes, Burst, Packet};
use crate::composer::{dummy_bytes_in, SeedBComposer};
use crate::composition::{frame_bytes, MixedBurst, MixedBurstView};
use crate::frames::{frame_views, FrameView, MixedFrame};
use crate::timing::{SchedulerState, SeedATimingScheduler, TimingDecision};
use vstd::prelude::*;

verus! {

/// Packets in a simulated session.
pub const PACKETS_PER_SESSION: usize = 6_000;

/// The length that packets of a pattern start from.
pub open spec fn pattern_length(k: nat) -> nat {
    if k == 0 {
        72
    } else if k == 1 {
        96
    } else if k == 2 {
        128
    } else if k == 3 {
        256
    } else if k == 4 {
        384
    } else if k == 5 {
        640
    } else if k == 6 {
        900
    } else {
        1180
    }
}

/// Packet number `index` of a simulated session: its length follows a pattern
/// with some jitter, and all its bytes are the same.
pub fn synthetic_packet(index: usize) -> (p: Packet)
    ensures
        p@ == Seq::new(
            pattern_length((index % 8) as nat) + (index.wrapping_mul(37) % 61) as nat,
            |i: int| (index % 251) as u8,
        ),
{
    let start: usize = match index % 8 {
        0 => 72,
        1 => 96,
        2 => 128,
        3 => 256,
        4 => 384,
        5 => 640,
        6 => 900,
        _ => 1180,
    };
    let jitter: usize = index.wrapping_mul(37) % 61;
    let byte: u8 = (index % 251) as u8;
    let bytes: Vec<u8> = vec![byte; start + jitter];
    let ghost expected = Seq::new(
        pattern_length((index % 8) as nat) + (index.wrapping_mul(37) % 61) as nat,
        |i: int| (index % 251) as u8,
    );
    assert(bytes@ =~= expected);
    match Packet::new(bytes) {
        Ok(p) => p,
        Err(_) => {
            assert(false);
            vstd::pervasive::unreached()
        },
    }
}

/// Whether the real frames all come first, and cover follows them.
pub open spec fn is_prefix(frames: Seq<FrameView>) -> bool {
    &&& frames.len() > 0 && frames[0] is Real
    &&& frames.last() is Dummy
    &&& forall|i: int, j: int| 0 <= i < j < frames.len() && frames[j] is Real ==> frames[i] is Real
}

/// Whether the real frames all come first, and cover follows them.
pub fn real_frames_are_prefix(frames: &[MixedFrame]) -> (b: bool)
    ensures
        b == is_prefix(frame_views(frames@)),
{
    let ghost views = frame_views(frames@);
    let mut saw_dummy = false;
    let mut real_count: usize = 0;
    let mut n: usize = 0;
    while n < frames.len()
        invariant
            n <= frames@.len(),
            views == frame_views(frames@),
            real_count <= n,
            forall|i: int| 0 <= i < real_count ==> views[i] is Real,
            forall|i: int| real_count <= i < n ==> views[i] is Dummy,
            saw_dummy == (real_count < n),
        decreases frames@.len() - n,
    {
        assert(views[n as int] == frames@[n as int]@);
        if frames[n].is_real() {
            if saw_dummy {
                assert(views[n as int] is Real && views[real_count as int] is Dummy);
                return false;
            }
            real_count = real_count + 1;
        } else {
            saw_dummy = true;
        }
        n = n + 1;
    }
    assert(views.len() == frames@.len());
    real_count > 0 && saw_dummy
}

/// Bytes in the real frames among the first `n`.
pub open spec fn real_bytes_in(frames: Seq<FrameView>, n: nat) -> nat
    decreases n,
{
    if n == 0 {
        0
    } else {
        real_bytes_in(frames, (n - 1) as nat) + if frames[n - 1] is Real {
            frames[n - 1].bytes().len()
        } else {
            0
        }
    }
}

/// What is noted of a mixed burst.
#[derive(Clone, Copy, Debug, PartialEq, Eq, Structural)]
pub struct BurstSample {
    pub delay_ms: u128,
    pub real_packets: usize,
    pub dummy_packets: usize,
    pub total_packets: usize,
    pub real_bytes: u128,
    pub total_bytes: u128,
    pub is_prefix: bool,
}

/// Whether a sample is that of a burst that waited this long.
pub open spec fn is_sample(s: BurstSample, decision: TimingDecision, mixed: MixedBurstView) -> bool {
    &&& s.delay_ms == decision.delay.nanos / crate::clock::NANOS_PER_MILLI
    &&& s.real_packets == mixed.real_packets
    &&& s.dummy_packets == mixed.dummy_packets
    &&& s.total_packets == mixed.frames.len()
    &&& s.real_bytes == real_bytes_in(mixed.frames, mixed.frames.len())
    &&& s.total_bytes == frame_bytes(mixed.frames, mixed.frames.len())
    &&& s.is_prefix == is_prefix(mixed.frames)
}

/// What is noted of a mixed burst that waited as decided.
pub fn sample_burst(decision: &TimingDecision, mixed: &MixedBurst) -> (s: BurstSample)
    ensures
        is_sample(s, *decision, mixed@),
{
    let frames = mixed.frames();
    let ghost views = frame_views(frames@);
    let count: usize = frames.len();
    let mut genuine: u128 = 0;
    let mut total: u128 = 0;
    let mut n: usize = 0;
    while n < count
        invariant
            n <= count,
            count == frames@.len(),
            views == frame_views(frames@),
            genuine == real_bytes_in(views, n as nat),
            total == frame_bytes(views, n as nat),
            genuine <= total <= n * usize::MAX,
        decreases count - n,
    {
        assert(views[n as int] == frames@[n as int]@);
        assert((n + 1) * usize::MAX == n * usize::MAX + usize::MAX) by (nonlinear_arith);
        assert(n * usize::MAX + usize::MAX <= u128::MAX) by (nonlinear_arith)
            requires
                n < usize::MAX,
                usize::MAX <= 0xffff_ffff_ffff_ffff,
        ;
        let len: usize = frames[n].len();
        total = total + len as u128;
        if frames[n].is_real() {
            genuine = genuine + len as u128;
        }
        n = n + 1;
    }
    assert(views.len() == count);
    BurstSample {
        delay_ms: decision.delay.as_millis(),
        real_packets: mixed.real_packets(),
        dummy_packets: mixed.dummy_packets(),
        total_packets: count,
        real_bytes: genuine,
        total_bytes: total,
        is_prefix: real_frames_are_prefix(frames),
    }
}

/// One burst of a simulated session: the scheduler decides how long it waits
/// and counts it, the composer mixes it, and the outcome is noted. The last
/// arguments are the samples that the two draw from outside.
pub fn simulate_burst(
    timing: &mut SeedATimingScheduler,
    composer: &mut SeedBComposer,
    burst: Burst,
    sampled_ms: u64,
    window_bytes: usize,
    keepalive_ms: u64,
    now: Instant,
) -> (s: BurstSample)
    requires
        old(timing)@.wf(),
        old(composer)@.wf(),
        old(composer)@.regime.dummy_lo <= old(composer)@.regime.dummy_hi,
        payload_bytes(burst@.packets, burst@.packets.len()) <= usize::MAX,
        burst@.packets.len() + old(composer)@.config.max_dummy_packets_per_burst <= usize::MAX,
        old(composer)@.frame_clock_ms + burst@.packets.len()
            + old(composer)@.config.max_dummy_packets_per_burst <= u64::MAX,
        now.nanos + u64::MAX * crate::clock::NANOS_PER_MILLI <= u128::MAX,
    ensures
        final(timing)@.wf(),
        final(composer)@.wf(),
        is_sample(
            s,
            old(timing)@.decision(sampled_ms),
            old(composer)@.composed(burst@, window_bytes as nat),
        ),
        final(timing)@ == (SchedulerState {
            rng: old(timing)@.config.clumping.thresholds_drawn(old(timing)@.rng),
            ..old(timing)@
        }).observed(
            payload_bytes(burst@.packets, burst@.packets.len()) as u64,
            burst@.packets.len() as u64,
        ),
        final(composer)@ == old(composer)@.after_composed(
            burst@,
            window_bytes as nat,
            keepalive_ms,
            now,
        ),
{
    let decision = timing.next_decision(sampled_ms);
    timing.observe_burst(burst.total_bytes() as u64, burst.packet_count() as u64);
    let mixed = composer.compose(burst, window_bytes, keepalive_ms, now);
    sample_burst(&decision, &mixed)
}

/// How one flow of a sample log behaves.
#[derive(Clone, Copy, Debug, PartialEq, Eq, Structural)]
pub struct FlowPlan {
    pub seed: u64,
    pub burst_bytes: usize,
    pub min_idle_ms: u64,
    pub max_idle_ms: u64,
}

/// The plan of flow `i` of a sample log: flows differ in the size of their
/// bursts and in how long they pause.
pub fn flow_plan(i: u32) -> (p: FlowPlan)
    ensures
        p.seed == 7 + i * 1009,
        p.burst_bytes == 500 + (i % 6) * 220,
        p.min_idle_ms == 70 + (i % 5) * 30,
        p.max_idle_ms == p.min_idle_ms + 150 + (i % 4) * 90,
{
    let min_idle_ms: u64 = 70 + (i % 5) as u64 * 30;
    FlowPlan {
        seed: 7 + i as u64 * 1009,
        burst_bytes: 500 + (i % 6) as usize * 220,
        min_idle_ms,
        max_idle_ms: min_idle_ms + 150 + (i % 4) as u64 * 90,
    }
}

/// Most bytes of one reply of the sample bridge.
pub const REPLY_WRITE_CAP: usize = 32_768;

/// Most bytes that the sample bridge replies on a connection.
pub const REPLY_TOTAL_CAP: usize = 409_600;

/// The smaller of two numbers.
pub open spec fn smaller(a: int, b: int) -> int {
    if a < b {
        a
    } else {
        b
    }
}

/// Bytes that the sample bridge replies to a request of `n` bytes, given how
/// many it has sent: `factor` times as many, within both caps.
pub fn reply_size(n: usize, factor: usize, sent: usize) -> (want: usize)
    requires
        n * factor <= usize::MAX,
    ensures
        want == smaller(
            smaller(n * factor, REPLY_WRITE_CAP as int),
            if sent < REPLY_TOTAL_CAP {
                REPLY_TOTAL_CAP - sent
            } else {
                0
            },
        ),
{
    let left: usize = REPLY_TOTAL_CAP.saturating_sub(sent);
    let asked: usize = n * factor;
    let capped: usize = if asked < REPLY_WRITE_CAP {
        asked
    } else {
        REPLY_WRITE_CAP
    };
    if capped < left {
        capped
    } else {
        left
    }
}

/// The sample bridge never sends more on a connection than its cap.
pub proof fn law_replies_stay_within_their_cap(n: nat, factor: nat, sent: nat)
    requires
        sent <= REPLY_TOTAL_CAP,
    ensures
        sent + smaller(
            smaller((n * factor) as int, REPLY_WRITE_CAP as int),
            REPLY_TOTAL_CAP - sent,
        ) <= REPLY_TOTAL_CAP,
{
}

/// Cycles of the watermark that a sample flow carries.
pub fn watermark_cycles(bursts: usize) -> (n: usize)
    ensures
        n == if bursts / 30 > 4 {
            bursts / 30
        } else {
            4
        },
{
    if bursts / 30 > 4 {
        bursts / 30
    } else {
        4
    }
}

/// The lengths that simulated packets start from.
pub proof fn law_patterns_take_turns(index: nat)
    ensures
        pattern_length(index % 8) == seq![72nat, 96, 128, 256, 384, 640, 900, 1180][(index
            % 8) as int],
{
}

/// Packets show as a prefix where some packets come first and then only cover,
/// of which there is some.
pub proof fn law_prefixes_are_packets_before_cover(frames: Seq<FrameView>, n: int)
    ensures
        0 < n < frames.len() && (forall|i: int| 0 <= i < n ==> #[trigger] frames[i] is Real) && (
        forall|i: int| n <= i < frames.len() ==> #[trigger] frames[i] is Dummy) ==> is_prefix(
            frames,
        ),
        is_prefix(frames) ==> frames[0] is Real && frames.last() is Dummy,
        is_prefix(frames) && 0 <= n < frames.len() && frames[n] is Dummy ==> (forall|i: int|
            n <= i < frames.len() ==> #[trigger] frames[i] is Dummy),
{
}

/// What is noted of a mixed burst fits together: packets and cover make up its
/// bytes, and the wait is told in whole milliseconds.
pub proof fn law_samples_add_up(s: BurstSample, decision: TimingDecision, mixed: MixedBurstView)
    requires
        is_sample(s, decision, mixed),
    ensures
        s.real_bytes + dummy_bytes_in(mixed.frames, mixed.frames.len()) == s.total_bytes,
        s.total_packets == mixed.frames.len(),
        s.real_packets == mixed.real_packets,
        s.dummy_packets == mixed.dummy_packets,
        s.is_prefix <==> is_prefix(mixed.frames),
        s.delay_ms * 1_000_000 <= decision.delay.nanos < (s.delay_ms + 1) * 1_000_000,
{
    lemma_bytes_add_up(mixed.frames, mixed.frames.len());
}

proof fn lemma_bytes_add_up(frames: Seq<FrameView>, n: nat)
    requires
        n <= frames.len(),
    ensures
        real_bytes_in(frames, n) + dummy_bytes_in(frames, n) == frame_bytes(frames, n),
    decreases n,
{
    if n > 0 {
        lemma_bytes_add_up(frames, (n - 1) as nat);
    }
}

} // verus!
