use mixtor::bytes::{all_zero, equal, find_subslice};
use mixtor::clock::Instant;
use mixtor::clumping::{ClumpingConfig, ClumpingPool, Packet};
use mixtor::composer::{dp_rng, spectral_rng};
use mixtor::composition::{MixedFrame, SeedBComposer};
use mixtor::rng::SeededRng;
use mixtor::seeds::{EphemeralSeed, SeedRole, SessionSeeds};
use mixtor::simulation::{
    flow_plan, real_frames_are_prefix, reply_size, simulate_burst, synthetic_packet,
    watermark_cycles, FlowPlan,
};
use mixtor::sorting::sorted_copy;
use mixtor::text::{chars_of, parse_number, push_decimal, split_fields, text_of, trim};
use mixtor::timing::{SeedATimingScheduler, TimingConfig};
use rand::{Rng, RngCore, SeedableRng};

#[test]
fn simulated_sessions_mix_every_packet() {
    let now = Instant::from_nanos(1_000);
    let seeds = SessionSeeds::generate(now).ok().unwrap();
    let clumping = ClumpingConfig::default();
    let mut pool = ClumpingPool::with_config(seeds.timing_and_pool(), clumping).ok().unwrap();
    let config = TimingConfig {
        min_regime_bytes: 4 * 1024,
        max_regime_bytes: 48 * 1024,
        min_regime_packets: 16,
        max_regime_packets: 128,
        ..TimingConfig::default()
    };
    let mut timing =
        SeedATimingScheduler::with_config(seeds.timing_and_pool(), config).ok().unwrap();
    let mut composer =
        SeedBComposer::new(seeds.burst_composition(), true, 100, now).ok().unwrap();
    let mut reals = 0usize;
    let mut bursts = Vec::new();
    for index in 0usize..600 {
        bursts.extend(pool.push(synthetic_packet(index), now));
    }
    bursts.extend(pool.flush(now));
    for burst in bursts {
        let count = burst.packet_count();
        let s = simulate_burst(&mut timing, &mut composer, burst, 50, 2_000, 100, now);
        assert_eq!(s.delay_ms, 50);
        assert_eq!(s.real_packets, count);
        assert_eq!(s.total_packets, s.real_packets + s.dummy_packets);
        assert_eq!(s.real_bytes, 514 * count as u128);
        assert_eq!(s.total_bytes, 514 * s.total_packets as u128);
        reals += s.real_packets;
    }
    assert_eq!(reals, 600);
}

#[test]
fn synthetic_packets_follow_the_pattern() {
    let p = synthetic_packet(0);
    assert_eq!(p.bytes(), &[0u8; 72][..]);
    let p = synthetic_packet(260);
    // 260 % 8 = 4 starts from 384; 260 * 37 % 61 = 43; 260 % 251 = 9.
    assert_eq!(p.bytes(), &[9u8; 427][..]);
    assert_eq!(synthetic_packet(7).len(), 1180 + 7 * 37 % 61);
}

#[test]
fn prefixes_of_real_frames_are_seen() {
    let r = || MixedFrame::Real(Packet::new(vec![1]).unwrap());
    let d = || MixedFrame::Dummy(vec![2]);
    assert!(real_frames_are_prefix(&[r(), d()]));
    assert!(real_frames_are_prefix(&[r(), r(), d(), d()]));
    assert!(!real_frames_are_prefix(&[r(), d(), r()]));
    assert!(!real_frames_are_prefix(&[d(), r()]));
    assert!(!real_frames_are_prefix(&[r(), r()]));
    assert!(!real_frames_are_prefix(&[d()]));
    assert!(!real_frames_are_prefix(&[]));
}

#[test]
fn sample_flows_differ() {
    assert_eq!(
        flow_plan(0),
        FlowPlan { seed: 7, burst_bytes: 500, min_idle_ms: 70, max_idle_ms: 220 }
    );
    assert_eq!(
        flow_plan(7),
        FlowPlan { seed: 7070, burst_bytes: 720, min_idle_ms: 130, max_idle_ms: 550 }
    );
    assert_eq!(watermark_cycles(64), 4);
    assert_eq!(watermark_cycles(300), 10);
}

#[test]
fn sample_replies_are_capped() {
    assert_eq!(reply_size(100, 3, 0), 300);
    assert_eq!(reply_size(20_000, 2, 0), 32_768);
    assert_eq!(reply_size(20_000, 2, 409_600 - 5), 5);
    assert_eq!(reply_size(1, 2, 409_600), 0);
    assert_eq!(reply_size(1, 2, 500_000), 0);
}

#[test]
fn generators_draw_as_their_seed_says() {
    let mut ours = SeededRng::new([11u8; 32]);
    let mut theirs = rand_chacha::ChaCha20Rng::from_seed([11u8; 32]);
    assert_eq!(ours.next_u32(), theirs.next_u32());
    assert_eq!(ours.next_u64(), theirs.next_u64());
    assert_eq!(ours.range_u32(0, 19), theirs.gen_range(0..20) as u32);
    assert_eq!(ours.range_u64(5, 500), theirs.gen_range(5..=500u64));
    assert_eq!(ours.range_usize(2, 7), theirs.gen_range(2..=7usize));
    assert_eq!(ours.ratio(74, 100), theirs.gen_bool(0.74));
    let mut buf = vec![0u8; 33];
    theirs.fill(buf.as_mut_slice());
    assert_eq!(ours.bytes(33), buf);
    for _ in 0..1_000 {
        assert_eq!(ours.ratio(74, 100), theirs.gen_bool(0.74));
    }
    assert!(ours.ratio(3, 3));
    assert!(!ours.ratio(0, 3));
    let seed = EphemeralSeed::from_random(SeedRole::BurstComposition, Ok([2u8; 32])).ok().unwrap();
    assert_ne!(dp_rng(&seed).next_u64(), spectral_rng(&seed).next_u64());
    let key: [u8; 32] = blake3::keyed_hash(&[2u8; 32], b"mixtor.dp.v1").into();
    assert_eq!(
        dp_rng(&seed).next_u64(),
        rand_chacha::ChaCha20Rng::from_seed(key).next_u64()
    );
}

fn number(s: &str, max: u128) -> Option<u128> {
    parse_number(&chars_of(s), max)
}

#[test]
fn numbers_are_read_as_the_standard_library_reads_them() {
    for s in ["0", "7", "+7", "007", "255", "256", "", "+", "-1", "++1", " 1", "1 ", "1a", "٣"] {
        assert_eq!(number(s, 255), s.parse::<u8>().ok().map(|n| n as u128), "{s:?}");
    }
    let big = "340282366920938463463374607431768211455";
    assert_eq!(number(big, u128::MAX), Some(u128::MAX));
    assert_eq!(number(&format!("{big}0"), u128::MAX), None);
    let mut s = String::new();
    push_decimal(&mut s, u128::MAX);
    assert_eq!(s, big);
}

#[test]
fn white_space_is_trimmed_as_the_standard_library_trims_it() {
    for s in ["", " ", " a b ", "\u{3000}x\u{85}", "\u{200b}x", "\t\r\n\u{b}y\u{a0}"] {
        assert_eq!(text_of(&trim(&chars_of(s))), s.trim(), "{s:?}");
    }
    for c in (0u32..0x3100).filter_map(char::from_u32) {
        assert_eq!(trim(&[c]).is_empty(), c.is_whitespace(), "{c:?}");
    }
}

#[test]
fn fields_are_split_as_the_standard_library_splits_them() {
    for s in ["", ",", "a", "a,b", ",a,,b,"] {
        let ours: Vec<String> =
            split_fields(&chars_of(s), ',').iter().map(|f| text_of(f)).collect();
        let theirs: Vec<String> = s.split(',').map(|f| f.to_string()).collect();
        assert_eq!(ours, theirs);
    }
}

#[test]
fn byte_strings_are_compared_and_searched() {
    assert!(all_zero(&[0, 0]) && all_zero(&[]) && !all_zero(&[0, 1]));
    assert!(equal(b"ab", b"ab") && !equal(b"ab", b"ac") && !equal(b"ab", b"abc"));
    assert_eq!(find_subslice(b"xabab", b"ab"), Some(1));
    assert_eq!(find_subslice(b"ab", b"abc"), None);
    assert_eq!(find_subslice(b"ab", b""), None);
    assert_eq!(find_subslice(b"aab", b"ab"), Some(1));
    assert_eq!(sorted_copy(&[3, 1, 2, 1]), vec![1, 1, 2, 3]);
}
