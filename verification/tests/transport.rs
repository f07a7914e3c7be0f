use mixtor::cells::{
    decode_real_cell, encode_close_cell, encode_real_cell, make_cell, padding_rng,
    split_into_cells, CELL_BYTES, CELL_PAYLOAD,
};
use mixtor::clock::{Duration, Instant};
use mixtor::session_bounder::{FuzzedClassThresholds, SessionClass};
use mixtor::transport::{class_targets, class_targets_fuzzy, EpochClock, TailPolicy};
use rand::rngs::StdRng;
use rand::SeedableRng;

fn start() -> Instant {
    Instant::from_nanos(2_000_000_000)
}

#[test]
fn cell_codec_round_trips_all_lengths() {
    let mut rng = StdRng::from_entropy();
    for len in [1usize, 2, 100, 509, 510] {
        let data: Vec<u8> = (0..len).map(|i| (i % 256) as u8).collect();
        let cell = encode_real_cell(0x0042, &data, &mut rng);
        assert_eq!(cell.len(), CELL_BYTES, "every cell must be uniform size");
        let (sid, decoded) = decode_real_cell(&cell);
        assert_eq!(sid, 0x0042, "stream_id must survive the round trip");
        assert_eq!(decoded, &data[..], "len {len} must round-trip");
    }
}

#[test]
fn cell_codec_truncates_oversize_chunk() {
    let mut rng = StdRng::from_entropy();
    let data = vec![7u8; CELL_PAYLOAD + 50];
    let cell = encode_real_cell(0x0001, &data, &mut rng);
    assert_eq!(cell.len(), CELL_BYTES);
    let (sid, decoded) = decode_real_cell(&cell);
    assert_eq!(sid, 0x0001);
    assert_eq!(decoded.len(), CELL_PAYLOAD);
}

#[test]
fn close_cell_signals_stream_teardown() {
    let mut rng = StdRng::from_entropy();
    let cell = encode_close_cell(0x0007, &mut rng);
    assert_eq!(cell.len(), CELL_BYTES);
    let (sid, data) = decode_real_cell(&cell);
    assert_eq!(sid, 0x0007, "stream_id must be preserved in close cell");
    assert!(data.is_empty(), "close cell must have zero-length payload");
}

#[test]
fn class_targets_select_floor_by_volume() {
    let (dur_short, cells_short) = class_targets(10 * 1024);
    assert_eq!(dur_short, SessionClass::Short.target_duration());
    assert_eq!(
        cells_short,
        (SessionClass::Short.target_volume_bytes() / CELL_BYTES) as u64
    );
    assert_eq!(
        class_targets(512 * 1024).0,
        SessionClass::Medium.target_duration(),
        "~512 KB real should select the Medium class"
    );
    assert_eq!(
        class_targets(8 * 1024 * 1024).0,
        SessionClass::Long.target_duration(),
        "8 MB real should select the Long class"
    );
    assert_eq!(
        class_targets(20 * 1024 * 1024).0,
        SessionClass::VeryLong.target_duration(),
        "20 MB real should select the VeryLong class"
    );
    let (dur_long, cells_long) = class_targets(8 * 1024 * 1024);
    let cover_cells_per_sec = 1000.0 / 7.0;
    let secs_to_volume = cells_long as f64 / cover_cells_per_sec;
    assert!(
        secs_to_volume < dur_long.as_nanos() as f64 / 1e9,
        "volume target {cells_long} cells should be reachable within the lifetime floor"
    );
}

#[test]
fn fuzzy_class_targets_follow_the_session_boundaries() {
    let t = FuzzedClassThresholds::from_draws(50_000, 900_000, 12_000_000);
    assert_eq!(class_targets_fuzzy(50_000, &t).0, SessionClass::Short.target_duration());
    assert_eq!(class_targets_fuzzy(60_000, &t).0, SessionClass::Medium.target_duration());
    assert_eq!(class_targets(60_000).0, SessionClass::Short.target_duration());
    assert_eq!(class_targets_fuzzy(12_000_001, &t), (Duration::from_secs(7200), 522_247));
}

#[test]
fn cells_carry_their_header_and_random_padding() {
    let mut rng = padding_rng();
    let a = encode_real_cell(0x0102, b"abc", &mut rng);
    let b = encode_real_cell(0x0102, b"abc", &mut rng);
    assert_eq!(&a[..7], &[1, 2, 0, 3, b'a', b'b', b'c']);
    assert_ne!(a, b, "padding is random");
    let exact = make_cell(0x0203, &[9], &vec![4u8; 509]);
    assert_eq!(&exact[..6], &[2, 3, 0, 1, 9, 4]);
}

#[test]
fn short_and_lying_cells_are_read_safely() {
    assert_eq!(decode_real_cell(&[1, 2, 3]), (0, &[][..]));
    assert_eq!(decode_real_cell(&[1, 2, 255, 255, 7]), (0x0102, &[7u8][..]));
}

#[test]
fn streams_survive_being_cut_into_cells() {
    let mut rng = padding_rng();
    for len in [0usize, 1, 509, 510, 511, 1020, 5000] {
        let data: Vec<u8> = (0..len).map(|i| (i % 241) as u8).collect();
        let cells = split_into_cells(5, &data, &mut rng);
        assert_eq!(cells.len(), len.div_ceil(CELL_PAYLOAD));
        let mut back = Vec::new();
        for cell in &cells {
            assert_eq!(cell.len(), CELL_BYTES);
            let (sid, part) = decode_real_cell(cell);
            assert_eq!(sid, 5);
            assert!(!part.is_empty());
            back.extend_from_slice(part);
        }
        assert_eq!(back, data);
    }
}

#[test]
fn epochs_end_together() {
    let clock = EpochClock::new(Duration::from_secs(5), start());
    let end = start().after(Duration::from_secs(5));
    assert_eq!(clock.next_boundary(start()), end);
    assert_eq!(clock.next_boundary(start().after(Duration::from_millis(4_999))), end);
    assert_eq!(clock.next_boundary(end), end.after(Duration::from_secs(5)));
    assert_eq!(clock.next_boundary(Instant::from_nanos(0)), end);
    let never = EpochClock::new(Duration::from_secs(0), start());
    assert_eq!(never.next_boundary(end), end);
    assert_eq!(clock.period(), Duration::from_secs(5));
}

fn policy(setting: &str) -> Option<TailPolicy> {
    TailPolicy::from_env(Some(setting), start())
}

fn epoch(ms: u64) -> Option<TailPolicy> {
    Some(TailPolicy::Epoch(EpochClock::new(Duration::from_millis(ms), start())))
}

#[test]
fn tail_settings_are_understood() {
    assert_eq!(TailPolicy::from_env(None, start()), None);
    assert_eq!(policy("epoch"), epoch(5_000));
    assert_eq!(policy("EPOCH"), epoch(5_000));
    assert_eq!(policy("Epoch:250"), epoch(250));
    assert_eq!(policy("epoch:+7"), epoch(7));
    assert_eq!(policy("epoch:"), None);
    assert_eq!(policy("epoch:x"), None);
    assert_eq!(policy("Class"), Some(TailPolicy::ByClass));
    assert_eq!(policy("off"), Some(TailPolicy::Off));
    assert_eq!(policy("NONE"), Some(TailPolicy::Off));
    assert_eq!(policy("0"), Some(TailPolicy::Off));
    assert_eq!(policy("1500"), Some(TailPolicy::Fixed(Duration::from_millis(1500))));
    assert_eq!(policy("18446744073709551616"), None);
    assert_eq!(policy("-1"), None);
    assert_eq!(policy(""), None);
    assert_eq!(policy("soon"), None);
}

#[test]
fn tail_settings_have_defaults() {
    let fallback = TailPolicy::ByClass;
    assert_eq!(TailPolicy::from_env_or(None, fallback, start()), fallback);
    assert_eq!(TailPolicy::from_env_or(Some("junk"), fallback, start()), fallback);
    assert_eq!(TailPolicy::from_env_or(Some("off"), fallback, start()), TailPolicy::Off);
    assert_eq!(Some(TailPolicy::default_for_production(None, start())), epoch(5_000));
    assert_eq!(TailPolicy::default_for_production(Some("class"), start()), TailPolicy::ByClass);
}

#[test]
fn the_largest_volume_is_in_the_largest_class() {
    let t = FuzzedClassThresholds::from_draws(1, 2, 3);
    let very_long = class_targets(u64::MAX);
    assert_eq!(class_targets_fuzzy(u64::MAX, &t), very_long);
    assert_eq!(very_long.0, SessionClass::VeryLong.target_duration());
}
