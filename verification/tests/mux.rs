use mixtor::cells::{encode_close_cell, encode_real_cell, padding_rng};
use mixtor::clock::{Duration, Instant};
use mixtor::crypto::{KIND_DUMMY, KIND_REAL};
use mixtor::mux::{
    clamp_read, gate_until, inbound_data, Delivery, DemuxAction, DemuxTable, HoldBuffer, MuxTable,
    EPOCH_HOLD_MAX_BYTES, MAX_GLOBAL_BRIDGE_STREAMS, MAX_STREAMS_PER_WIRE,
};
use mixtor::transport::{EpochClock, TailPolicy};

fn data(id: u16, text: &[u8]) -> Vec<u8> {
    encode_real_cell(id, text, &mut padding_rng())
}

#[test]
fn first_data_opens_a_stream_and_more_is_forwarded() {
    let mut table = DemuxTable::new();
    match table.on_frame(KIND_REAL, &data(7, b"a"), 0) {
        DemuxAction::Open(7, d) => assert_eq!(d, b"a".to_vec()),
        _ => panic!("the stream is new"),
    }
    match table.on_frame(KIND_REAL, &data(7, b"b"), 0) {
        DemuxAction::Forward(7, d) => assert_eq!(d, b"b".to_vec()),
        _ => panic!("the stream is live"),
    }
    assert_eq!(table.len(), 1);
}

#[test]
fn cover_is_ignored() {
    let mut table = DemuxTable::new();
    assert!(matches!(table.on_frame(KIND_DUMMY, &data(7, b"a"), 0), DemuxAction::Ignore));
    assert_eq!(table.len(), 0);
}

#[test]
fn empty_cells_close_their_stream() {
    let mut table = DemuxTable::new();
    let _ = table.on_frame(KIND_REAL, &data(7, b"a"), 0);
    let close = encode_close_cell(7, &mut padding_rng());
    assert!(matches!(table.on_frame(KIND_REAL, &close, 0), DemuxAction::Close(7)));
    assert_eq!(table.len(), 0);
    assert!(matches!(table.on_frame(KIND_REAL, &close, 0), DemuxAction::Close(7)));
}

#[test]
fn streams_are_capped_per_wire() {
    let mut table = DemuxTable::new();
    for id in 0..MAX_STREAMS_PER_WIRE as u16 {
        assert!(matches!(table.on_frame(KIND_REAL, &data(id, b"x"), 0), DemuxAction::Open(_, _)));
    }
    assert!(matches!(table.on_frame(KIND_REAL, &data(9_999, b"x"), 0), DemuxAction::Abort));
    assert!(matches!(table.on_frame(KIND_REAL, &data(0, b"x"), 0), DemuxAction::Forward(0, _)));
}

#[test]
fn streams_are_capped_over_all_wires() {
    let mut table = DemuxTable::new();
    let full = MAX_GLOBAL_BRIDGE_STREAMS;
    assert!(matches!(table.on_frame(KIND_REAL, &data(1, b"x"), full), DemuxAction::Ignore));
    assert_eq!(table.len(), 0);
    assert!(matches!(table.on_frame(KIND_REAL, &data(1, b"x"), full - 1), DemuxAction::Open(1, _)));
}

#[test]
fn closed_receivers_end_their_stream() {
    let mut table = DemuxTable::new();
    let _ = table.on_frame(KIND_REAL, &data(1, b"x"), 0);
    table.on_delivery(1, Delivery::Taken);
    table.on_delivery(1, Delivery::Full);
    assert_eq!(table.len(), 1);
    table.on_delivery(1, Delivery::Closed);
    assert_eq!(table.len(), 0);
}

#[test]
fn clients_number_streams_from_one() {
    let mut table = MuxTable::new();
    assert_eq!(table.add_stream(), Some(1));
    assert_eq!(table.add_stream(), Some(2));
    table.on_delivery(1, Delivery::Closed);
    assert_eq!(table.add_stream(), Some(3));
    assert_eq!(table.len(), 2);
}

#[test]
fn numbers_wrap_around_and_skip_live_streams() {
    let mut table = MuxTable::new();
    for expected in 1u16..=u16::MAX - 1 {
        assert_eq!(table.add_stream(), Some(expected));
    }
    assert_eq!(table.add_stream(), None, "all numbers are in use");
    for id in 4u16..u16::MAX - 1 {
        table.on_delivery(id, Delivery::Closed);
    }
    assert_eq!(table.add_stream(), Some(u16::MAX));
    assert_eq!(table.add_stream(), Some(4), "0 is reserved, 1 to 3 are live");
}

#[test]
fn clients_forward_only_to_live_streams() {
    let mut table = MuxTable::new();
    assert!(matches!(table.on_frame(KIND_REAL, &data(1, b"x")), DemuxAction::Ignore));
    let id = table.add_stream().unwrap();
    assert!(matches!(table.on_frame(KIND_REAL, &data(id, b"x")), DemuxAction::Forward(1, _)));
    assert!(matches!(table.on_frame(KIND_DUMMY, &data(id, b"x")), DemuxAction::Ignore));
    let close = encode_close_cell(id, &mut padding_rng());
    assert!(matches!(table.on_frame(KIND_REAL, &close), DemuxAction::Close(1)));
    assert_eq!(table.len(), 0);
}

#[test]
fn data_waits_for_the_end_of_an_epoch() {
    let now = Instant::from_nanos(1_000);
    let clock = EpochClock::new(Duration::from_nanos(400), Instant::from_nanos(0));
    assert_eq!(gate_until(&TailPolicy::Epoch(clock), now), Instant::from_nanos(1_200));
    assert_eq!(gate_until(&TailPolicy::ByClass, now), now);
    assert_eq!(gate_until(&TailPolicy::Off, now), now);
}

#[test]
fn held_data_is_bounded_and_keeps_its_order() {
    let mut hold = HoldBuffer::new();
    hold.hold(vec![1; 3]);
    hold.hold(vec![2; EPOCH_HOLD_MAX_BYTES - 4]);
    assert!(!hold.is_full());
    hold.hold(vec![3]);
    assert!(hold.is_full());
    let pieces = hold.into_pieces();
    assert_eq!(pieces.len(), 3);
    assert_eq!((pieces[0].len(), pieces[1].len(), pieces[2].len()), (3, 262_140, 1));
}

#[test]
fn reads_are_clamped() {
    assert_eq!(clamp_read(0), 1);
    assert_eq!(clamp_read(1200), 1200);
    assert_eq!(clamp_read(70_000), 65_536);
}

#[test]
fn a_full_stream_does_not_hold_up_another() {
    let mut table = DemuxTable::new();
    let mut got = Vec::new();
    for i in 0..6u8 {
        for id in [1u16, 2] {
            let cell = data(id, &[id as u8, i]);
            match table.on_frame(KIND_REAL, &cell, 0) {
                DemuxAction::Open(to, piece) | DemuxAction::Forward(to, piece) => {
                    assert_eq!(to, id);
                    if id == 1 {
                        table.on_delivery(to, Delivery::Full);
                    } else {
                        table.on_delivery(to, Delivery::Taken);
                        got.push(piece);
                    }
                }
                _ => panic!("data must be handed over"),
            }
        }
        let cover = data(2, b"cover");
        assert!(matches!(table.on_frame(KIND_DUMMY, &cover, 0), DemuxAction::Ignore));
    }
    let expected: Vec<Vec<u8>> = (0..6u8).map(|i| vec![2, i]).collect();
    assert_eq!(got, expected);
    assert_eq!(table.len(), 2);
}

#[test]
fn clients_get_the_data_of_real_cells() {
    let cell = data(0, b"hello");
    assert_eq!(inbound_data(KIND_REAL, &cell), Some(b"hello".to_vec()));
    assert_eq!(inbound_data(KIND_DUMMY, &cell), None);
    let close = encode_close_cell(0, &mut padding_rng());
    assert_eq!(inbound_data(KIND_REAL, &close), None);
}
