use mixtor::cells::{
    decode_real_cell, encode_close_cell, padding_rng, split_into_cells, CELL_BYTES, CELL_PAYLOAD,
};
use mixtor::clock::{Duration, Instant};
use mixtor::composition::ShapedSession;
use mixtor::crypto::{enc_frame_len, FrameCipher, StaticKeypair};
use mixtor::flow::{shaped_composition_config, Flow, FlowNeed, Pulled, Wrote};
use mixtor::handshake::{ClientHandshake, ClientStep, ServerHandshake, ServerStep};
use mixtor::mux::{DemuxAction, DemuxTable, MuxTable};
use mixtor::seeds::SessionSeeds;
use mixtor::session_bounder::FuzzedClassThresholds;
use mixtor::timing_correlator::ClockChecks;
use mixtor::transport::TailPolicy;
use std::collections::{HashMap, VecDeque};

const HOUR: u64 = 480_000;

fn start() -> Instant {
    Instant::from_nanos(1_000_000_000)
}

fn at(ms: u64) -> Instant {
    start().after(Duration::from_millis(ms))
}

/// The client's sending cipher and the server's receiving one.
fn uplink_ciphers() -> (FrameCipher, FrameCipher) {
    let kp = StaticKeypair::generate();
    let (mut client, hello) = ClientHandshake::start(&kp.public_bytes(), HOUR).unwrap();
    let mut server = ServerHandshake::new(&kp);
    let reply = match server.feed(&hello, &kp, HOUR + 1) {
        ServerStep::Reply(reply) => reply,
        _ => panic!("the server must answer"),
    };
    match client.feed(&reply.message, HOUR) {
        ClientStep::Done(send, _) => (send, reply.recv),
        _ => panic!("the client must accept"),
    }
}

fn flow(cipher: FrameCipher) -> Flow {
    let checks = ClockChecks {
        initial_iat_positive: true,
        ema_alpha_in_range: true,
        min_iat_positive: true,
        min_iat_below_max: true,
        min_dummy_fraction_in_range: true,
    };
    let seeds = SessionSeeds::generate(start()).ok().unwrap();
    let session = ShapedSession::new(
        seeds.burst_composition(),
        shaped_composition_config(),
        checks,
        true,
        100,
        start(),
    )
    .ok()
    .unwrap();
    let thresholds = FuzzedClassThresholds::from_draws(65_536, 1_048_576, 16_777_216);
    let mut f = Flow::new(session, cipher, TailPolicy::Off, thresholds, start(), start());
    f.start_clock(Duration::from_millis(1), start());
    f
}

#[test]
fn two_streams_share_a_wire_and_stay_apart() {
    let (send, mut recv) = uplink_ciphers();
    let mut wire = flow(send);
    let mut rng = padding_rng();
    let mut numbers = MuxTable::new();
    let first = numbers.add_stream().unwrap();
    let second = numbers.add_stream().unwrap();
    assert_eq!((first, second), (1, 2));
    let one: Vec<u8> = (0..3_000).map(|i| (i % 251) as u8).collect();
    let two: Vec<u8> = (0..2_000).map(|i| (i % 13) as u8).collect();
    let mut ones = split_into_cells(first, &one, &mut rng).into_iter();
    let mut twos = split_into_cells(second, &two, &mut rng).into_iter();
    let mut cells: VecDeque<Vec<u8>> = VecDeque::new();
    loop {
        let (a, b) = (ones.next(), twos.next());
        if a.is_none() && b.is_none() {
            break;
        }
        cells.extend(a);
        cells.extend(b);
    }
    cells.push_back(encode_close_cell(first, &mut rng));

    let mut table = DemuxTable::new();
    let mut received: HashMap<u16, Vec<u8>> = HashMap::new();
    let mut opened = Vec::new();
    let mut closed = Vec::new();
    let mut frames = 0usize;
    let mut ms = 0u64;
    while !wire.is_over(at(ms)) {
        ms += 1;
        assert!(ms < 10_000, "the flow must end");
        let mut pulled = false;
        loop {
            match wire.need(true, pulled, at(ms)) {
                FlowNeed::Nothing => break,
                FlowNeed::Pull => {
                    let cell = match cells.pop_front() {
                        Some(cell) => Pulled::Cell(cell),
                        None => Pulled::Disconnected,
                    };
                    wire.pull(cell, at(ms));
                    pulled = true;
                }
                FlowNeed::Slot => {
                    let cover = ms % 4 == 0;
                    assert!(wire.emit(Duration::from_millis(1), cover, at(ms)).is_some());
                    pulled = false;
                }
            }
        }
        let sent = wire.pending().to_vec();
        if sent.is_empty() {
            continue;
        }
        assert_eq!(sent.len() % enc_frame_len(CELL_BYTES), 0);
        for frame in sent.chunks(enc_frame_len(CELL_BYTES)) {
            frames += 1;
            let (kind, cell) = recv.open(frame).ok().unwrap();
            match table.on_frame(kind, &cell, opened.len()) {
                DemuxAction::Ignore => {}
                DemuxAction::Open(id, data) => {
                    opened.push(id);
                    received.entry(id).or_default().extend(data);
                }
                DemuxAction::Forward(id, data) => received.get_mut(&id).unwrap().extend(data),
                DemuxAction::Close(id) => closed.push(id),
                DemuxAction::Abort => panic!("two streams are not too many"),
            }
        }
        assert!(wire.wrote(Wrote::Bytes(sent.len())));
    }
    assert_eq!(opened, vec![first, second]);
    assert_eq!(closed, vec![first]);
    assert_eq!(table.len(), 1);
    assert_eq!(received[&first], one);
    assert_eq!(received[&second], two);
    assert!(frames > 11, "cover must have left too");
}

#[test]
fn cells_are_filled_from_the_front() {
    let mut rng = padding_rng();
    let data = vec![9u8; CELL_PAYLOAD + 1];
    let cells = split_into_cells(4, &data, &mut rng);
    let lengths: Vec<usize> = cells.iter().map(|c| decode_real_cell(c).1.len()).collect();
    assert_eq!(lengths, vec![CELL_PAYLOAD, 1]);
}
