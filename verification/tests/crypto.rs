use chacha20poly1305::aead::Aead;
use chacha20poly1305::{ChaCha20Poly1305, Key, KeyInit, Nonce};
use mixtor::crypto::{
    derive_session, enc_frame_len, key_from_hex, key_to_hex, FrameCipher, HandshakeError,
    StaticKeypair, KIND_DUMMY, KIND_REAL, MAX_HANDSHAKE_LEN,
};
use mixtor::handshake::{
    client_finish, decode_representative, dh_is_zero, gen_representable_ephemeral,
    identity_mac_key, judge_attempt, mac_with_epoch, marked_message, pad_length, represent,
    scan_marked, server_finish, tweak_of, verify_mac_epochs, Attempt, ClientHandshake, ClientStep, MarkedReader, ReadStep, Scan,
    ServerHandshake, ServerStep,
};

const CELL: usize = 514;
const HOUR: u64 = 480_000;

type Ciphers = (FrameCipher, FrameCipher);

/// Runs both sides, handing over `step` bytes at a time.
fn handshake(kp: &StaticKeypair, server_pub: &[u8; 32], step: usize) -> Option<(Ciphers, Ciphers)> {
    let (mut client, hello) = ClientHandshake::start(server_pub, HOUR).unwrap();
    let mut server = ServerHandshake::new(kp);
    let mut reply = None;
    for chunk in hello.chunks(step) {
        match server.feed(chunk, kp, HOUR) {
            ServerStep::More => {}
            ServerStep::Reply(r) => reply = Some(r),
            ServerStep::Failed(_) | ServerStep::NoEphemeral => return None,
        }
    }
    let reply = reply?;
    let mut done = None;
    for chunk in reply.message.chunks(step) {
        match client.feed(chunk, HOUR) {
            ClientStep::More => {}
            ClientStep::Done(send, recv) => done = Some((send, recv)),
            ClientStep::Failed(_) => return None,
        }
    }
    Some((done?, (reply.send, reply.recv)))
}

#[test]
fn handshake_agrees_and_frames_round_trip_both_directions() {
    let kp = StaticKeypair::generate();
    let server_pub = kp.public_bytes();
    let ((mut c_send, mut c_recv), (mut s_send, mut s_recv)) =
        handshake(&kp, &server_pub, 1024).expect("handshake should complete");

    let cell: Vec<u8> = (0..CELL).map(|i| (i % 251) as u8).collect();
    let frame = c_send.seal(KIND_REAL, &cell);
    assert_eq!(frame.len(), enc_frame_len(CELL));
    let (kind, got) = s_recv.open(&frame).unwrap();
    assert_eq!(kind, KIND_REAL);
    assert_eq!(got, cell);

    let dummy = vec![0xABu8; CELL];
    let frame = s_send.seal(KIND_DUMMY, &dummy);
    let (kind, got) = c_recv.open(&frame).unwrap();
    assert_eq!(kind, KIND_DUMMY);
    assert_eq!(got, dummy);
}

#[test]
fn handshake_does_not_depend_on_how_bytes_arrive() {
    let kp = StaticKeypair::generate();
    let server_pub = kp.public_bytes();
    assert!(handshake(&kp, &server_pub, 1).is_some());
    assert!(handshake(&kp, &server_pub, 7).is_some());
    assert!(handshake(&kp, &server_pub, 100_000).is_some());
}

#[test]
fn wrong_server_key_is_rejected() {
    let kp = StaticKeypair::generate();
    let wrong_pub = StaticKeypair::generate().public_bytes();
    assert!(
        handshake(&kp, &wrong_pub, 1024).is_none(),
        "server must not accept a client using the wrong bridge key"
    );
}

#[test]
fn active_probe_gets_no_response() {
    let kp = StaticKeypair::generate();
    let mut server = ServerHandshake::new(&kp);
    let garbage = vec![0u8; MAX_HANDSHAKE_LEN + 64];
    let mut last = ServerStep::More;
    for chunk in garbage.chunks(1024) {
        last = server.feed(chunk, &kp, HOUR);
        match last {
            ServerStep::More => {}
            ServerStep::Failed(_) => break,
            ServerStep::Reply(_) | ServerStep::NoEphemeral => panic!("a probe must get no reply"),
        }
    }
    assert!(
        matches!(last, ServerStep::Failed(HandshakeError::ProbeRejected)),
        "server must reject a probe with ProbeRejected"
    );
}

#[test]
fn tampered_frame_fails_to_open() {
    let kp = StaticKeypair::generate();
    let server_pub = kp.public_bytes();
    let ((mut c_send, _), (_, mut s_recv)) = handshake(&kp, &server_pub, 1024).unwrap();
    let cell = vec![7u8; CELL];
    let mut frame = c_send.seal(KIND_REAL, &cell);
    frame[10] ^= 0x01;
    assert!(s_recv.open(&frame).is_err(), "tampered frame must not open");
}

#[test]
fn same_plaintext_seals_differently_each_frame() {
    let mut cipher = FrameCipher::new([42u8; 32]);
    let cell = vec![0u8; CELL];
    let a = cipher.seal(KIND_DUMMY, &cell);
    let b = cipher.seal(KIND_DUMMY, &cell);
    assert_eq!(a.len(), b.len());
    assert_ne!(a, b, "counter nonce must make repeated frames differ");
}

#[test]
fn real_and_dummy_frames_are_same_size() {
    let mut cipher = FrameCipher::new([9u8; 32]);
    let real = cipher.seal(KIND_REAL, &vec![1u8; CELL]);
    let dummy = cipher.seal(KIND_DUMMY, &vec![2u8; CELL]);
    assert_eq!(real.len(), dummy.len());
    assert_eq!(real.len(), enc_frame_len(CELL));
    assert_eq!(enc_frame_len(CELL), 531);
}

#[test]
fn keypair_round_trips_through_secret_bytes() {
    let kp = StaticKeypair::generate();
    let restored = StaticKeypair::from_secret_bytes(kp.secret_bytes());
    assert_eq!(kp.public_bytes(), restored.public_bytes());
    assert_ne!(kp.public_bytes(), kp.secret_bytes());
}

#[test]
fn ephemeral_representatives_randomize_high_bits() {
    let mut saw_set = false;
    let mut saw_clear = false;
    for _ in 0..64 {
        let (_priv, repr) = gen_representable_ephemeral().unwrap();
        if repr[31] & 0x80 != 0 {
            saw_set = true;
        } else {
            saw_clear = true;
        }
        if saw_set && saw_clear {
            break;
        }
    }
    assert!(saw_set && saw_clear, "representative high bit must vary across samples");
}

#[test]
fn representative_decodes_back_to_a_point() {
    for _ in 0..16 {
        let (_priv, repr) = gen_representable_ephemeral().unwrap();
        assert!(
            decode_representative(&repr).is_some(),
            "a generated representative must decode to a point"
        );
    }
}

#[test]
fn key_hex_round_trips() {
    let kp = StaticKeypair::generate();
    let pub_bytes = kp.public_bytes();
    let hex = key_to_hex(&pub_bytes);
    assert_eq!(hex.len(), 64);
    assert_eq!(key_from_hex(&hex), Some(pub_bytes));
    assert_eq!(key_from_hex("not-hex"), None);
    assert_eq!(key_from_hex(""), None);
}

#[test]
fn hex_keys_are_read_leniently_around_and_strictly_within() {
    let mut key = [0u8; 32];
    key[0] = 0x0f;
    key[1] = 0xa0;
    key[31] = 0xff;
    let hex = key_to_hex(&key);
    assert!(hex.starts_with("0fa000"));
    assert!(hex.ends_with("00ff"));
    assert_eq!(key_from_hex(&format!(" \t{hex}\r\n")), Some(key));
    assert_eq!(key_from_hex(&hex.to_uppercase()), Some(key));
    assert_eq!(key_from_hex(&hex[1..]), None);
    assert_eq!(key_from_hex(&format!("{hex}0")), None);
    assert_eq!(key_from_hex(&hex.replace("0f", "0g")), None);
    assert_eq!(key_from_hex(&"é".repeat(32)), None);
}

#[test]
fn public_keys_are_those_of_x25519() {
    let secret = x25519_dalek::StaticSecret::from([5u8; 32]);
    let expected = x25519_dalek::PublicKey::from(&secret).to_bytes();
    assert_eq!(StaticKeypair::from_secret_bytes([5u8; 32]).public_bytes(), expected);
}

#[test]
fn frames_open_only_in_order() {
    let mut send = FrameCipher::new([1u8; 32]);
    let mut recv = FrameCipher::new([1u8; 32]);
    let first = send.seal(KIND_REAL, b"one");
    let second = send.seal(KIND_REAL, b"two");
    assert!(recv.open(&second).is_err());
    assert_eq!(recv.open(&second).unwrap(), (KIND_REAL, b"two".to_vec()));
    let mut other = FrameCipher::new([2u8; 32]);
    assert!(matches!(other.open(&first), Err(HandshakeError::BadServerAuth)));
    assert!(matches!(other.open(&[]), Err(HandshakeError::BadServerAuth)));
}

#[test]
fn frames_are_sealed_with_counter_nonces() {
    let mut cipher = FrameCipher::new([8u8; 32]);
    let _ = cipher.seal(KIND_DUMMY, b"x");
    let frame = cipher.seal(KIND_REAL, b"hello");
    let aead = ChaCha20Poly1305::new(Key::from_slice(&[8u8; 32]));
    let mut nonce = [0u8; 12];
    nonce[4] = 1;
    let plain = aead.decrypt(Nonce::from_slice(&nonce), frame.as_slice()).unwrap();
    assert_eq!(plain, b"\x01hello");
}

#[test]
fn session_keys_follow_from_the_transcript() {
    let (a, b) = ([1u8; 32], [2u8; 32]);
    let (p, x, y) = ([3u8; 32], [4u8; 32], [5u8; 32]);
    let (c2s, s2c, auth) = derive_session(&a, &b, &p, &x, &y);
    let mut input = Vec::new();
    for part in [a, b, p, x, y] {
        input.extend_from_slice(&part);
    }
    input.extend_from_slice(b"mixtor-ntor-v1");
    let seed = blake3::derive_key("mixtor-ntor-v1:key_extract", &input);
    assert_eq!(c2s, blake3::derive_key("mixtor-ntor-v1:c2s", &seed));
    assert_eq!(s2c, blake3::derive_key("mixtor-ntor-v1:s2c", &seed));
    let mut transcript = b"mixtor-ntor-v1:server-auth".to_vec();
    transcript.extend_from_slice(&p);
    transcript.extend_from_slice(&x);
    transcript.extend_from_slice(&y);
    let expected: [u8; 32] = blake3::keyed_hash(&seed, &transcript).into();
    assert_eq!(auth, expected);
    assert_ne!(derive_session(&a, &b, &p, &y, &x).0, c2s);
}

#[test]
fn macs_hold_for_neighbouring_hours() {
    let key = identity_mac_key(&[6u8; 32]);
    let mac = mac_with_epoch(&key, b"data", HOUR, 0);
    let mut text = b"data".to_vec();
    text.extend_from_slice(b"480000");
    let expected: [u8; 32] = blake3::keyed_hash(&key, &text).into();
    assert_eq!(mac, expected[..16].to_vec());
    assert!(verify_mac_epochs(&key, b"data", &mac, HOUR));
    assert!(verify_mac_epochs(&key, b"data", &mac, HOUR - 1));
    assert!(verify_mac_epochs(&key, b"data", &mac, HOUR + 1));
    assert!(!verify_mac_epochs(&key, b"data", &mac, HOUR + 2));
    assert!(!verify_mac_epochs(&key, b"date", &mac, HOUR));
    assert!(!verify_mac_epochs(&key, b"data", &mac[..15], HOUR));
    // The hour before the first is written with a minus sign.
    let early = mac_with_epoch(&key, b"data", 0, -1);
    let expected: [u8; 32] = blake3::keyed_hash(&key, b"data-1").into();
    assert_eq!(early, expected[..16].to_vec());
}

#[test]
fn marked_messages_are_accepted_once_complete() {
    let key = identity_mac_key(&[1u8; 32]);
    let prefix = [9u8; 32];
    let pad = vec![3u8; 100];
    let msg = marked_message(&key, &prefix, &pad, HOUR);
    assert_eq!(msg.len(), 32 + 100 + 16 + 16);
    assert_eq!(&msg[..32], &prefix[..]);
    assert_eq!(scan_marked(&msg, &key, 32, HOUR), Scan::Accept);
    assert_eq!(scan_marked(&msg, &key, 32, HOUR + 1), Scan::Accept);
    assert_eq!(scan_marked(&msg, &key, 32, HOUR + 2), Scan::Reject);
    for n in 0..msg.len() {
        assert_eq!(scan_marked(&msg[..n], &key, 32, HOUR), Scan::More);
    }
    let mut bad = msg.clone();
    let last = bad.len() - 1;
    bad[last] ^= 1;
    assert_eq!(scan_marked(&bad, &key, 32, HOUR), Scan::Reject);
    let other = identity_mac_key(&[2u8; 32]);
    assert_eq!(scan_marked(&msg, &other, 32, HOUR), Scan::More);
    assert_eq!(scan_marked(&vec![0u8; 8191], &key, 32, HOUR), Scan::More);
    assert_eq!(scan_marked(&vec![0u8; 8192], &key, 32, HOUR), Scan::Reject);
}

#[test]
fn readers_report_a_closed_peer() {
    let mut reader = MarkedReader::new([0u8; 32], 32);
    assert!(matches!(reader.feed(&[1, 2, 3], HOUR), ReadStep::More));
    assert!(matches!(reader.feed(&[], HOUR), ReadStep::Failed(HandshakeError::Closed)));
    let key = identity_mac_key(&[1u8; 32]);
    let msg = marked_message(&key, &[7u8; 40], &[], HOUR);
    let mut reader = MarkedReader::new(key, 40);
    match reader.feed(&msg, HOUR) {
        ReadStep::Prefix(p) => assert_eq!(p, vec![7u8; 40]),
        _ => panic!("the message should be accepted"),
    }
}

/// A secret with a representative, found by counting.
fn ephemeral(from: u8) -> ([u8; 32], [u8; 32]) {
    for n in 0u8..=255 {
        let secret = [n.wrapping_add(from); 32];
        if let Some(repr) = represent(&secret, 0x55) {
            return (secret, repr);
        }
    }
    panic!("no representative found");
}

#[test]
fn both_sides_derive_the_same_keys() {
    let kp = StaticKeypair::from_secret_bytes([77u8; 32]);
    let (x_secret, x_repr) = ephemeral(1);
    let (y_secret, y_repr) = ephemeral(100);
    let reply = server_finish(&kp, &x_repr, &y_secret, &y_repr, &[1, 2, 3], HOUR).ok().unwrap();
    let (mut send, _) =
        client_finish(&kp.public_bytes(), &x_secret, &x_repr, &reply.message[..64]).ok().unwrap();
    let mut recv = reply.recv;
    assert_eq!(recv.open(&send.seal(KIND_REAL, b"hi")).unwrap().1, b"hi".to_vec());
    let mut tag = reply.message[..64].to_vec();
    tag[63] ^= 1;
    let r = client_finish(&kp.public_bytes(), &x_secret, &x_repr, &tag);
    assert!(matches!(r, Err(HandshakeError::BadServerAuth)));
}

#[test]
fn degenerate_keys_are_refused() {
    // The representative of zero decodes to a point of low order.
    let kp = StaticKeypair::from_secret_bytes([77u8; 32]);
    let (y_secret, y_repr) = ephemeral(3);
    let r = server_finish(&kp, &[0u8; 32], &y_secret, &y_repr, &[], HOUR);
    assert!(matches!(r, Err(HandshakeError::NonContributory)));
    let r = client_finish(&[0u8; 32], &y_secret, &y_repr, &[1u8; 64]);
    assert!(matches!(r, Err(HandshakeError::NonContributory)));
    assert!(dh_is_zero(&[0u8; 32]));
    assert!(!dh_is_zero(&[1u8; 32]));
}

#[test]
fn handshake_errors_are_described() {
    assert_eq!(HandshakeError::Closed.message(), "peer closed during handshake");
    assert_eq!(
        HandshakeError::NonContributory.message(),
        "handshake produced a non-contributory shared secret"
    );
    assert_eq!(
        HandshakeError::BadServerAuth.message(),
        "server authentication failed (wrong key or MITM)"
    );
    assert_eq!(
        HandshakeError::ProbeRejected.message(),
        "handshake MARK/MAC did not validate (likely active probe)"
    );
    let io = std::io::Error::new(std::io::ErrorKind::Other, "gone");
    assert_eq!(HandshakeError::from(io).message(), "handshake I/O error: gone");
}

#[test]
fn padding_lengths_are_remainders() {
    assert_eq!(pad_length(0, 2048), 0);
    assert_eq!(pad_length(2048, 2048), 2048);
    assert_eq!(pad_length(2049, 2048), 0);
    assert_eq!(pad_length(5000, 2048), 902);
    assert_eq!(pad_length(u32::MAX, 0), 0);
}

#[test]
fn ciphers_stay_in_step_past_a_bad_frame() {
    let mut tx = FrameCipher::new([4u8; 32]);
    let mut rx = FrameCipher::new([4u8; 32]);
    for i in 0..6u8 {
        let cell = vec![i; 40 + i as usize];
        let mut frame = tx.seal(KIND_REAL, &cell);
        if i == 2 {
            frame[5] ^= 1;
            assert!(matches!(rx.open(&frame), Err(HandshakeError::BadServerAuth)));
        } else {
            assert_eq!(rx.open(&frame).unwrap(), (KIND_REAL, cell));
        }
    }
    let frame = tx.seal(KIND_DUMMY, b"once");
    assert!(rx.open(&frame).is_ok());
    assert!(rx.open(&frame).is_err(), "a frame opens once");
}

#[test]
fn frames_are_as_long_as_announced() {
    let mut cipher = FrameCipher::new([8u8; 32]);
    for len in [0usize, 1, 514, 2000] {
        let cell = vec![3u8; len];
        assert_eq!(cipher.seal(KIND_REAL, &cell).len(), enc_frame_len(len));
        assert_eq!(cipher.seal(KIND_DUMMY, &cell).len(), len + 17);
    }
    assert_eq!(enc_frame_len(514), 531);
}

#[test]
fn attempts_end_with_the_last() {
    let tweak = tweak_of(0x1234_56a7);
    assert_eq!(tweak, 0xa7);
    let mut taken = false;
    let mut passed = false;
    for first in 0u8..64 {
        let secret = [first; 32];
        match represent(&secret, tweak) {
            Some(repr) => {
                taken = true;
                assert_eq!(judge_attempt(63, &secret, tweak), Attempt::Take(repr));
            }
            None => {
                passed = true;
                assert_eq!(judge_attempt(0, &secret, tweak), Attempt::Retry);
                assert_eq!(judge_attempt(62, &secret, tweak), Attempt::Retry);
                assert_eq!(judge_attempt(63, &secret, tweak), Attempt::GiveUp);
            }
        }
    }
    assert!(taken && passed);
}
