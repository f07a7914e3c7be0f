use mixtor::crypto::{key_from_hex, key_to_hex, StaticKeypair};
use mixtor::identity::{
    cert_text, key_file_read, start, state_read, state_reread, state_written, IdentityStep,
    WriteOutcome,
};
use mixtor::managed::{
    bind_candidates, client_method_line, server_identity, server_method_line, transport_requested,
};

fn hex(byte: u8) -> String {
    key_to_hex(&[byte; 32])
}

fn secret_of(step: IdentityStep) -> [u8; 32] {
    match step {
        IdentityStep::Done(kp) => kp.secret_bytes(),
        _ => panic!("an identity should have been found"),
    }
}

fn complaint_of(step: IdentityStep) -> &'static str {
    match step {
        IdentityStep::Fail(text) => text,
        _ => panic!("there should have been a complaint"),
    }
}

#[test]
fn sources_have_an_order() {
    let key = hex(1);
    assert!(matches!(start(true, Some(&key), true), IdentityStep::ReadKeyFile));
    assert_eq!(secret_of(start(false, Some(&key), true)), [1u8; 32]);
    assert!(matches!(start(false, None, true), IdentityStep::ReadState));
    let chance = secret_of(start(false, None, false));
    assert_ne!(chance, secret_of(start(false, None, false)));
}

#[test]
fn malformed_keys_are_complained_about() {
    assert_eq!(
        complaint_of(start(false, Some("xyz"), false)),
        "--static-key must be 64 hex chars (32 bytes)"
    );
    assert_eq!(
        complaint_of(key_file_read("")),
        "--static-key-file must contain 64 hex chars (32 bytes)"
    );
    assert_eq!(
        complaint_of(state_read(Some("00"))),
        "corrupt mixtor_identity (expected 64 hex chars) in PT state dir"
    );
    assert_eq!(complaint_of(state_reread("00")), "corrupt mixtor_identity in PT state dir");
}

#[test]
fn files_may_end_in_a_line_feed() {
    assert_eq!(secret_of(key_file_read(&format!("{}\n", hex(2)))), [2u8; 32]);
    assert_eq!(secret_of(state_read(Some(&hex(3)))), [3u8; 32]);
}

#[test]
fn identities_survive_restarts() {
    match state_read(None) {
        IdentityStep::WriteState(kp, written) => {
            assert_eq!(key_from_hex(&written), Some(kp.secret_bytes()));
            assert_eq!(secret_of(state_read(Some(&written))), kp.secret_bytes());
        }
        _ => panic!("a new identity should be written"),
    }
}

#[test]
fn the_faster_instance_wins() {
    let kp = || StaticKeypair::from_secret_bytes([5u8; 32]);
    assert!(matches!(state_written(kp(), WriteOutcome::Existed), IdentityStep::RereadState));
    assert_eq!(secret_of(state_written(kp(), WriteOutcome::Written)), [5u8; 32]);
    assert_eq!(secret_of(state_written(kp(), WriteOutcome::Failed)), [5u8; 32]);
    assert_eq!(secret_of(state_reread(&hex(6))), [6u8; 32]);
    assert_eq!(cert_text(&kp()), key_to_hex(&kp().public_bytes()));
}

#[test]
fn transports_are_requested_by_name_or_star() {
    assert!(transport_requested("*"));
    assert!(transport_requested("mixtor"));
    assert!(transport_requested("obfs4,mixtor"));
    assert!(!transport_requested("obfs4"));
    assert!(!transport_requested(""));
    assert!(!transport_requested("*,obfs4"));
    assert!(!transport_requested(" mixtor"));
}

#[test]
fn bind_addresses_are_picked_from_the_list() {
    assert_eq!(
        bind_candidates("obfs4-1.2.3.4:5,mixtor-127.0.0.1:9,mixtor,mixtor-[::1]:8-x"),
        vec!["127.0.0.1:9".to_string(), "[::1]:8-x".to_string()]
    );
    assert!(bind_candidates("").is_empty());
}

#[test]
fn announcements_have_their_form() {
    assert_eq!(
        server_method_line("1.2.3.4:5", "abcd"),
        "SMETHOD mixtor 1.2.3.4:5 ARGS:cert=abcd"
    );
    assert_eq!(client_method_line("127.0.0.1:7"), "CMETHOD mixtor socks5 127.0.0.1:7");
}

#[test]
fn named_identities_go_before_configured_ones() {
    assert_eq!(server_identity(Some([1; 32]), Some([2; 32])), Some([1; 32]));
    assert_eq!(server_identity(None, Some([2; 32])), Some([2; 32]));
    assert_eq!(server_identity(None, None), None);
}
