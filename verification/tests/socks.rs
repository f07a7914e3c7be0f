use mixtor::crypto::key_to_hex;
use mixtor::socks::{
    extract_cert, ClientArgs, SocksAction, SocksDialogue, SocksError, Target, TargetIp, DOMAIN,
    USERPASS_AUTH, USERPASS_VERSION,
};

/// Feeds the whole input, and returns what was sent and how it ended.
fn run(input: &[u8]) -> (Vec<u8>, Option<Result<(Target, ClientArgs), SocksError>>) {
    let mut dialogue = SocksDialogue::new();
    let mut sent = Vec::new();
    let mut at = 0usize;
    loop {
        let n = dialogue.wants();
        if at + n > input.len() {
            return (sent, None);
        }
        let action = dialogue.feed(&input[at..at + n]);
        at += n;
        match action {
            SocksAction::Read => {}
            SocksAction::Reply(bytes) => sent.extend(bytes),
            SocksAction::Done(bytes, target, args) => {
                sent.extend(bytes);
                return (sent, Some(Ok((target, args))));
            }
            SocksAction::Fail(bytes, error) => {
                sent.extend(bytes);
                return (sent, Some(Err(error)));
            }
        }
    }
}

const CONNECT_V4: [u8; 10] = [0x05, 0x01, 0x00, 0x01, 127, 0, 0, 1, 0x23, 0x29];

fn v4() -> Target {
    Target { ip: TargetIp::V4([127, 0, 0, 1]), port: 9001 }
}

#[test]
fn accepts_ipv4_connect() {
    let mut input = vec![0x05, 0x01, 0x00];
    input.extend_from_slice(&CONNECT_V4);
    let (sent, end) = run(&input);
    assert_eq!(&sent[..2], &[0x05, 0x00]);
    assert_eq!(&sent[2..], &[5, 0, 0, 1, 0, 0, 0, 0, 0, 0]);
    let (target, args) = end.unwrap().ok().expect("SOCKS handshake should succeed");
    assert_eq!(target, v4());
    assert!(args.cert.is_none(), "no-auth path carries no cert");
}

fn userpass(user: &[u8], pass: &[u8]) -> Vec<u8> {
    let mut input = vec![0x05, 0x02, 0x00, 0x02, USERPASS_VERSION, user.len() as u8];
    input.extend_from_slice(user);
    input.push(pass.len() as u8);
    input.extend_from_slice(pass);
    input.extend_from_slice(&CONNECT_V4);
    input
}

#[test]
fn reads_cert_from_userpass_args() {
    let cert = [0x5au8; 32];
    let cert_hex = key_to_hex(&cert);
    let params = format!("cert={cert_hex};iat-mode=0");
    let (sent, end) = run(&userpass(params.as_bytes(), b""));
    assert_eq!(&sent[..2], &[0x05, USERPASS_AUTH], "server must pick username/password");
    assert_eq!(&sent[2..4], &[USERPASS_VERSION, 0x00], "auth must succeed");
    let (target, args) = end.unwrap().ok().unwrap();
    assert_eq!(target, v4());
    assert_eq!(args.cert, Some(cert), "cert must be parsed from the SOCKS args");
}

#[test]
fn rejects_domain_target() {
    let host = b"example.com";
    let mut input = vec![0x05, 0x01, 0x00, 0x05, 0x01, 0x00, DOMAIN, host.len() as u8];
    input.extend_from_slice(host);
    input.extend_from_slice(&443u16.to_be_bytes());
    let (sent, end) = run(&input);
    assert_eq!(sent, vec![5, 0]);
    let error = end.unwrap().err().unwrap();
    assert!(
        matches!(error, SocksError::DomainTargetRejected),
        "domain targets must be rejected, not resolved"
    );
    assert_eq!(
        error.message(),
        "SOCKS domain target rejected (bridge must be addressed by IP to avoid a DNS leak)"
    );
}

#[test]
fn cert_may_span_username_and_password() {
    let params = format!("cert={}", key_to_hex(&[0x21u8; 32]));
    let (head, tail) = params.as_bytes().split_at(30);
    let (_, end) = run(&userpass(head, tail));
    assert_eq!(end.unwrap().ok().unwrap().1.cert, Some([0x21u8; 32]));
}

#[test]
fn ipv6_targets_are_accepted() {
    let mut input = vec![5, 1, 0, 5, 1, 0, 4];
    let octets: Vec<u8> = (1u8..=16).collect();
    input.extend_from_slice(&octets);
    input.extend_from_slice(&[0, 80]);
    let (_, end) = run(&input);
    let target = end.unwrap().ok().unwrap().0;
    assert_eq!(target.port, 80);
    match target.ip {
        TargetIp::V6(o) => assert_eq!(o.to_vec(), octets),
        TargetIp::V4(_) => panic!("wrong family"),
    }
}

fn error_of(input: &[u8]) -> (Vec<u8>, SocksError) {
    let (sent, end) = run(input);
    (sent, end.unwrap().err().unwrap())
}

#[test]
fn each_socks_error_has_its_input() {
    let (sent, e) = error_of(&[4, 1]);
    assert!(sent.is_empty());
    assert_eq!(e.message(), "unsupported SOCKS version 4");
    let (sent, e) = error_of(&[5, 0]);
    assert!(sent.is_empty());
    assert_eq!(e.message(), "SOCKS client offered no supported auth method");
    let (sent, e) = error_of(&[5, 2, 1, 3]);
    assert_eq!(sent, vec![5, 0xff]);
    assert!(matches!(e, SocksError::NoSupportedAuthMethod));
    let (sent, e) = error_of(&[5, 1, 2, 9]);
    assert_eq!(sent, vec![5, 2]);
    assert!(matches!(e, SocksError::UnsupportedVersion(9)));
    let (_, e) = error_of(&[5, 1, 0, 4, 1, 0, 1]);
    assert!(matches!(e, SocksError::UnsupportedVersion(4)));
    let (_, e) = error_of(&[5, 1, 0, 5, 2, 0, 1]);
    assert_eq!(e.message(), "unsupported SOCKS command 2");
    let (_, e) = error_of(&[5, 1, 0, 5, 1, 0, 7]);
    assert_eq!(e.message(), "unsupported SOCKS address kind 7");
    let io = std::io::Error::new(std::io::ErrorKind::Other, "cut");
    assert_eq!(SocksError::from(io).message(), "SOCKS I/O error: cut");
}

#[test]
fn certs_are_found_among_other_arguments() {
    let hex = key_to_hex(&[0xabu8; 32]);
    let found = Some([0xabu8; 32]);
    assert_eq!(extract_cert(format!("a=1;cert={hex}").as_bytes()), found);
    assert_eq!(extract_cert(format!("cert={}\0x", hex.to_uppercase()).as_bytes()), found);
    assert_eq!(extract_cert(format!("cert={hex}ff").as_bytes()), found);
    assert_eq!(extract_cert(format!("cert={}", &hex[..63]).as_bytes()), None);
    assert_eq!(extract_cert(format!("cert={};{hex}", &hex[..10]).as_bytes()), None);
    assert_eq!(extract_cert(hex.as_bytes()), None);
    let mut raw = vec![0xff, 0xfe];
    raw.extend_from_slice(format!("cert={hex}").as_bytes());
    assert_eq!(extract_cert(&raw), found);
    assert!(ClientArgs::default().cert.is_none());
}
