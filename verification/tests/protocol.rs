use mixtor::protocol::{
    decode_frame, parse_header, Decoded, FrameKind, ProtocolError, WireFrame,
    DEFAULT_MAX_FRAME_LEN,
};

#[test]
fn round_trips_real_frame() {
    let frame = WireFrame::real_frame(b"hello".to_vec()).expect("frame should be valid");
    let wire = frame.encode();
    match decode_frame(&wire).expect("read should succeed") {
        Decoded::Frame(decoded, used) => {
            assert_eq!(decoded, frame);
            assert_eq!(used, wire.len());
        }
        _ => panic!("frame should exist"),
    }
}

#[test]
fn rejects_bad_magic() {
    let error = decode_frame(b"NOPE\x01\0\0\0\x01x").err().expect("bad magic should fail");
    assert!(matches!(error, ProtocolError::BadMagic));
    assert_eq!(error.message(), "invalid MixTor frame magic");
}

#[test]
fn frames_have_the_documented_layout() {
    let frame = WireFrame::dummy(vec![7u8; 258]).ok().unwrap();
    let wire = frame.encode();
    assert_eq!(&wire[..9], b"MXT1\x02\x00\x00\x01\x02");
    assert_eq!(&wire[9..], &[7u8; 258][..]);
    assert_eq!(frame.kind(), FrameKind::Dummy);
    assert_eq!(frame.payload().len(), 258);
    assert_eq!(frame.into_payload(), vec![7u8; 258]);
}

#[test]
fn lengths_are_bounded() {
    assert!(matches!(WireFrame::real_frame(Vec::new()), Err(ProtocolError::EmptyPayload)));
    assert!(WireFrame::new(FrameKind::Real, vec![0u8; DEFAULT_MAX_FRAME_LEN]).is_ok());
    let e = WireFrame::dummy(vec![0u8; DEFAULT_MAX_FRAME_LEN + 1]).err().unwrap();
    assert!(matches!(e, ProtocolError::FrameTooLarge { len: 65537, max: 65536 }));
    assert_eq!(e.message(), "frame payload length 65537 exceeds maximum 65536");
}

#[test]
fn headers_are_checked_in_order() {
    assert!(matches!(parse_header(b"MXT2\x09\0\0\0\0"), Err(ProtocolError::BadMagic)));
    let e = parse_header(b"MXT1\x09\0\0\0\0").err().unwrap();
    assert_eq!(e.message(), "unknown frame kind 9");
    let e = parse_header(b"MXT1\x01\0\0\0\0").err().unwrap();
    assert_eq!(e.message(), "frame payload cannot be empty");
    let e = parse_header(b"MXT1\x01\0\x01\0\x01").err().unwrap();
    assert!(matches!(e, ProtocolError::FrameTooLarge { len: 65537, .. }));
    assert!(matches!(parse_header(b"MXT1\x02\0\0\x02\x01"), Ok((FrameKind::Dummy, 513))));
}

#[test]
fn incomplete_frames_ask_for_more() {
    let wire = WireFrame::real_frame(vec![1, 2, 3]).ok().unwrap().encode();
    for n in 0..9 {
        assert!(matches!(decode_frame(&wire[..n]), Ok(Decoded::NeedHeader)));
    }
    for n in 9..12 {
        assert!(matches!(decode_frame(&wire[..n]), Ok(Decoded::NeedPayload)));
    }
    let mut two = wire.clone();
    two.extend_from_slice(&wire);
    assert!(matches!(decode_frame(&two), Ok(Decoded::Frame(_, 12))));
}

#[test]
fn protocol_errors_carry_io_errors() {
    let io = std::io::Error::new(std::io::ErrorKind::Other, "broken");
    assert_eq!(ProtocolError::from(io).message(), "protocol I/O error: broken");
}
