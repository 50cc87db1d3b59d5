use egrex::socks5::{
    build_socks5_connect_request, check_method_reply, connect_reply_need, greeting_bytes, hex,
    HandshakeAction, HandshakeEvent, Socks5Error, TargetAddr, UpstreamHandshake,
};

#[test]
fn greeting_offers_no_authentication() {
    assert_eq!(greeting_bytes(), vec![5, 1, 0]);
}

#[test]
fn connect_request_for_ipv4() {
    let r = build_socks5_connect_request(&TargetAddr::Ipv4([127, 0, 0, 1]), 8080).unwrap();
    assert_eq!(r, vec![5, 1, 0, 1, 127, 0, 0, 1, 0x1f, 0x90]);
}

#[test]
fn connect_request_for_ipv6() {
    let mut octets = [0u8; 16];
    octets[15] = 1;
    let r = build_socks5_connect_request(&TargetAddr::Ipv6(octets), 443).unwrap();
    let mut expected = vec![5, 1, 0, 4];
    expected.extend_from_slice(&octets);
    expected.extend_from_slice(&[1, 187]);
    assert_eq!(r, expected);
}

#[test]
fn connect_request_for_domain() {
    let r = build_socks5_connect_request(&TargetAddr::Domain("example.com".to_string()), 80)
        .unwrap();
    let mut expected = vec![5, 1, 0, 3, 11];
    expected.extend_from_slice(b"example.com");
    expected.extend_from_slice(&[0, 80]);
    assert_eq!(r, expected);
}

#[test]
fn connect_request_counts_utf8_bytes() {
    let r = build_socks5_connect_request(&TargetAddr::Domain("bücher.de".to_string()), 1)
        .unwrap();
    assert_eq!(r[4], "bücher.de".len() as u8);
    assert_eq!(r.len(), 5 + "bücher.de".len() + 2);
}

#[test]
fn connect_request_refuses_long_domain() {
    let ok = "a".repeat(255);
    assert!(build_socks5_connect_request(&TargetAddr::Domain(ok), 1).is_ok());
    let long = "a".repeat(256);
    assert_eq!(
        build_socks5_connect_request(&TargetAddr::Domain(long), 1),
        Err(Socks5Error::DomainTooLong)
    );
}

#[test]
fn method_reply_must_accept_no_auth() {
    assert_eq!(check_method_reply(&[5, 0]), Ok(()));
    assert_eq!(check_method_reply(&[5, 0xff]), Err(Socks5Error::NoAuthRejected(5, 0xff)));
    assert_eq!(check_method_reply(&[4, 0]), Err(Socks5Error::NoAuthRejected(4, 0)));
}

#[test]
fn connect_reply_is_read_in_pieces() {
    assert_eq!(connect_reply_need(&[]), Ok(4));
    assert_eq!(connect_reply_need(&[5, 0, 0, 1]), Ok(6));
    assert_eq!(connect_reply_need(&[5, 0, 0, 1, 1, 2, 3, 4, 0, 80]), Ok(0));
    assert_eq!(connect_reply_need(&[5, 0, 0, 4]), Ok(18));
    assert_eq!(connect_reply_need(&[5, 0, 0, 3]), Ok(1));
    assert_eq!(connect_reply_need(&[5, 0, 0, 3, 3]), Ok(5));
    assert_eq!(connect_reply_need(&[5, 0, 0, 3, 3, b'a', b'b', b'c', 0, 1]), Ok(0));
}

#[test]
fn connect_reply_errors() {
    assert_eq!(connect_reply_need(&[4, 0, 0, 1]), Err(Socks5Error::BadReplyVersion(4)));
    assert_eq!(connect_reply_need(&[5, 5, 0, 1]), Err(Socks5Error::ConnectFailed(5)));
    assert_eq!(connect_reply_need(&[5, 0, 0, 2]), Err(Socks5Error::BadAddressType(2)));
}

#[test]
fn hex_of_bytes() {
    assert_eq!(hex(&[5, 1, 0]), "05 01 00");
    assert_eq!(hex(&[0xab, 0x0f, 0xff]), "ab 0f ff");
    assert_eq!(hex(&[]), "");
}

fn expect_write(a: HandshakeAction) -> Vec<u8> {
    match a {
        HandshakeAction::Write(b) => b,
        _ => panic!("expected a write"),
    }
}

fn expect_read(a: HandshakeAction) -> usize {
    match a {
        HandshakeAction::Read(n) => n,
        _ => panic!("expected a read"),
    }
}

#[test]
fn handshake_opens_a_tunnel() {
    let mut h = UpstreamHandshake::new(TargetAddr::Domain("ab.c".to_string()), 443);
    assert_eq!(expect_write(h.step(HandshakeEvent::Begin)), vec![5, 1, 0]);
    assert_eq!(expect_read(h.step(HandshakeEvent::Written)), 2);
    let req = expect_write(h.step(HandshakeEvent::Received(vec![5, 0])));
    assert_eq!(req, vec![5, 1, 0, 3, 4, b'a', b'b', b'.', b'c', 1, 187]);
    assert_eq!(expect_read(h.step(HandshakeEvent::Written)), 4);
    assert_eq!(expect_read(h.step(HandshakeEvent::Received(vec![5, 0, 0, 3]))), 1);
    assert_eq!(expect_read(h.step(HandshakeEvent::Received(vec![2]))), 4);
    assert!(matches!(
        h.step(HandshakeEvent::Received(vec![b'x', b'y', 0, 1])),
        HandshakeAction::Established
    ));
}

#[test]
fn handshake_fails_on_rejected_method() {
    let mut h = UpstreamHandshake::new(TargetAddr::Ipv4([1, 2, 3, 4]), 80);
    h.step(HandshakeEvent::Begin);
    h.step(HandshakeEvent::Written);
    assert!(matches!(
        h.step(HandshakeEvent::Received(vec![5, 2])),
        HandshakeAction::Fail(Socks5Error::NoAuthRejected(5, 2))
    ));
    assert!(matches!(
        h.step(HandshakeEvent::Written),
        HandshakeAction::Fail(Socks5Error::OutOfOrder)
    ));
}

#[test]
fn handshake_fails_on_connect_error() {
    let mut h = UpstreamHandshake::new(TargetAddr::Ipv4([1, 2, 3, 4]), 80);
    h.step(HandshakeEvent::Begin);
    h.step(HandshakeEvent::Written);
    h.step(HandshakeEvent::Received(vec![5, 0]));
    h.step(HandshakeEvent::Written);
    assert!(matches!(
        h.step(HandshakeEvent::Received(vec![5, 1, 0, 1])),
        HandshakeAction::Fail(Socks5Error::ConnectFailed(1))
    ));
}

#[test]
fn handshake_refuses_events_out_of_order() {
    let mut h = UpstreamHandshake::new(TargetAddr::Ipv4([1, 2, 3, 4]), 80);
    assert!(matches!(
        h.step(HandshakeEvent::Written),
        HandshakeAction::Fail(Socks5Error::OutOfOrder)
    ));
}
