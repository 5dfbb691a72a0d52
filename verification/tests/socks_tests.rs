use v2socks::addr::Addr;
use v2socks::socks::{
    greeting_reply, parse_greeting, parse_request, reply_request, Parsed, Socks5Server, SocksError,
};

#[test]
fn server_keeps_its_port() {
    assert_eq!(Socks5Server::new(1080).port(), 1080);
}

#[test]
fn greeting_needs_header_then_methods() {
    assert_eq!(parse_greeting(&[]), Parsed::Incomplete(2));
    assert_eq!(parse_greeting(&[5]), Parsed::Incomplete(2));
    assert_eq!(parse_greeting(&[5, 2]), Parsed::Incomplete(4));
    assert_eq!(parse_greeting(&[5, 2, 1]), Parsed::Incomplete(4));
}

#[test]
fn greeting_with_no_auth_is_accepted() {
    assert_eq!(parse_greeting(&[5, 2, 2, 0]), Parsed::Done(true, 4));
    assert_eq!(parse_greeting(&[5, 1, 0, 99, 99]), Parsed::Done(true, 3));
}

#[test]
fn greeting_without_no_auth_is_rejected() {
    assert_eq!(parse_greeting(&[5, 2, 1, 2]), Parsed::Done(false, 4));
    assert_eq!(parse_greeting(&[5, 0]), Parsed::Done(false, 2));
}

#[test]
fn greeting_of_http_client_is_refused() {
    // "GET ..." starts with 71, the byte a browser sends when it takes the
    // proxy for an HTTP one.
    assert_eq!(parse_greeting(b"GET / HTTP/1.1"), Parsed::Invalid(SocksError::UnsupportedVersion(71)));
    assert_eq!(parse_greeting(&[4, 1]), Parsed::Invalid(SocksError::UnsupportedVersion(4)));
}

#[test]
fn greeting_replies() {
    assert_eq!(greeting_reply(true), [5, 0]);
    assert_eq!(greeting_reply(false), [5, 0xff]);
}

#[test]
fn request_v4() {
    let buf = [5, 1, 0, 1, 127, 0, 0, 1, 0x1f, 0x90, 42];
    assert_eq!(parse_request(&buf[..4]), Parsed::Incomplete(10));
    match parse_request(&buf) {
        Parsed::Done((Addr::V4(a), port), n) => {
            assert_eq!(a, [127, 0, 0, 1]);
            assert_eq!(port, 8080);
            assert_eq!(n, 10);
        }
        other => panic!("unexpected {:?}", other),
    }
}

#[test]
fn request_v6() {
    let mut buf = vec![5, 1, 0, 4];
    buf.extend_from_slice(&[0, 0, 0, 0, 0, 0, 0, 0, 0, 0, 0, 0, 0, 0, 0, 1]);
    buf.extend_from_slice(&[0, 80]);
    assert_eq!(parse_request(&buf[..21]), Parsed::Incomplete(22));
    match parse_request(&buf) {
        Parsed::Done((Addr::V6(a), port), n) => {
            assert_eq!(a[15], 1);
            assert_eq!(a[..15], [0u8; 15]);
            assert_eq!(port, 80);
            assert_eq!(n, 22);
        }
        other => panic!("unexpected {:?}", other),
    }
}

#[test]
fn request_domain() {
    let mut buf = vec![5, 1, 0, 3, 11];
    buf.extend_from_slice(b"example.com");
    buf.extend_from_slice(&[1, 187]);
    assert_eq!(parse_request(&buf[..4]), Parsed::Incomplete(5));
    assert_eq!(parse_request(&buf[..5]), Parsed::Incomplete(18));
    match parse_request(&buf) {
        Parsed::Done((Addr::Domain(d), port), n) => {
            assert_eq!(d, b"example.com".to_vec());
            assert_eq!(port, 443);
            assert_eq!(n, 18);
        }
        other => panic!("unexpected {:?}", other),
    }
}

#[test]
fn request_errors() {
    assert_eq!(parse_request(&[4, 1, 0, 1]), Parsed::Invalid(SocksError::UnsupportedVersion(4)));
    assert_eq!(parse_request(&[5, 2, 0, 1]), Parsed::Invalid(SocksError::UnsupportedCommand(2)));
    assert_eq!(parse_request(&[5, 1, 0, 7]), Parsed::Invalid(SocksError::UnknownAddressType(7)));
}

#[test]
fn reply_for_each_address_kind() {
    assert_eq!(
        reply_request(&Addr::V4([10, 0, 0, 2]), 0x1234),
        vec![5, 0, 0, 1, 10, 0, 0, 2, 0x12, 0x34]
    );
    let mut v6 = [0u8; 16];
    v6[0] = 0xfe;
    v6[1] = 0x80;
    let mut expected = vec![5, 0, 0, 4];
    expected.extend_from_slice(&v6);
    expected.extend_from_slice(&[0, 22]);
    assert_eq!(reply_request(&Addr::V6(v6), 22), expected);
    assert_eq!(
        reply_request(&Addr::Domain(b"ab".to_vec()), 1),
        vec![5, 0, 0, 3, 2, b'a', b'b', 0, 1]
    );
}

#[test]
fn reply_domain_length_wraps() {
    let d = vec![b'x'; 256];
    let r = reply_request(&Addr::Domain(d), 0);
    assert_eq!(r[4], 0);
    assert_eq!(r.len(), 3 + 2 + 256 + 2);
}

#[test]
fn request_carrying_reply_block_roundtrips() {
    // The address block of a reply, behind a CONNECT request head, parses
    // back to the same address and port, whatever follows.
    for (addr, port) in [
        (Addr::V4([1, 2, 3, 4]), 65535u16),
        (Addr::Domain(b"host.example".to_vec()), 0u16),
    ] {
        let reply = reply_request(&addr, port);
        let mut req = vec![5, 1, 0];
        req.extend_from_slice(&reply[3..]);
        let len = req.len();
        req.extend_from_slice(b"trailing");
        match parse_request(&req) {
            Parsed::Done((a, p), n) => {
                assert_eq!(format!("{:?}", a), format!("{:?}", addr));
                assert_eq!(p, port);
                assert_eq!(n, len);
            }
            other => panic!("unexpected {:?}", other),
        }
    }
}

#[test]
fn more_bytes_do_not_change_a_decision() {
    let full = [5, 1, 0, 1, 8, 8, 8, 8, 0, 53];
    let mut longer = full.to_vec();
    longer.extend_from_slice(&[9, 9, 9]);
    assert_eq!(parse_request(&full), parse_request(&longer));
    assert_eq!(parse_greeting(&[5, 1, 0]), parse_greeting(&[5, 1, 0, 5, 1]));
    assert_eq!(parse_greeting(&[6, 1]), parse_greeting(&[6, 1, 0]));
}
