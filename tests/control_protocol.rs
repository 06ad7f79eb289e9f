use rsadv::control::{
    frame, frame_payload_len, take_over_socket, ControlSocketError, DnsServer, Error, Lifetime,
    Prefix, Request, Response, SocketProbe, TakeOver,
};
use rsadv::state::{serve_request, State};

fn prefix(addr: u128, len: u8, secs: u64) -> Prefix {
    Prefix {
        prefix: addr,
        prefix_length: len,
        preferred_lifetime: Lifetime::Duration(secs),
        valid_lifetime: Lifetime::Duration(secs),
    }
}

#[test]
fn encode_decode() {
    let req = Request::AddPrefix(Prefix {
        prefix: 0,
        prefix_length: 0,
        preferred_lifetime: Lifetime::Duration(3600),
        valid_lifetime: Lifetime::Duration(3600),
    });

    let mut buf = Vec::new();
    req.encode(&mut buf);

    let output = Request::decode(&buf[..]).unwrap();
    assert_eq!(req, output);
}

#[test]
fn request_round_trips_every_kind() {
    let p = Prefix {
        prefix: 0x2001_0db8_0000_0000_0000_0000_0000_0000,
        prefix_length: 48,
        preferred_lifetime: Lifetime::Until(1_700_000_000),
        valid_lifetime: Lifetime::Duration(7200),
    };
    let d = DnsServer { addr: 0x2001_4860_4860_0000_0000_0000_0000_8888, lifetime: Lifetime::Until(4_000_000_000) };
    for req in [
        Request::AddPrefix(p),
        Request::RemovePrefix(p),
        Request::AddDnsServer(d),
        Request::RemoveDnsServer(d),
    ] {
        let mut buf = Vec::new();
        req.encode(&mut buf);
        assert_eq!(Request::decode(&buf).unwrap(), req);
    }
}

#[test]
fn remove_prefix_lifetimes_are_little_endian() {
    let mut buf = Vec::new();
    Request::RemovePrefix(prefix(0, 64, 3600)).encode(&mut buf);
    assert_eq!(&buf[..4], &[2, 0, 0, 0]);
    assert_eq!(&buf[21..31], &[1, 0x10, 0x0e, 0, 0, 1, 0x10, 0x0e, 0, 0]);
}

#[test]
fn dns_request_layout() {
    let mut buf = Vec::new();
    Request::AddDnsServer(DnsServer { addr: 1, lifetime: Lifetime::Until(0x0102_0304) }).encode(&mut buf);
    let mut expected = vec![3, 0, 0, 0];
    expected.extend([0u8; 15]);
    expected.push(1);
    expected.extend([2, 4, 3, 2, 1]);
    assert_eq!(buf, expected);
}

#[test]
fn request_decode_errors() {
    assert_eq!(Request::decode(&[1, 0, 0]), Err(Error::Eof));
    assert_eq!(Request::decode(&[9, 0, 0, 0]), Err(Error::Eof));
    let mut buf = Vec::new();
    Request::AddPrefix(prefix(0, 64, 3600)).encode(&mut buf);
    assert_eq!(Request::decode(&buf[..30]), Err(Error::Eof));
    let mut bad_tag = buf.clone();
    bad_tag[21] = 3;
    assert_eq!(Request::decode(&bad_tag), Err(Error::Eof));
}

#[test]
fn lifetime_seconds_are_truncated_to_32_bits() {
    let mut buf = Vec::new();
    Request::AddDnsServer(DnsServer { addr: 0, lifetime: Lifetime::Duration((1u64 << 32) + 5) })
        .encode(&mut buf);
    assert_eq!(
        Request::decode(&buf).unwrap(),
        Request::AddDnsServer(DnsServer { addr: 0, lifetime: Lifetime::Duration(5) })
    );
}

#[test]
fn response_codec() {
    let mut buf = Vec::new();
    Response::Okay.encode(&mut buf);
    assert_eq!(buf, vec![0, 0, 0, 0]);
    assert_eq!(Response::decode(&buf), Ok(Response::Okay));
    assert_eq!(Response::decode(&[1, 0, 0, 0]), Err(Error::Eof));
    assert_eq!(Response::decode(&[0, 0]), Err(Error::Eof));
    assert!(Response::Okay.is_ok());
}

#[test]
fn frames_carry_a_little_endian_length() {
    assert_eq!(frame(&[7, 8, 9]), vec![3, 0, 0, 0, 7, 8, 9]);
    assert_eq!(frame(&[]), vec![0, 0, 0, 0]);
    assert_eq!(frame_payload_len([31, 0, 0, 0]), 31);
    assert_eq!(frame_payload_len([0xff, 0xff, 0, 0]), 65535);
    assert_eq!(frame_payload_len([0, 0, 1, 0]), 65535);
    assert_eq!(frame_payload_len([0xff, 0xff, 0xff, 0xff]), 65535);
}

#[test]
fn add_prefix_over_the_control_socket() {
    let mut payload = vec![0x01, 0, 0, 0];
    payload.extend([0u8; 16]);
    payload.push(0x40);
    payload.extend([0x01, 0xE1, 0x10, 0x00, 0x00]);
    payload.extend([0x01, 0xE1, 0x10, 0x00, 0x00]);
    let mut state = State::new(0);
    let answer = serve_request(&mut state, &payload).unwrap();
    assert_eq!(answer, vec![4, 0, 0, 0, 0, 0, 0, 0]);
    assert_eq!(state.prefixes.entries().len(), 1);
    let p = state.prefixes.entries()[0];
    assert_eq!(p, Prefix {
        prefix: 0,
        prefix_length: 64,
        preferred_lifetime: Lifetime::Duration(0x10E1),
        valid_lifetime: Lifetime::Duration(0x10E1),
    });
}

#[test]
fn bad_request_leaves_state_alone() {
    let mut state = State::new(1500);
    assert_eq!(serve_request(&mut state, &[5, 0, 0, 0]), Err(Error::Eof));
    assert_eq!(state.prefixes.len(), 0);
    assert_eq!(state.dns_servers.len(), 0);
}

#[test]
fn socket_takeover() {
    assert!(matches!(take_over_socket(SocketProbe::Connected), Err(ControlSocketError::SocketInUse)));
    assert!(matches!(take_over_socket(SocketProbe::Refused), Ok(TakeOver::RemoveStaleThenBind)));
    assert!(matches!(take_over_socket(SocketProbe::Absent), Ok(TakeOver::Bind)));
    let e = std::io::Error::new(std::io::ErrorKind::PermissionDenied, "denied");
    match take_over_socket(SocketProbe::Failed(e)) {
        Err(ControlSocketError::Io(e)) => assert_eq!(e.kind(), std::io::ErrorKind::PermissionDenied),
        _ => panic!("expected an I/O error"),
    }
}

#[test]
fn lifetime_remaining() {
    assert_eq!(Lifetime::Duration(3600).remaining_at(u64::MAX), 3600);
    assert_eq!(Lifetime::Until(1000).remaining_at(400), 600);
    assert_eq!(Lifetime::Until(1000).remaining_at(1000), 0);
    assert_eq!(Lifetime::Until(1000).remaining_at(5000), 0);
}

#[test]
fn lifetime_duration_reads_the_clock() {
    assert_eq!(Lifetime::Duration(42).duration(), 42);
    // A moment long past has nothing left; one far ahead has less than its
    // whole value left, as the clock is well past the epoch.
    assert_eq!(Lifetime::Until(1).duration(), 0);
    let far = 100_000_000_000u64;
    let left = Lifetime::Until(far).duration();
    assert!(left > 0 && left < far - 1_000_000_000);
}
