use skunk::address::{Host, TcpAddress};
use skunk::byte_io::Reader;
use skunk::socks::{
    greeting_reply, parse_greeting, parse_request, Incoming, SocksError, CMD_CONNECT,
    METHOD_NO_ACCEPTABLE, METHOD_NO_AUTH, REP_COMMAND_NOT_SUPPORTED, SOCKS_VERSION,
};

#[test]
fn greeting_with_no_auth_is_accepted() {
    let bytes = vec![5u8, 2, 0x00, 0x02];
    let mut reader = Reader::new(bytes.as_slice());
    let greeting = parse_greeting(&mut reader).expect("valid greeting");
    assert_eq!(greeting.methods, vec![0x00, 0x02]);
    assert_eq!(greeting_reply(&greeting), [SOCKS_VERSION, METHOD_NO_AUTH]);
}

#[test]
fn greeting_without_no_auth_is_refused() {
    let bytes = vec![5u8, 1, 0x02];
    let mut reader = Reader::new(bytes.as_slice());
    let greeting = parse_greeting(&mut reader).expect("valid greeting");
    assert_eq!(greeting_reply(&greeting), [SOCKS_VERSION, METHOD_NO_ACCEPTABLE]);
}

#[test]
fn greeting_with_wrong_version_is_rejected() {
    let bytes = vec![4u8, 1, 0x00];
    let mut reader = Reader::new(bytes.as_slice());
    match parse_greeting(&mut reader) {
        Err(SocksError::InvalidVersion { value }) => assert_eq!(value, 4),
        other => panic!("expected InvalidVersion, got {:?}", other),
    }
}

#[test]
fn connect_request_with_domain_name() {
    // CONNECT example.com:80.
    let mut bytes = vec![5u8, 1, 0, 3, 11];
    bytes.extend_from_slice(b"example.com");
    bytes.extend_from_slice(&[0, 80]);
    let mut reader = Reader::new(bytes.as_slice());
    let request = parse_request(&mut reader).expect("valid request");
    assert_eq!(request.command, CMD_CONNECT);
    assert_eq!(request.destination.port, 80);
    match &request.destination.host {
        Host::Hostname(name) => assert_eq!(name, b"example.com"),
        other => panic!("expected a hostname, got {:?}", other),
    }
}

#[test]
fn connect_request_with_ipv4_address() {
    let bytes = vec![5u8, 1, 0, 1, 10, 0, 0, 7, 1, 187];
    let mut reader = Reader::new(bytes.as_slice());
    let request = parse_request(&mut reader).expect("valid request");
    assert_eq!(request.destination.port, 443);
    match request.destination.host {
        Host::Ipv4(octets) => assert_eq!(octets, [10, 0, 0, 7]),
        other => panic!("expected an IPv4 host, got {:?}", other),
    }
}

#[test]
fn connect_request_with_ipv6_address() {
    let mut bytes = vec![5u8, 1, 0, 4];
    bytes.extend_from_slice(&[0x20, 0x01, 0x0d, 0xb8, 0, 0, 0, 0, 0, 0, 0, 0, 0, 0, 0, 1]);
    bytes.extend_from_slice(&[0x01, 0xbb]);
    let mut reader = Reader::new(bytes.as_slice());
    let request = parse_request(&mut reader).expect("valid request");
    assert_eq!(request.destination.port, 443);
    match request.destination.host {
        Host::Ipv6(octets) => {
            assert_eq!(octets[0], 0x20);
            assert_eq!(octets[15], 0x01);
        }
        other => panic!("expected an IPv6 host, got {:?}", other),
    }
}

#[test]
fn unknown_address_type_is_rejected() {
    let bytes = vec![5u8, 1, 0, 9, 0, 0];
    let mut reader = Reader::new(bytes.as_slice());
    match parse_request(&mut reader) {
        Err(SocksError::UnsupportedAddressType { value }) => assert_eq!(value, 9),
        other => panic!("expected UnsupportedAddressType, got {:?}", other),
    }
}

#[test]
fn truncated_request_is_rejected() {
    let bytes = vec![5u8, 1, 0, 1, 10, 0];
    let mut reader = Reader::new(bytes.as_slice());
    match parse_request(&mut reader) {
        Err(SocksError::Eof) => {}
        other => panic!("expected Eof, got {:?}", other),
    }
}

#[test]
fn accept_reply_reads_as_success_on_the_wire() {
    let incoming = Incoming {
        destination: TcpAddress { host: Host::Hostname(b"example.com".to_vec()), port: 80 },
    };
    let bound = TcpAddress { host: Host::Ipv4([127, 0, 0, 1]), port: 4321 };
    let reply = incoming.accept(&bound);
    assert_eq!(reply[0], SOCKS_VERSION);
    assert_eq!(reply[1], 0x00);
    assert_eq!(reply[3], 0x01);
    assert_eq!(&reply[4..8], &[127, 0, 0, 1]);
    assert_eq!(&reply[8..10], &[(4321u16 >> 8) as u8, (4321u16 & 0xff) as u8]);
}

#[test]
fn reject_reply_never_reads_as_success() {
    let incoming = Incoming {
        destination: TcpAddress { host: Host::Hostname(b"example.com".to_vec()), port: 80 },
    };
    let reply = incoming.reject(Some(REP_COMMAND_NOT_SUPPORTED));
    assert_eq!(reply[0], SOCKS_VERSION);
    assert_eq!(reply[1], REP_COMMAND_NOT_SUPPORTED);

    let incoming = Incoming {
        destination: TcpAddress { host: Host::Hostname(b"example.com".to_vec()), port: 80 },
    };
    let reply = incoming.reject(None);
    assert_ne!(reply[1], 0x00);

    // Even a rejection handed the success code cannot read as an accept.
    let incoming = Incoming {
        destination: TcpAddress { host: Host::Hostname(b"example.com".to_vec()), port: 80 },
    };
    let reply = incoming.reject(Some(0x00));
    assert_ne!(reply[1], 0x00);
}
