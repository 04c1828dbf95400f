use skunk::byte_io::{Endianness, Reader, Writer};
use skunk::ipv4::{AnyPayload, Flags, Header, InvalidHeader, InvalidPacket, Packet, Protocol};

fn sample_header() -> Header {
    Header {
        version: 4,
        internet_header_length: 5,
        differentiated_service_code_point: 0,
        explicit_congestion_notification: 0,
        total_length: 28,
        identification: 0x1c46,
        flags: Flags { reserved: false, dont_fragment: true, more_fragments: false },
        fragment_offset: 0,
        time_to_live: 64,
        protocol: Protocol(0x11),
        header_checksum: 0xb1e6,
        source_address: [192, 168, 0, 1],
        destination_address: [192, 168, 0, 199],
    }
}

#[test]
fn header_round_trip() {
    let header = sample_header();
    let bytes = header.encode();
    assert_eq!(bytes.len(), 20);
    assert_eq!(bytes[0], 0x45);
    let mut reader = Reader::new(bytes.as_slice());
    let decoded = Header::read(&mut reader).expect("valid header");
    assert_eq!(decoded, header);
}

#[test]
fn header_round_trip_with_fragment_bits() {
    let mut header = sample_header();
    header.flags = Flags { reserved: false, dont_fragment: false, more_fragments: true };
    header.fragment_offset = 1234;
    let bytes = header.encode();
    let mut reader = Reader::new(bytes.as_slice());
    let decoded = Header::read(&mut reader).expect("valid header");
    assert_eq!(decoded, header);
    assert!(decoded.flags.more_fragments);
    assert_eq!(decoded.fragment_offset, 1234);
}

#[test]
fn wrong_version_is_rejected() {
    // Version 6 in the high nibble.
    let bytes = vec![0x65u8, 0, 0, 20];
    let mut reader = Reader::new(bytes.as_slice());
    match Header::read(&mut reader) {
        Err(InvalidHeader::InvalidVersion { value }) => assert_eq!(value, 6),
        other => panic!("expected InvalidVersion, got {:?}", other),
    }
}

#[test]
fn wrong_header_length_is_rejected() {
    // Version 4 but six words of header.
    let bytes = vec![0x46u8, 0, 0, 20];
    let mut reader = Reader::new(bytes.as_slice());
    match Header::read(&mut reader) {
        Err(InvalidHeader::InvalidInternetHeaderLength { value }) => assert_eq!(value, 6),
        other => panic!("expected InvalidInternetHeaderLength, got {:?}", other),
    }
}

#[test]
fn short_total_length_is_rejected() {
    let mut bytes = sample_header().encode();
    // Total length 16: less than the header itself.
    bytes[2] = 0;
    bytes[3] = 16;
    let mut reader = Reader::new(bytes.as_slice());
    match Header::read(&mut reader) {
        Err(InvalidHeader::InvalidTotalLength { value }) => assert_eq!(value, 16),
        other => panic!("expected InvalidTotalLength, got {:?}", other),
    }
}

#[test]
fn truncated_header_is_rejected() {
    let bytes = sample_header().encode();
    let mut reader = Reader::new(&bytes.as_slice()[0..10]);
    match Header::read(&mut reader) {
        Err(InvalidHeader::Read(_)) => {}
        other => panic!("expected a read error, got {:?}", other),
    }
}

#[test]
fn udp_payload_is_parsed_by_protocol_number() {
    let header = sample_header();
    let mut frame = header.encode();
    // An eight-byte UDP header: ports 53 and 1024, length 8, checksum 0.
    frame.extend_from_slice(&[0, 53, 4, 0, 0, 8, 0, 0]);
    let mut reader = Reader::new(frame.as_slice());
    let packet = Packet::read(&mut reader).expect("valid packet");
    match packet.payload {
        AnyPayload::Udp(u) => {
            assert_eq!(u.source_port, 53);
            assert_eq!(u.destination_port, 1024);
            assert_eq!(u.length, 8);
            assert_eq!(u.payload.len(), 0);
        }
        other => panic!("expected a UDP payload, got {:?}", other),
    }
}

#[test]
fn unknown_protocol_passes_payload_through() {
    let mut header = sample_header();
    header.protocol = Protocol(0x06);
    header.total_length = 24;
    let mut frame = header.encode();
    frame.extend_from_slice(&[0xde, 0xad, 0xbe, 0xef]);
    let mut reader = Reader::new(frame.as_slice());
    let packet = Packet::read(&mut reader).expect("valid packet");
    match packet.payload {
        AnyPayload::Unknown(bytes) => assert_eq!(bytes, vec![0xde, 0xad, 0xbe, 0xef]),
        other => panic!("expected a raw payload, got {:?}", other),
    }
}

#[test]
fn frame_shorter_than_total_length_is_rejected() {
    let mut header = sample_header();
    header.protocol = Protocol(0x06);
    header.total_length = 40;
    let frame = header.encode();
    let mut reader = Reader::new(frame.as_slice());
    match Packet::read(&mut reader) {
        Err(InvalidPacket::Header(InvalidHeader::Read(_))) => {}
        other => panic!("expected a truncation error, got {:?}", other),
    }
}

#[test]
fn packet_write_lays_header_then_payload() {
    let mut header = sample_header();
    header.protocol = Protocol(0x06);
    header.total_length = 23;
    let packet = Packet { header, payload: AnyPayload::Unknown(vec![1, 2, 3]) };
    let mut writer = Writer::new();
    packet.write(&mut writer).expect("unbounded writer");
    let bytes = writer.into_vec();
    assert_eq!(bytes.len(), 23);
    assert_eq!(&bytes[20..], &[1, 2, 3]);
    assert_eq!(&bytes[0..20], header.encode().as_slice());
}

#[test]
fn bounded_writer_refuses_what_does_not_fit() {
    let mut writer = Writer::with_bound(10);
    let header = sample_header();
    assert!(header.write(&mut writer).is_err());
}

#[test]
fn endianness_tags_order_bytes() {
    let bytes = vec![0x12u8, 0x34];
    let mut reader = Reader::new(bytes.as_slice());
    assert_eq!(reader.read_u16(Endianness::NetworkEndian).unwrap(), 0x1234);
    let mut reader = Reader::new(bytes.as_slice());
    assert_eq!(reader.read_u16(Endianness::LittleEndian).unwrap(), 0x3412);
    let mut reader = Reader::new(bytes.as_slice());
    assert_eq!(reader.read_u16(Endianness::BigEndian).unwrap(), 0x1234);
}

#[test]
fn limited_reader_stops_at_its_bound() {
    let bytes = vec![1u8, 2, 3, 4, 5];
    let mut reader = Reader::new(bytes.as_slice());
    let mut sub = reader.limit(2).unwrap();
    assert_eq!(sub.read_u8().unwrap(), 1);
    assert_eq!(sub.read_u8().unwrap(), 2);
    assert!(sub.read_u8().is_err());
    assert_eq!(reader.read_u8().unwrap(), 3);
}
