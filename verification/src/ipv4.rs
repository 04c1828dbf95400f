//! IPv4 header and packet codec for the packet-capture ingress.
//!
//! The layout follows RFC 791 with a fixed five-word header: options are
//! not supported, so a header is exactly twenty bytes. Decoding validates
//! the version, the internet header length and the total length; encoding
//! is the exact inverse, which `lemma_header_round_trip` proves.

use vstd::prelude::*;
use crate::byte_io::{Endianness, Full, ReadError, Reader, Writer, spec_u16_value};
use crate::udp;

verus! {

broadcast use vstd::array::group_array_axioms;

/// Internet Control Message Protocol.
pub const PROTOCOL_ICMP: u8 = 0x01;

/// Transmission Control Protocol.
pub const PROTOCOL_TCP: u8 = 0x06;

/// User Datagram Protocol.
pub const PROTOCOL_UDP: u8 = 0x11;

/// The bytes a fixed five-word header occupies on the wire.
pub const HEADER_LENGTH: u16 = 20;

/// An IPv4 protocol number.
#[derive(Clone, Copy, Debug, PartialEq, Eq, Structural)]
pub struct Protocol(pub u8);

/// The three header flag bits.
#[derive(Clone, Copy, Debug, PartialEq, Eq, Structural)]
pub struct Flags {
    pub reserved: bool,
    pub dont_fragment: bool,
    pub more_fragments: bool,
}

impl Flags {
    /// The three bits packed into the low bits of a byte, reserved highest.
    pub open spec fn spec_bits(self) -> u8 {
        ((if self.reserved {
            4int
        } else {
            0int
        }) + (if self.dont_fragment {
            2int
        } else {
            0int
        }) + (if self.more_fragments {
            1int
        } else {
            0int
        })) as u8
    }

    /// The flags encoded by the low three bits of `bits`.
    pub open spec fn spec_from_bits(bits: u8) -> Flags {
        Flags {
            reserved: (bits / 4) % 2 == 1,
            dont_fragment: (bits / 2) % 2 == 1,
            more_fragments: bits % 2 == 1,
        }
    }

    /// Unpacks the low three bits of `bits`.
    pub fn from_bits(bits: u8) -> (r: Flags)
        ensures
            r == Flags::spec_from_bits(bits),
    {
        Flags {
            reserved: (bits / 4) % 2 == 1,
            dont_fragment: (bits / 2) % 2 == 1,
            more_fragments: bits % 2 == 1,
        }
    }

    /// Packs the flags into the low three bits of a byte.
    pub fn bits(self) -> (r: u8)
        ensures
            r == self.spec_bits(),
            r < 8,
    {
        (if self.reserved {
            4u8
        } else {
            0u8
        }) + (if self.dont_fragment {
            2u8
        } else {
            0u8
        }) + (if self.more_fragments {
            1u8
        } else {
            0u8
        })
    }
}

/// Packing the flags and unpacking a three-bit value are mutually inverse.
pub proof fn lemma_flags_bits_round_trip(f: Flags, bits: u8)
    requires
        bits < 8,
    ensures
        Flags::spec_from_bits(f.spec_bits()) == f,
        Flags::spec_from_bits(bits).spec_bits() == bits,
{
    assert(Flags::spec_from_bits(f.spec_bits()) == f);
    assert(Flags::spec_from_bits(bits).spec_bits() == bits) by (nonlinear_arith)
        requires
            bits < 8,
    ;
}

/// A fixed five-word IPv4 header.
#[derive(Clone, Copy, Debug)]
pub struct Header {
    pub version: u8,
    pub internet_header_length: u8,
    pub differentiated_service_code_point: u8,
    pub explicit_congestion_notification: u8,
    pub total_length: u16,
    pub identification: u16,
    pub flags: Flags,
    pub fragment_offset: u16,
    pub time_to_live: u8,
    pub protocol: Protocol,
    pub header_checksum: u16,
    pub source_address: [u8; 4],
    pub destination_address: [u8; 4],
}

impl PartialEq for Header {
    fn eq(&self, other: &Header) -> (r: bool) {
        self.version == other.version && self.internet_header_length
            == other.internet_header_length && self.differentiated_service_code_point
            == other.differentiated_service_code_point && self.explicit_congestion_notification
            == other.explicit_congestion_notification && self.total_length == other.total_length
            && self.identification == other.identification && self.flags == other.flags
            && self.fragment_offset == other.fragment_offset && self.time_to_live
            == other.time_to_live && self.protocol == other.protocol && self.header_checksum
            == other.header_checksum && eq_address(&self.source_address, &other.source_address)
            && eq_address(&self.destination_address, &other.destination_address)
    }
}

impl vstd::std_specs::cmp::PartialEqSpecImpl for Header {
    open spec fn obeys_eq_spec() -> bool {
        true
    }

    open spec fn eq_spec(&self, other: &Header) -> bool {
        *self == *other
    }
}

/// Compares two four-octet addresses.
fn eq_address(a: &[u8; 4], b: &[u8; 4]) -> (r: bool)
    ensures
        r == (*a == *b),
{
    let r = a[0] == b[0] && a[1] == b[1] && a[2] == b[2] && a[3] == b[3];
    proof {
        if r {
            assert(*a =~= *b);
        }
    }
    r
}

impl Header {
    /// The invariants a decoded header satisfies: fixed version and header
    /// length, fields within their bit widths, and a total length that
    /// covers at least the header itself.
    pub open spec fn wf(self) -> bool {
        &&& self.version == 4
        &&& self.internet_header_length == 5
        &&& self.differentiated_service_code_point < 64
        &&& self.explicit_congestion_notification < 4
        &&& self.fragment_offset < 8192
        &&& self.total_length >= HEADER_LENGTH
    }

    /// The combined flags / fragment-offset word.
    pub open spec fn spec_flags_fragment_offset(self) -> u16 {
        (self.flags.spec_bits() * 8192 + self.fragment_offset) as u16
    }

    /// The length of the payload that follows the header.
    pub open spec fn spec_payload_length(self) -> int {
        self.total_length - HEADER_LENGTH
    }
}

/// The twenty-byte wire layout of a header.
pub open spec fn spec_header_bytes(h: Header) -> Seq<u8> {
    seq![
        (h.version * 16 + h.internet_header_length) as u8,
        (h.differentiated_service_code_point * 4 + h.explicit_congestion_notification) as u8,
        (h.total_length / 256) as u8,
        (h.total_length % 256) as u8,
        (h.identification / 256) as u8,
        (h.identification % 256) as u8,
        (h.spec_flags_fragment_offset() / 256) as u8,
        (h.spec_flags_fragment_offset() % 256) as u8,
        h.time_to_live,
        h.protocol.0,
        (h.header_checksum / 256) as u8,
        (h.header_checksum % 256) as u8,
        h.source_address[0],
        h.source_address[1],
        h.source_address[2],
        h.source_address[3],
        h.destination_address[0],
        h.destination_address[1],
        h.destination_address[2],
        h.destination_address[3],
    ]
}

/// The header decoded from the start of `bytes`, or nothing where decoding
/// reports an error.
pub open spec fn spec_decode_header(bytes: Seq<u8>) -> Option<Header> {
    if bytes.len() < 1 {
        None
    } else if bytes[0] / 16 != 4 {
        None
    } else if bytes[0] % 16 != 5 {
        None
    } else if bytes.len() < 4 {
        None
    } else if spec_u16_value(bytes[2], bytes[3], true) < HEADER_LENGTH {
        None
    } else if bytes.len() < 20 {
        None
    } else {
        let ffo = spec_u16_value(bytes[6], bytes[7], true);
        Some(
            Header {
                version: 4,
                internet_header_length: 5,
                differentiated_service_code_point: bytes[1] / 4,
                explicit_congestion_notification: bytes[1] % 4,
                total_length: spec_u16_value(bytes[2], bytes[3], true),
                identification: spec_u16_value(bytes[4], bytes[5], true),
                flags: Flags::spec_from_bits((ffo / 8192) as u8),
                fragment_offset: (ffo % 8192) as u16,
                time_to_live: bytes[8],
                protocol: Protocol(bytes[9]),
                header_checksum: spec_u16_value(bytes[10], bytes[11], true),
                source_address: [bytes[12], bytes[13], bytes[14], bytes[15]],
                destination_address: [bytes[16], bytes[17], bytes[18], bytes[19]],
            },
        )
    }
}

/// A captured IPv4 header was rejected.
#[derive(Clone, Copy, Debug, PartialEq, Eq, Structural)]
pub enum InvalidHeader {
    /// The frame ended before the header did.
    Read(ReadError),
    /// The version nibble is not 4.
    InvalidVersion { value: u8 },
    /// The header length nibble is not 5: options are not supported.
    InvalidInternetHeaderLength { value: u8 },
    /// The total length does not cover the header itself.
    InvalidTotalLength { value: u16 },
}

/// A captured IPv4 packet was rejected.
#[derive(Clone, Copy, Debug, PartialEq, Eq, Structural)]
pub enum InvalidPacket {
    Header(InvalidHeader),
    Payload(AnyPayloadError),
}

/// A payload selected by protocol number was rejected.
#[derive(Clone, Copy, Debug, PartialEq, Eq, Structural)]
pub enum AnyPayloadError {
    Udp(udp::InvalidPacket),
}

impl Header {
    /// Reads and validates a header. On success exactly twenty bytes are
    /// consumed and the result is the header those bytes lay out; on an
    /// error the reader may stand mid-header.
    pub fn read(reader: &mut Reader<'_>) -> (r: Result<Header, InvalidHeader>)
        requires
            old(reader).wf(),
        ensures
            final(reader).wf(),
            final(reader).data() == old(reader).data(),
            final(reader).end() == old(reader).end(),
            ({
                let window = old(reader).data().subrange(old(reader).pos(), old(reader).end());
                match r {
                    Ok(h) => {
                        &&& h.wf()
                        &&& spec_decode_header(window) == Some(h)
                        &&& final(reader).pos() == old(reader).pos() + 20
                    },
                    Err(e) => {
                        &&& spec_decode_header(window) is None
                        &&& match e {
                            InvalidHeader::Read(re) => {
                                &&& re == ReadError::Eof
                                &&& window.len() < 20
                                &&& window.len() >= 1 ==> window[0] / 16 == 4 && window[0] % 16
                                    == 5
                                &&& window.len() >= 4 ==> spec_u16_value(window[2], window[3], true)
                                    >= HEADER_LENGTH
                            },
                            InvalidHeader::InvalidVersion { value } => {
                                &&& window.len() >= 1
                                &&& value == window[0] / 16
                                &&& value != 4
                            },
                            InvalidHeader::InvalidInternetHeaderLength { value } => {
                                &&& window.len() >= 1
                                &&& window[0] / 16 == 4
                                &&& value == window[0] % 16
                                &&& value != 5
                            },
                            InvalidHeader::InvalidTotalLength { value } => {
                                &&& window.len() >= 4
                                &&& window[0] / 16 == 4
                                &&& window[0] % 16 == 5
                                &&& value == spec_u16_value(window[2], window[3], true)
                                &&& value < HEADER_LENGTH
                            },
                        }
                    },
                }
            }),
    {
        let ghost window = old(reader).data().subrange(old(reader).pos(), old(reader).end());
        let version_ihl = match reader.read_u8() {
            Ok(b) => b,
            Err(_) => {
                return Err(InvalidHeader::Read(ReadError::Eof));
            },
        };
        let version = version_ihl / 16;
        if version != 4 {
            return Err(InvalidHeader::InvalidVersion { value: version });
        }
        let internet_header_length = version_ihl % 16;
        if internet_header_length != 5 {
            return Err(InvalidHeader::InvalidInternetHeaderLength {
                value: internet_header_length,
            });
        }
        let dscp_ecn = match reader.read_u8() {
            Ok(b) => b,
            Err(_) => {
                return Err(InvalidHeader::Read(ReadError::Eof));
            },
        };
        let differentiated_service_code_point = dscp_ecn / 4;
        let explicit_congestion_notification = dscp_ecn % 4;
        let total_length = match reader.read_u16(Endianness::NetworkEndian) {
            Ok(v) => v,
            Err(_) => {
                return Err(InvalidHeader::Read(ReadError::Eof));
            },
        };
        if total_length < HEADER_LENGTH {
            return Err(InvalidHeader::InvalidTotalLength { value: total_length });
        }
        let identification = match reader.read_u16(Endianness::NetworkEndian) {
            Ok(v) => v,
            Err(_) => {
                return Err(InvalidHeader::Read(ReadError::Eof));
            },
        };
        let flags_fragment_offset = match reader.read_u16(Endianness::NetworkEndian) {
            Ok(v) => v,
            Err(_) => {
                return Err(InvalidHeader::Read(ReadError::Eof));
            },
        };
        let flags = Flags::from_bits((flags_fragment_offset / 8192) as u8);
        let fragment_offset = flags_fragment_offset % 8192;
        let time_to_live = match reader.read_u8() {
            Ok(b) => b,
            Err(_) => {
                return Err(InvalidHeader::Read(ReadError::Eof));
            },
        };
        let protocol = match reader.read_u8() {
            Ok(b) => Protocol(b),
            Err(_) => {
                return Err(InvalidHeader::Read(ReadError::Eof));
            },
        };
        let header_checksum = match reader.read_u16(Endianness::NetworkEndian) {
            Ok(v) => v,
            Err(_) => {
                return Err(InvalidHeader::Read(ReadError::Eof));
            },
        };
        let s0 = match reader.read_u8() {
            Ok(b) => b,
            Err(_) => {
                return Err(InvalidHeader::Read(ReadError::Eof));
            },
        };
        let s1 = match reader.read_u8() {
            Ok(b) => b,
            Err(_) => {
                return Err(InvalidHeader::Read(ReadError::Eof));
            },
        };
        let s2 = match reader.read_u8() {
            Ok(b) => b,
            Err(_) => {
                return Err(InvalidHeader::Read(ReadError::Eof));
            },
        };
        let s3 = match reader.read_u8() {
            Ok(b) => b,
            Err(_) => {
                return Err(InvalidHeader::Read(ReadError::Eof));
            },
        };
        let d0 = match reader.read_u8() {
            Ok(b) => b,
            Err(_) => {
                return Err(InvalidHeader::Read(ReadError::Eof));
            },
        };
        let d1 = match reader.read_u8() {
            Ok(b) => b,
            Err(_) => {
                return Err(InvalidHeader::Read(ReadError::Eof));
            },
        };
        let d2 = match reader.read_u8() {
            Ok(b) => b,
            Err(_) => {
                return Err(InvalidHeader::Read(ReadError::Eof));
            },
        };
        let d3 = match reader.read_u8() {
            Ok(b) => b,
            Err(_) => {
                return Err(InvalidHeader::Read(ReadError::Eof));
            },
        };
        let header = Header {
            version,
            internet_header_length,
            differentiated_service_code_point,
            explicit_congestion_notification,
            total_length,
            identification,
            flags,
            fragment_offset,
            time_to_live,
            protocol,
            header_checksum,
            source_address: [s0, s1, s2, s3],
            destination_address: [d0, d1, d2, d3],
        };
        proof {
            let decoded = spec_decode_header(window);
            assert(window.len() >= 20);
            assert(decoded is Some);
            let ffo = spec_u16_value(window[6], window[7], true);
            assert(header.flags == Flags::spec_from_bits((ffo / 8192) as u8));
            assert(decoded == Some(header));
        }
        Ok(header)
    }

    /// Writes the twenty header bytes, or refuses the whole header with
    /// `Full`.
    pub fn write(&self, writer: &mut Writer) -> (r: Result<(), Full>)
        requires
            old(writer).wf(),
            self.wf(),
        ensures
            final(writer).wf(),
            final(writer).bound() == old(writer).bound(),
            match r {
                Ok(()) => final(writer).written() == old(writer).written() + spec_header_bytes(
                    *self,
                ),
                Err(_) => !old(writer).spec_has_space(20),
            },
    {
        let ghost before = old(writer).written();
        match writer.write_u8(self.version * 16 + self.internet_header_length) {
            Ok(()) => {},
            Err(f) => {
                return Err(f);
            },
        }
        match writer.write_u8(
            self.differentiated_service_code_point * 4 + self.explicit_congestion_notification,
        ) {
            Ok(()) => {},
            Err(f) => {
                return Err(f);
            },
        }
        match writer.write_u16(self.total_length, Endianness::NetworkEndian) {
            Ok(()) => {},
            Err(f) => {
                return Err(f);
            },
        }
        match writer.write_u16(self.identification, Endianness::NetworkEndian) {
            Ok(()) => {},
            Err(f) => {
                return Err(f);
            },
        }
        let bits = self.flags.bits();
        let ffo: u16 = (bits as u16) * 8192 + self.fragment_offset;
        proof {
            assert(ffo == self.spec_flags_fragment_offset());
        }
        match writer.write_u16(ffo, Endianness::NetworkEndian) {
            Ok(()) => {},
            Err(f) => {
                return Err(f);
            },
        }
        match writer.write_u8(self.time_to_live) {
            Ok(()) => {},
            Err(f) => {
                return Err(f);
            },
        }
        match writer.write_u8(self.protocol.0) {
            Ok(()) => {},
            Err(f) => {
                return Err(f);
            },
        }
        match writer.write_u16(self.header_checksum, Endianness::NetworkEndian) {
            Ok(()) => {},
            Err(f) => {
                return Err(f);
            },
        }
        let src = self.source_address;
        let dst = self.destination_address;
        match writer.write_bytes(src.as_slice()) {
            Ok(()) => {},
            Err(f) => {
                return Err(f);
            },
        }
        match writer.write_bytes(dst.as_slice()) {
            Ok(()) => {},
            Err(f) => {
                return Err(f);
            },
        }
        proof {
            assert(writer.written() =~= before + spec_header_bytes(*self));
        }
        Ok(())
    }

    /// Encodes the header into a fresh twenty-byte buffer.
    pub fn encode(&self) -> (r: Vec<u8>)
        requires
            self.wf(),
        ensures
            r@ == spec_header_bytes(*self),
    {
        let mut writer = Writer::new();
        match self.write(&mut writer) {
            Ok(()) => {},
            Err(_) => {},
        }
        writer.into_vec()
    }
}

/// Encoding a well-formed header and decoding the bytes yields the header
/// back: the fixed layout pins every field.
pub proof fn lemma_header_round_trip(h: Header)
    requires
        h.wf(),
    ensures
        spec_decode_header(spec_header_bytes(h)) == Some(h),
{
    let bytes = spec_header_bytes(h);
    assert(bytes.len() == 20);
    assert(bytes[0] == (h.version * 16 + h.internet_header_length) as u8);
    assert(bytes[0] == 69);
    assert(bytes[0] / 16 == 4 && bytes[0] % 16 == 5);
    let d = h.differentiated_service_code_point;
    let e = h.explicit_congestion_notification;
    assert(bytes[1] == (d * 4 + e) as u8);
    assert(d * 4 + e <= 255) by (nonlinear_arith)
        requires
            d < 64,
            e < 4,
    ;
    assert(bytes[1] / 4 == d && bytes[1] % 4 == e) by (nonlinear_arith)
        requires
            bytes[1] == d * 4 + e,
            d < 64,
            e < 4,
    ;
    lemma_u16_split_value(h.total_length);
    lemma_u16_split_value(h.identification);
    lemma_u16_split_value(h.header_checksum);
    assert(spec_u16_value(bytes[2], bytes[3], true) == h.total_length);
    assert(spec_u16_value(bytes[4], bytes[5], true) == h.identification);
    assert(spec_u16_value(bytes[10], bytes[11], true) == h.header_checksum);
    let bits = h.flags.spec_bits();
    assert(bits < 8);
    let ffo = h.spec_flags_fragment_offset();
    assert(bits * 8192 + h.fragment_offset <= 65535) by (nonlinear_arith)
        requires
            bits < 8,
            h.fragment_offset < 8192,
    ;
    assert(ffo == bits * 8192 + h.fragment_offset);
    lemma_u16_split_value(ffo);
    assert(spec_u16_value(bytes[6], bytes[7], true) == ffo);
    assert(ffo / 8192 == bits && ffo % 8192 == h.fragment_offset) by (nonlinear_arith)
        requires
            ffo == bits * 8192 + h.fragment_offset,
            bits < 8,
            h.fragment_offset < 8192,
    ;
    lemma_flags_bits_round_trip(h.flags, 0);
    assert(Flags::spec_from_bits((ffo / 8192) as u8) == h.flags);
    let decoded = spec_decode_header(bytes);
    assert(decoded is Some);
    let g = decoded->Some_0;
    assert(g.source_address =~= h.source_address);
    assert(g.destination_address =~= h.destination_address);
    assert(g == h);
}

/// Splitting a 16-bit value into its two big-endian bytes and recombining
/// them yields the value back.
pub proof fn lemma_u16_split_value(v: u16)
    ensures
        v / 256 <= 255,
        spec_u16_value((v / 256) as u8, (v % 256) as u8, true) == v,
{
    assert(v / 256 <= 255 && (v / 256) * 256 + v % 256 == v) by (nonlinear_arith);
}

/// An IPv4 packet: the header and the payload its protocol field selects.
#[derive(Clone, Debug)]
pub struct Packet {
    pub header: Header,
    pub payload: AnyPayload,
}

/// A payload selected by protocol number: UDP is parsed, every other
/// protocol is passed through as raw bytes.
#[derive(Clone, Debug)]
pub enum AnyPayload {
    Udp(udp::Packet),
    Unknown(Vec<u8>),
}

/// Whether `p` is the payload that `bytes` lays out under `protocol`.
pub open spec fn spec_payload_parses_from(p: AnyPayload, protocol: Protocol, bytes: Seq<u8>) -> bool {
    if protocol.0 == PROTOCOL_UDP {
        p matches AnyPayload::Udp(u) && udp::spec_parses_from(u, bytes)
    } else {
        p matches AnyPayload::Unknown(v) && v@ == bytes
    }
}

impl AnyPayload {
    /// Reads the payload that the protocol number selects, draining the
    /// reader to its bound: UDP for protocol number seventeen, raw bytes
    /// for every other protocol.
    pub fn read(reader: &mut Reader<'_>, protocol: Protocol) -> (r: Result<
        AnyPayload,
        AnyPayloadError,
    >)
        requires
            old(reader).wf(),
        ensures
            final(reader).wf(),
            final(reader).data() == old(reader).data(),
            final(reader).end() == old(reader).end(),
            ({
                let window = old(reader).data().subrange(old(reader).pos(), old(reader).end());
                match r {
                    Ok(p) => {
                        &&& spec_payload_parses_from(p, protocol, window)
                        &&& final(reader).pos() == final(reader).end()
                    },
                    Err(e) => {
                        &&& protocol.0 == PROTOCOL_UDP
                        &&& e == AnyPayloadError::Udp(
                            udp::InvalidPacket::Read(ReadError::Eof),
                        )
                        &&& window.len() < 8
                    },
                }
            }),
    {
        if protocol.0 == PROTOCOL_UDP {
            match udp::Packet::read(reader) {
                Ok(p) => Ok(AnyPayload::Udp(p)),
                Err(e) => {
                    reader.skip_remaining();
                    Err(AnyPayloadError::Udp(e))
                },
            }
        } else {
            let rest = reader.remaining();
            match reader.read_vec(rest) {
                Ok(v) => Ok(AnyPayload::Unknown(v)),
                Err(_) => {
                    // A read of exactly the remaining length cannot fail.
                    Err(AnyPayloadError::Udp(udp::InvalidPacket::Read(ReadError::Eof)))
                },
            }
        }
    }
}

impl Packet {
    /// Reads a packet: the validated header, then the payload region the
    /// header's total length declares, parsed by protocol number. Bytes
    /// past the region are left for the caller.
    pub fn read(reader: &mut Reader<'_>) -> (r: Result<Packet, InvalidPacket>)
        requires
            old(reader).wf(),
        ensures
            final(reader).wf(),
            final(reader).data() == old(reader).data(),
            final(reader).end() == old(reader).end(),
            ({
                let window = old(reader).data().subrange(old(reader).pos(), old(reader).end());
                match r {
                    Ok(p) => {
                        &&& p.header.wf()
                        &&& spec_decode_header(window) == Some(p.header)
                        &&& window.len() >= p.header.total_length
                        &&& spec_payload_parses_from(
                            p.payload,
                            p.header.protocol,
                            old(reader).data().subrange(
                                old(reader).pos() + 20,
                                old(reader).pos() + p.header.total_length,
                            ),
                        )
                        &&& final(reader).pos() == old(reader).pos() + p.header.total_length
                    },
                    Err(e) => match e {
                        InvalidPacket::Header(_) => spec_decode_header(window) is None
                            || window.len() < spec_decode_header(window)->Some_0.total_length,
                        InvalidPacket::Payload(pe) => {
                            &&& spec_decode_header(window) is Some
                            &&& spec_decode_header(window)->Some_0.protocol.0 == PROTOCOL_UDP
                            &&& spec_decode_header(window)->Some_0.spec_payload_length() < 8
                        },
                    },
                }
            }),
    {
        let ghost window = old(reader).data().subrange(old(reader).pos(), old(reader).end());
        let header = match Header::read(reader) {
            Ok(h) => h,
            Err(e) => {
                return Err(InvalidPacket::Header(e));
            },
        };
        let payload_length = (header.total_length - HEADER_LENGTH) as usize;
        let mut limited = match reader.limit(payload_length) {
            Ok(sub) => sub,
            Err(_) => {
                // The frame is shorter than the header's total length says.
                return Err(InvalidPacket::Header(InvalidHeader::Read(ReadError::Eof)));
            },
        };
        let payload = match AnyPayload::read(&mut limited, header.protocol) {
            Ok(p) => p,
            Err(e) => {
                return Err(InvalidPacket::Payload(e));
            },
        };
        Ok(Packet { header, payload })
    }

    /// Writes the header, then the payload; the whole packet is refused
    /// only where it cannot fit, so an unbounded writer always succeeds.
    pub fn write(&self, writer: &mut Writer) -> (r: Result<(), Full>)
        requires
            old(writer).wf(),
            self.header.wf(),
        ensures
            final(writer).wf(),
            final(writer).bound() == old(writer).bound(),
            r is Ok ==> final(writer).written() == old(writer).written() + spec_header_bytes(
                self.header,
            ) + spec_payload_written(self.payload),
            r is Err ==> !old(writer).spec_has_space(
                spec_header_bytes(self.header).len() + spec_payload_written(self.payload).len()
                    as int,
            ),
    {
        match self.header.write(writer) {
            Ok(()) => {},
            Err(f) => {
                return Err(f);
            },
        }
        match &self.payload {
            AnyPayload::Udp(u) => {
                match u.write(writer) {
                    Ok(()) => Ok(()),
                    Err(f) => Err(f),
                }
            },
            AnyPayload::Unknown(v) => {
                match writer.write_bytes(v.as_slice()) {
                    Ok(()) => Ok(()),
                    Err(f) => Err(f),
                }
            },
        }
    }
}

/// The bytes a payload writes.
pub open spec fn spec_payload_written(p: AnyPayload) -> Seq<u8> {
    match p {
        AnyPayload::Udp(u) => udp::spec_packet_bytes(u),
        AnyPayload::Unknown(v) => v@,
    }
}

} // verus!
