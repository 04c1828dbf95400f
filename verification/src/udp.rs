//! UDP datagram codec used by the packet-capture ingress.

use vstd::prelude::*;
use crate::byte_io::{Endianness, Full, ReadError, Reader, Writer, spec_u16_bytes, spec_u16_value};

verus! {

/// A UDP datagram: the four header fields and the raw payload.
#[derive(Clone, Debug)]
pub struct Packet {
    pub source_port: u16,
    pub destination_port: u16,
    pub length: u16,
    pub checksum: u16,
    pub payload: Vec<u8>,
}

/// A captured UDP datagram was rejected.
#[derive(Clone, Copy, Debug, PartialEq, Eq, Structural)]
pub enum InvalidPacket {
    Read(ReadError),
}

/// The byte layout of a UDP datagram: four big-endian 16-bit fields, then
/// the payload.
pub open spec fn spec_packet_bytes(p: Packet) -> Seq<u8> {
    spec_u16_bytes(p.source_port, true) + spec_u16_bytes(p.destination_port, true)
        + spec_u16_bytes(p.length, true) + spec_u16_bytes(p.checksum, true) + p.payload@
}

/// Whether `p` is the datagram laid out by `bytes`: four big-endian
/// 16-bit header fields, then the payload.
pub open spec fn spec_parses_from(p: Packet, bytes: Seq<u8>) -> bool {
    &&& bytes.len() >= 8
    &&& p.source_port == spec_u16_value(bytes[0], bytes[1], true)
    &&& p.destination_port == spec_u16_value(bytes[2], bytes[3], true)
    &&& p.length == spec_u16_value(bytes[4], bytes[5], true)
    &&& p.checksum == spec_u16_value(bytes[6], bytes[7], true)
    &&& p.payload@ == bytes.skip(8)
}

impl Packet {
    /// Reads a datagram, draining the reader: the payload is everything
    /// past the eight header bytes, up to the reader's bound.
    pub fn read(reader: &mut Reader<'_>) -> (r: Result<Packet, InvalidPacket>)
        requires
            old(reader).wf(),
        ensures
            final(reader).wf(),
            final(reader).data() == old(reader).data(),
            final(reader).end() == old(reader).end(),
            match r {
                Ok(p) => {
                    &&& old(reader).spec_remaining() >= 8
                    &&& spec_parses_from(
                        p,
                        old(reader).data().subrange(old(reader).pos(), old(reader).end()),
                    )
                    &&& final(reader).pos() == final(reader).end()
                },
                Err(e) => {
                    &&& e == InvalidPacket::Read(ReadError::Eof)
                    &&& old(reader).spec_remaining() < 8
                    &&& final(reader).pos() == old(reader).pos()
                },
            },
    {
        let ghost window = old(reader).data().subrange(old(reader).pos(), old(reader).end());
        proof {
            assert(window.len() == old(reader).spec_remaining());
            assert forall|i: int| 0 <= i < window.len() implies window[i] == old(
                reader,
            ).data()[old(reader).pos() + i] by {}
        }
        if reader.remaining() < 8 {
            return Err(InvalidPacket::Read(ReadError::Eof));
        }
        let source_port = match reader.read_u16(Endianness::NetworkEndian) {
            Ok(v) => v,
            Err(_) => {
                return Err(InvalidPacket::Read(ReadError::Eof));
            },
        };
        let destination_port = match reader.read_u16(Endianness::NetworkEndian) {
            Ok(v) => v,
            Err(_) => {
                return Err(InvalidPacket::Read(ReadError::Eof));
            },
        };
        let length = match reader.read_u16(Endianness::NetworkEndian) {
            Ok(v) => v,
            Err(_) => {
                return Err(InvalidPacket::Read(ReadError::Eof));
            },
        };
        let checksum = match reader.read_u16(Endianness::NetworkEndian) {
            Ok(v) => v,
            Err(_) => {
                return Err(InvalidPacket::Read(ReadError::Eof));
            },
        };
        let rest = reader.remaining();
        let payload = match reader.read_vec(rest) {
            Ok(v) => v,
            Err(_) => {
                return Err(InvalidPacket::Read(ReadError::Eof));
            },
        };
        proof {
            assert(payload@ =~= window.skip(8));
        }
        Ok(Packet { source_port, destination_port, length, checksum, payload })
    }

    /// Writes the datagram: header fields big-endian, then the payload.
    pub fn write(&self, writer: &mut Writer) -> (r: Result<(), Full>)
        requires
            old(writer).wf(),
        ensures
            final(writer).wf(),
            final(writer).bound() == old(writer).bound(),
            match r {
                Ok(()) => final(writer).written() == old(writer).written() + spec_packet_bytes(
                    *self,
                ),
                Err(_) => !old(writer).spec_has_space(spec_packet_bytes(*self).len() as int),
            },
    {
        let ghost before = old(writer).written();
        match writer.write_u16(self.source_port, Endianness::NetworkEndian) {
            Ok(()) => {},
            Err(f) => {
                return Err(f);
            },
        }
        match writer.write_u16(self.destination_port, Endianness::NetworkEndian) {
            Ok(()) => {},
            Err(f) => {
                return Err(f);
            },
        }
        match writer.write_u16(self.length, Endianness::NetworkEndian) {
            Ok(()) => {},
            Err(f) => {
                return Err(f);
            },
        }
        match writer.write_u16(self.checksum, Endianness::NetworkEndian) {
            Ok(()) => {},
            Err(f) => {
                return Err(f);
            },
        }
        match writer.write_bytes(self.payload.as_slice()) {
            Ok(()) => {},
            Err(f) => {
                return Err(f);
            },
        }
        proof {
            assert(writer.written() =~= before + spec_packet_bytes(*self));
        }
        Ok(())
    }
}

} // verus!
