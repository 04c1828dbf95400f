//! SOCKS5 server handshake: the no-authentication CONNECT subset of
//! RFC 1928.
//!
//! The handshake is parsed and answered over plain bytes: the caller reads
//! from the client socket, hands the bytes here, and writes the returned
//! reply back. An accepted request becomes an [`Incoming`] handle whose
//! two terminal operations, [`Incoming::accept`] and [`Incoming::reject`],
//! consume the handle, so at most one of the two replies can ever be
//! produced for a request — `lemma_reply_exclusive` shows the two replies
//! are distinguishable on the wire.

use vstd::prelude::*;
use crate::address::{Host, TcpAddress};
use crate::byte_io::{Endianness, Reader, spec_u16_bytes, spec_u16_value};

verus! {

broadcast use vstd::array::group_array_axioms;

/// The protocol version this server speaks.
pub const SOCKS_VERSION: u8 = 5;

/// The no-authentication method.
pub const METHOD_NO_AUTH: u8 = 0x00;

/// No offered method is acceptable.
pub const METHOD_NO_ACCEPTABLE: u8 = 0xFF;

/// The CONNECT command, the only one supported.
pub const CMD_CONNECT: u8 = 0x01;

/// Address type: IPv4, four octets.
pub const ATYP_IPV4: u8 = 0x01;

/// Address type: domain name, length-prefixed.
pub const ATYP_DOMAIN: u8 = 0x03;

/// Address type: IPv6, sixteen octets.
pub const ATYP_IPV6: u8 = 0x04;

/// Reply: succeeded.
pub const REP_SUCCEEDED: u8 = 0x00;

/// Reply: general server failure, the default rejection.
pub const REP_GENERAL_FAILURE: u8 = 0x01;

/// Reply: command not supported.
pub const REP_COMMAND_NOT_SUPPORTED: u8 = 0x07;

/// Reply: address type not supported.
pub const REP_ADDRESS_TYPE_NOT_SUPPORTED: u8 = 0x08;

/// SOCKS protocol misuse by the peer.
#[derive(Clone, Copy, Debug, PartialEq, Eq, Structural)]
pub enum SocksError {
    /// The stream ended inside a handshake message.
    Eof,
    /// The peer spoke a version other than 5.
    InvalidVersion { value: u8 },
    /// The request carried an address type other than the three known.
    UnsupportedAddressType { value: u8 },
}

/// The client's greeting: the authentication methods it offers.
#[derive(Clone, Debug)]
pub struct Greeting {
    pub methods: Vec<u8>,
}

/// Parses the greeting `version, nmethods, methods[]`.
pub fn parse_greeting(reader: &mut Reader<'_>) -> (r: Result<Greeting, SocksError>)
    requires
        old(reader).wf(),
    ensures
        final(reader).wf(),
        final(reader).data() == old(reader).data(),
        final(reader).end() == old(reader).end(),
        ({
            let window = old(reader).data().subrange(old(reader).pos(), old(reader).end());
            match r {
                Ok(g) => {
                    &&& window.len() >= 2
                    &&& window[0] == SOCKS_VERSION
                    &&& window.len() >= 2 + window[1]
                    &&& g.methods@ == window.subrange(2, 2 + window[1])
                    &&& final(reader).pos() == old(reader).pos() + 2 + window[1]
                },
                Err(e) => match e {
                    SocksError::Eof => window.len() < 2 || (window[0] == SOCKS_VERSION
                        && window.len() < 2 + window[1]),
                    SocksError::InvalidVersion { value } => {
                        &&& window.len() >= 1
                        &&& value == window[0]
                        &&& value != SOCKS_VERSION
                    },
                    SocksError::UnsupportedAddressType { .. } => false,
                },
            }
        }),
{
    let version = match reader.read_u8() {
        Ok(b) => b,
        Err(_) => {
            return Err(SocksError::Eof);
        },
    };
    if version != SOCKS_VERSION {
        return Err(SocksError::InvalidVersion { value: version });
    }
    let nmethods = match reader.read_u8() {
        Ok(b) => b,
        Err(_) => {
            return Err(SocksError::Eof);
        },
    };
    let methods = match reader.read_vec(nmethods as usize) {
        Ok(v) => v,
        Err(_) => {
            return Err(SocksError::Eof);
        },
    };
    Ok(Greeting { methods })
}

/// The two-byte reply to a greeting: no-authentication when offered, else
/// the no-acceptable-method sentinel, after which the connection closes.
pub fn greeting_reply(greeting: &Greeting) -> (r: [u8; 2])
    ensures
        r@ == seq![
            SOCKS_VERSION,
            if greeting.methods@.contains(METHOD_NO_AUTH) {
                METHOD_NO_AUTH
            } else {
                METHOD_NO_ACCEPTABLE
            },
        ],
{
    let mut offered = false;
    let mut i: usize = 0;
    #[verifier::loop_isolation(false)]
    while i < greeting.methods.len()
        invariant
            i <= greeting.methods@.len(),
            offered == exists|j: int| 0 <= j < i && greeting.methods@[j] == METHOD_NO_AUTH,
        decreases greeting.methods@.len() - i,
    {
        if greeting.methods[i] == METHOD_NO_AUTH {
            offered = true;
            proof {
                assert(greeting.methods@[i as int] == METHOD_NO_AUTH);
            }
        }
        i = i + 1;
    }
    if offered {
        [SOCKS_VERSION, METHOD_NO_AUTH]
    } else {
        [SOCKS_VERSION, METHOD_NO_ACCEPTABLE]
    }
}

/// A parsed CONNECT-style request: the command byte and the destination.
#[derive(Clone, Debug)]
pub struct Request {
    pub command: u8,
    pub destination: TcpAddress,
}

/// Parses the request `version, cmd, rsv, atyp, dst.addr, dst.port`.
pub fn parse_request(reader: &mut Reader<'_>) -> (r: Result<Request, SocksError>)
    requires
        old(reader).wf(),
    ensures
        final(reader).wf(),
        final(reader).data() == old(reader).data(),
        final(reader).end() == old(reader).end(),
        ({
            let window = old(reader).data().subrange(old(reader).pos(), old(reader).end());
            match r {
                Ok(q) => {
                    &&& window.len() >= 4
                    &&& window[0] == SOCKS_VERSION
                    &&& q.command == window[1]
                    &&& match window[3] {
                        ATYP_IPV4 => {
                            &&& window.len() >= 10
                            &&& q.destination.host matches Host::Ipv4(octets) && octets@
                                == window.subrange(4, 8)
                            &&& q.destination.port == spec_u16_value(window[8], window[9], true)
                            &&& final(reader).pos() == old(reader).pos() + 10
                        },
                        ATYP_DOMAIN => {
                            &&& window.len() >= 7 + window[4]
                            &&& q.destination.host matches Host::Hostname(name) && name@
                                == window.subrange(5, 5 + window[4])
                            &&& q.destination.port == spec_u16_value(
                                window[5 + window[4]],
                                window[6 + window[4]],
                                true,
                            )
                            &&& final(reader).pos() == old(reader).pos() + 7 + window[4]
                        },
                        ATYP_IPV6 => {
                            &&& window.len() >= 22
                            &&& q.destination.host matches Host::Ipv6(octets) && octets@
                                == window.subrange(4, 20)
                            &&& q.destination.port == spec_u16_value(window[20], window[21], true)
                            &&& final(reader).pos() == old(reader).pos() + 22
                        },
                        _ => false,
                    }
                },
                Err(e) => match e {
                    SocksError::Eof => window.len() < 4 || (window[0] == SOCKS_VERSION && match window[3] {
                        ATYP_IPV4 => window.len() < 10,
                        ATYP_DOMAIN => window.len() < 7 + window[4],
                        ATYP_IPV6 => window.len() < 22,
                        _ => false,
                    }),
                    SocksError::InvalidVersion { value } => {
                        &&& window.len() >= 1
                        &&& value == window[0]
                        &&& value != SOCKS_VERSION
                    },
                    SocksError::UnsupportedAddressType { value } => {
                        &&& window.len() >= 4
                        &&& window[0] == SOCKS_VERSION
                        &&& value == window[3]
                        &&& value != ATYP_IPV4
                        &&& value != ATYP_DOMAIN
                        &&& value != ATYP_IPV6
                    },
                },
            }
        }),
{
    let version = match reader.read_u8() {
        Ok(b) => b,
        Err(_) => {
            return Err(SocksError::Eof);
        },
    };
    if version != SOCKS_VERSION {
        return Err(SocksError::InvalidVersion { value: version });
    }
    let command = match reader.read_u8() {
        Ok(b) => b,
        Err(_) => {
            return Err(SocksError::Eof);
        },
    };
    let _reserved = match reader.read_u8() {
        Ok(b) => b,
        Err(_) => {
            return Err(SocksError::Eof);
        },
    };
    let atyp = match reader.read_u8() {
        Ok(b) => b,
        Err(_) => {
            return Err(SocksError::Eof);
        },
    };
    let host = if atyp == ATYP_IPV4 {
        let mut octets = [0u8; 4];
        let mut i: usize = 0;
        #[verifier::loop_isolation(false)]
        while i < 4
            invariant
                i <= 4,
                reader.wf(),
                reader.data() == old(reader).data(),
                reader.end() == old(reader).end(),
                reader.pos() == old(reader).pos() + 4 + i,
                reader.end() - reader.pos() >= 0,
                forall|j: int|
                    0 <= j < i ==> octets@[j] == old(reader).data()[old(reader).pos() + 4 + j],
            decreases 4 - i,
        {
            let b = match reader.read_u8() {
                Ok(b) => b,
                Err(_) => {
                    return Err(SocksError::Eof);
                },
            };
            octets[i] = b;
            i = i + 1;
        }
        Host::Ipv4(octets)
    } else if atyp == ATYP_DOMAIN {
        let len = match reader.read_u8() {
            Ok(b) => b,
            Err(_) => {
                return Err(SocksError::Eof);
            },
        };
        let name = match reader.read_vec(len as usize) {
            Ok(v) => v,
            Err(_) => {
                return Err(SocksError::Eof);
            },
        };
        Host::Hostname(name)
    } else if atyp == ATYP_IPV6 {
        let octets_vec = match reader.read_vec(16) {
            Ok(v) => v,
            Err(_) => {
                return Err(SocksError::Eof);
            },
        };
        let mut octets = [0u8; 16];
        let mut i: usize = 0;
        #[verifier::loop_isolation(false)]
        while i < 16
            invariant
                i <= 16,
                octets_vec@.len() == 16,
                forall|j: int| 0 <= j < i ==> octets@[j] == octets_vec@[j],
            decreases 16 - i,
        {
            octets[i] = octets_vec[i];
            i = i + 1;
        }
        proof {
            assert(octets@ =~= octets_vec@);
        }
        Host::Ipv6(octets)
    } else {
        return Err(SocksError::UnsupportedAddressType { value: atyp });
    };
    let port = match reader.read_u16(Endianness::NetworkEndian) {
        Ok(v) => v,
        Err(_) => {
            return Err(SocksError::Eof);
        },
    };
    proof {
        let window = old(reader).data().subrange(old(reader).pos(), old(reader).end());
        if atyp == ATYP_IPV4 {
            assert(host matches Host::Ipv4(o) && o@ =~= window.subrange(4, 8));
        }
        if atyp == ATYP_DOMAIN {
            assert(host matches Host::Hostname(name) && name@ =~= window.subrange(
                5,
                5 + window[4],
            ));
        }
        if atyp == ATYP_IPV6 {
            assert(host matches Host::Ipv6(o) && o@ =~= window.subrange(4, 20));
        }
    }
    Ok(Request { command, destination: TcpAddress { host, port } })
}

/// The wire layout of a host in a reply: the address type byte, then the
/// address.
pub open spec fn spec_host_bytes(h: Host) -> Seq<u8> {
    match h {
        Host::Hostname(name) => seq![ATYP_DOMAIN, name@.len() as u8] + name@,
        Host::Ipv4(octets) => seq![ATYP_IPV4] + octets@,
        Host::Ipv6(octets) => seq![ATYP_IPV6] + octets@,
    }
}

/// The wire layout of a reply: version, reply code, reserved zero, then
/// the bound address and port.
pub open spec fn spec_reply_bytes(rep: u8, bound: TcpAddress) -> Seq<u8> {
    seq![SOCKS_VERSION, rep, 0u8] + spec_host_bytes(bound.host) + spec_u16_bytes(bound.port, true)
}

/// Whether `bytes` is the reply that accepts a request.
pub open spec fn spec_is_accept_reply(bytes: Seq<u8>) -> bool {
    bytes.len() >= 2 && bytes[0] == SOCKS_VERSION && bytes[1] == REP_SUCCEEDED
}

/// Whether `bytes` is a reply that rejects a request.
pub open spec fn spec_is_reject_reply(bytes: Seq<u8>) -> bool {
    bytes.len() >= 2 && bytes[0] == SOCKS_VERSION && bytes[1] != REP_SUCCEEDED
}

/// On the wire, every reply is exactly one of the two: an accept and a
/// reject can never be confused.
pub proof fn lemma_reply_exclusive(rep: u8, bound: TcpAddress)
    ensures
        spec_is_accept_reply(spec_reply_bytes(rep, bound)) <==> rep == REP_SUCCEEDED,
        spec_is_reject_reply(spec_reply_bytes(rep, bound)) <==> rep != REP_SUCCEEDED,
        spec_is_accept_reply(spec_reply_bytes(rep, bound)) != spec_is_reject_reply(
            spec_reply_bytes(rep, bound),
        ),
{
}

/// Encodes a reply with the given code and bound address.
fn encode_reply(rep: u8, bound: &TcpAddress) -> (r: Vec<u8>)
    requires
        bound.host matches Host::Hostname(name) ==> name@.len() <= 255,
    ensures
        r@ == spec_reply_bytes(rep, *bound),
{
    let mut out: Vec<u8> = Vec::new();
    out.push(SOCKS_VERSION);
    out.push(rep);
    out.push(0u8);
    match &bound.host {
        Host::Hostname(name) => {
            out.push(ATYP_DOMAIN);
            out.push(name.len() as u8);
            let mut i: usize = 0;
            let ghost prefix = out@;
            #[verifier::loop_isolation(false)]
            while i < name.len()
                invariant
                    i <= name@.len(),
                    out@ == prefix + name@.subrange(0, i as int),
                decreases name@.len() - i,
            {
                out.push(name[i]);
                i = i + 1;
                proof {
                    assert(out@ =~= prefix + name@.subrange(0, i as int));
                }
            }
            proof {
                assert(name@.subrange(0, name@.len() as int) =~= name@);
            }
        },
        Host::Ipv4(octets) => {
            out.push(ATYP_IPV4);
            out.push(octets[0]);
            out.push(octets[1]);
            out.push(octets[2]);
            out.push(octets[3]);
        },
        Host::Ipv6(octets) => {
            out.push(ATYP_IPV6);
            let mut i: usize = 0;
            let ghost prefix = out@;
            #[verifier::loop_isolation(false)]
            while i < 16
                invariant
                    i <= 16,
                    out@ == prefix + octets@.subrange(0, i as int),
                decreases 16 - i,
            {
                out.push(octets[i]);
                i = i + 1;
                proof {
                    assert(out@ =~= prefix + octets@.subrange(0, i as int));
                }
            }
            proof {
                assert(octets@.subrange(0, 16) =~= octets@);
            }
        },
    }
    out.push((bound.port / 256) as u8);
    out.push((bound.port % 256) as u8);
    proof {
        assert(out@ =~= spec_reply_bytes(rep, *bound));
    }
    out
}

/// An accepted SOCKS request awaiting its terminal reply. Exactly one of
/// [`Incoming::accept`] and [`Incoming::reject`] must be called; both
/// consume the handle, so a second reply cannot be produced.
#[derive(Clone, Debug)]
pub struct Incoming {
    pub destination: TcpAddress,
}

impl Incoming {
    /// The destination the client asked to connect to.
    pub fn destination_address(&self) -> (r: &TcpAddress)
        ensures
            r == &self.destination,
    {
        &self.destination
    }

    /// Accepts the request: the returned bytes are the success reply that
    /// carries the locally bound address, and the raw socket is handed
    /// over afterwards.
    pub fn accept(self, bound_address: &TcpAddress) -> (r: Vec<u8>)
        requires
            bound_address.host matches Host::Hostname(name) ==> name@.len() <= 255,
        ensures
            r@ == spec_reply_bytes(REP_SUCCEEDED, *bound_address),
            spec_is_accept_reply(r@),
            !spec_is_reject_reply(r@),
    {
        encode_reply(REP_SUCCEEDED, bound_address)
    }

    /// Rejects the request with the given reply code, or the general
    /// failure code when none is given; the connection closes afterwards.
    pub fn reject(self, reason: Option<u8>) -> (r: Vec<u8>)
        ensures
            ({
                let rep = match reason {
                    Some(code) => if code == REP_SUCCEEDED {
                        REP_GENERAL_FAILURE
                    } else {
                        code
                    },
                    None => REP_GENERAL_FAILURE,
                };
                r@ == spec_reply_bytes(
                    rep,
                    TcpAddress { host: Host::Ipv4([0, 0, 0, 0]), port: 0 },
                )
            }),
            spec_is_reject_reply(r@),
            !spec_is_accept_reply(r@),
    {
        let rep = match reason {
            Some(code) => {
                if code == REP_SUCCEEDED {
                    // A rejection must not read as a success on the wire.
                    REP_GENERAL_FAILURE
                } else {
                    code
                }
            },
            None => REP_GENERAL_FAILURE,
        };
        encode_reply(rep, &TcpAddress { host: Host::Ipv4([0, 0, 0, 0]), port: 0 })
    }
}

} // verus!
