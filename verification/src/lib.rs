//! Core of an intercepting person-in-the-middle proxy.
//!
//! The library holds the verified logic of the proxy: the byte reader and
//! writer used by the wire-format code, IPv4 header and packet codecs, the
//! SOCKS5 handshake, the filter expression engine with its three-valued
//! continuous evaluation, the interception planner, the leaf-certificate
//! cache with its single-flight mint protocol, and the flow event bus.
//! Socket I/O, TLS handshakes and task scheduling live outside the library.

use vstd::prelude::*;

pub mod address;
pub mod bool_expr;
pub mod byte_io;
pub mod filter;
pub mod flow;
pub mod http;
pub mod proxy;
pub mod socks;
pub mod tls;
pub mod ipv4;
pub mod udp;

verus! {

/// Top-level error taxonomy of the proxy.
#[derive(Clone, Copy, Debug, PartialEq, Eq, Structural)]
pub enum Error {
    /// An underlying socket or file error.
    Io,
    /// A handshake, certificate or mint failure.
    Tls,
    /// An HTTP framing or protocol violation.
    Http,
    /// SOCKS or HTTP protocol misuse by the peer.
    ProtocolViolation,
    /// Shutdown was observed.
    Cancelled,
}

} // verus!
