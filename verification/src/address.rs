//! Canonical destination addresses.

use vstd::prelude::*;

verus! {

broadcast use vstd::array::group_array_axioms;

/// The host part of a destination: a hostname as raw bytes, or an IP
/// address.
#[derive(Clone, Debug)]
pub enum Host {
    Hostname(Vec<u8>),
    Ipv4([u8; 4]),
    Ipv6([u8; 16]),
}

/// A destination address: host and port. Equality is structural on the
/// host bytes and the port.
#[derive(Clone, Debug)]
pub struct TcpAddress {
    pub host: Host,
    pub port: u16,
}

/// Structural equality of hosts, over the hostname bytes or the address
/// octets.
pub open spec fn spec_host_eq(a: Host, b: Host) -> bool {
    match (a, b) {
        (Host::Hostname(x), Host::Hostname(y)) => x@ == y@,
        (Host::Ipv4(x), Host::Ipv4(y)) => x@ == y@,
        (Host::Ipv6(x), Host::Ipv6(y)) => x@ == y@,
        _ => false,
    }
}

/// Structural equality of addresses: equal hosts and equal ports.
pub open spec fn spec_address_eq(a: TcpAddress, b: TcpAddress) -> bool {
    spec_host_eq(a.host, b.host) && a.port == b.port
}

/// Compares two fixed-size byte arrays.
fn eq_octets<const N: usize>(a: &[u8; N], b: &[u8; N]) -> (r: bool)
    ensures
        r == (a@ == b@),
{
    let mut i: usize = 0;
    while i < N
        invariant
            i <= N,
            forall|j: int| 0 <= j < i ==> a@[j] == b@[j],
        decreases N - i,
    {
        if a[i] != b[i] {
            return false;
        }
        i = i + 1;
    }
    proof {
        assert(a@ =~= b@);
    }
    true
}

impl PartialEq for Host {
    fn eq(&self, other: &Host) -> (r: bool) {
        match (self, other) {
            (Host::Hostname(x), Host::Hostname(y)) => eq_byte_vecs(x, y),
            (Host::Ipv4(x), Host::Ipv4(y)) => eq_octets(x, y),
            (Host::Ipv6(x), Host::Ipv6(y)) => eq_octets(x, y),
            _ => false,
        }
    }
}

impl vstd::std_specs::cmp::PartialEqSpecImpl for Host {
    open spec fn obeys_eq_spec() -> bool {
        true
    }

    open spec fn eq_spec(&self, other: &Host) -> bool {
        spec_host_eq(*self, *other)
    }
}

impl PartialEq for TcpAddress {
    fn eq(&self, other: &TcpAddress) -> (r: bool) {
        self.host == other.host && self.port == other.port
    }
}

impl vstd::std_specs::cmp::PartialEqSpecImpl for TcpAddress {
    open spec fn obeys_eq_spec() -> bool {
        true
    }

    open spec fn eq_spec(&self, other: &TcpAddress) -> bool {
        spec_address_eq(*self, *other)
    }
}

/// A copy of a byte buffer.
pub fn clone_bytes(v: &Vec<u8>) -> (r: Vec<u8>)
    ensures
        r@ == v@,
{
    let mut out: Vec<u8> = Vec::new();
    let mut i: usize = 0;
    while i < v.len()
        invariant
            i <= v@.len(),
            out@ == v@.subrange(0, i as int),
        decreases v@.len() - i,
    {
        out.push(v[i]);
        i = i + 1;
        proof {
            assert(out@ =~= v@.subrange(0, i as int));
        }
    }
    proof {
        assert(v@.subrange(0, v@.len() as int) =~= v@);
    }
    out
}

/// Compares two byte buffers.
pub fn eq_byte_vecs(a: &Vec<u8>, b: &Vec<u8>) -> (r: bool)
    ensures
        r == (a@ == b@),
{
    if a.len() != b.len() {
        proof {
            assert(a@ != b@);
        }
        return false;
    }
    let mut i: usize = 0;
    while i < a.len()
        invariant
            i <= a@.len(),
            a@.len() == b@.len(),
            forall|j: int| 0 <= j < i ==> a@[j] == b@[j],
        decreases a@.len() - i,
    {
        if a[i] != b[i] {
            return false;
        }
        i = i + 1;
    }
    proof {
        assert(a@ =~= b@);
    }
    true
}

} // verus!
