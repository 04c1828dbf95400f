//! Per-connection proxy decisions.
//!
//! The orchestrator accepts a connection from an ingress, asks the target
//! filter whether the destination is interesting, and then either
//! intercepts the connection — decrypting TLS when the destination port
//! says so — or passes the bytes through untouched. The decisions are
//! here; the sockets, tasks and TLS handshakes around them are not.

use vstd::prelude::*;
use crate::address::{TcpAddress, spec_address_eq};

verus! {

/// A target filter deciding which destination addresses are intercepted.
#[derive(Clone, Debug)]
pub enum Filter {
    /// Intercept every destination on a proxied port.
    All,
    /// Intercept only the listed destinations.
    Targets(Vec<TcpAddress>),
}

impl Filter {
    /// Whether the filter selects `address`: the port must be one of the
    /// two proxied HTTP ports, and the address must be listed unless the
    /// filter matches everything.
    pub open spec fn spec_matches(self, address: TcpAddress) -> bool {
        &&& (address.port == 80 || address.port == 443)
        &&& match self {
            Filter::All => true,
            Filter::Targets(targets) => exists|i: int|
                0 <= i < targets@.len() && spec_address_eq(targets@[i], address),
        }
    }

    /// Decides whether `address` is intercepted. Ports other than 80 and
    /// 443 are never intercepted, whatever the filter holds.
    #[verifier::loop_isolation(false)]
    pub fn matches(&self, address: &TcpAddress) -> (r: bool)
        ensures
            r == self.spec_matches(*address),
    {
        if address.port != 80 && address.port != 443 {
            return false;
        }
        match self {
            Filter::All => true,
            Filter::Targets(targets) => {
                let mut i: usize = 0;
                while i < targets.len()
                    invariant
                        i <= targets@.len(),
                        forall|j: int| 0 <= j < i ==> !spec_address_eq(targets@[j], *address),
                    decreases targets@.len() - i,
                {
                    if targets[i].eq(address) {
                        proof {
                            assert(spec_address_eq(targets@[i as int], *address));
                        }
                        return true;
                    }
                    i = i + 1;
                }
                false
            },
        }
    }

    /// Builds the filter the orchestrator starts with: match everything
    /// when no target was named, else exactly the named targets.
    pub fn from_targets(targets: Vec<TcpAddress>) -> (r: Filter)
        ensures
            targets@.len() == 0 ==> r == Filter::All,
            targets@.len() > 0 ==> r == Filter::Targets(targets),
    {
        if targets.len() == 0 {
            Filter::All
        } else {
            Filter::Targets(targets)
        }
    }
}

/// What a connection task does with an accepted pair of streams.
#[derive(Clone, Copy, Debug, PartialEq, Eq, Structural)]
pub enum ProxyAction {
    /// Terminate and re-originate the connection, decrypting TLS when the
    /// destination port calls for it, and proxy HTTP requests.
    Intercept { decrypt_tls: bool },
    /// Copy bytes in both directions without touching them.
    Passthrough,
}

/// Decides how to treat a connection: filtered destinations are
/// intercepted, with TLS decryption exactly on port 443; everything else
/// is passed through untouched.
pub fn plan(filter: &Filter, destination: &TcpAddress) -> (a: ProxyAction)
    ensures
        filter.spec_matches(*destination) ==> a == (ProxyAction::Intercept {
            decrypt_tls: destination.port == 443,
        }),
        !filter.spec_matches(*destination) ==> a == ProxyAction::Passthrough,
{
    if filter.matches(destination) {
        ProxyAction::Intercept { decrypt_tls: destination.port == 443 }
    } else {
        ProxyAction::Passthrough
    }
}

/// The layer that copies bytes in both directions without touching them.
#[derive(Clone, Copy, Debug)]
pub struct Passthrough;

impl Passthrough {
    /// Hands a chunk on byte-exact, in either direction.
    pub fn forward(&self, chunk: &Vec<u8>) -> (out: Vec<u8>)
        ensures
            out@ == chunk@,
    {
        let mut out: Vec<u8> = Vec::new();
        let mut i: usize = 0;
        while i < chunk.len()
            invariant
                i <= chunk@.len(),
                out@ == chunk@.subrange(0, i as int),
            decreases chunk@.len() - i,
        {
            out.push(chunk[i]);
            i = i + 1;
            proof {
                assert(out@ =~= chunk@.subrange(0, i as int));
            }
        }
        proof {
            assert(chunk@.subrange(0, chunk@.len() as int) =~= chunk@);
        }
        out
    }
}

/// How the packet-capture ingress is brought up, decided from the
/// command-line switches and whether the named interface exists.
#[derive(Clone, Debug)]
pub enum PcapPlan {
    /// Packet capture was not asked for.
    Disabled,
    /// List the capture-capable interfaces and exit successfully.
    ListInterfaces,
    /// Capture on the named interface.
    Capture(Vec<u8>),
}

/// Decides the packet-capture bring-up: disabled when not asked for; a
/// listing when no interface was named or the named one does not exist;
/// else capture on the named interface.
pub fn plan_pcap(enabled: bool, interface: Option<Vec<u8>>, interface_exists: bool) -> (p: PcapPlan)
    ensures
        !enabled ==> p == PcapPlan::Disabled,
        enabled && interface is None ==> p == PcapPlan::ListInterfaces,
        enabled && interface is Some && !interface_exists ==> p == PcapPlan::ListInterfaces,
        enabled && interface is Some && interface_exists ==> p == PcapPlan::Capture(
            interface->Some_0,
        ),
{
    if !enabled {
        PcapPlan::Disabled
    } else {
        match interface {
            None => PcapPlan::ListInterfaces,
            Some(name) => {
                if interface_exists {
                    PcapPlan::Capture(name)
                } else {
                    PcapPlan::ListInterfaces
                }
            },
        }
    }
}

} // verus!
