//! TLS context state: the root certificate authority lifecycle decision,
//! the per-SNI leaf-certificate cache, and the single-flight mint
//! protocol.
//!
//! The context decides; the handshakes, key generation and signing happen
//! at the proxy's edge and hand their results back. A mint for one SNI is
//! single-flight: `begin_mint` makes exactly one requester the leader
//! while the SNI is in flight, everyone else follows and waits, and
//! `finish_mint` publishes one cache entry that every later lookup of that
//! SNI reads — `lemma_shared_leaf` shows the cache can hold only one entry
//! per SNI.

use vstd::prelude::*;
use crate::byte_io::{Endianness, Reader, spec_u16_value};

verus! {

/// What to do about the persisted root certificate authority: load the
/// two files when both are present, else generate a fresh root. Existing
/// files are never overwritten.
#[derive(Clone, Copy, Debug, PartialEq, Eq, Structural)]
pub enum RootCaAction {
    LoadExisting,
    Generate,
}

/// Decides the root lifecycle from which of the two files are present.
pub fn plan_root_ca(certificate_present: bool, key_present: bool) -> (r: RootCaAction)
    ensures
        r == RootCaAction::LoadExisting <==> (certificate_present && key_present),
{
    if certificate_present && key_present {
        RootCaAction::LoadExisting
    } else {
        RootCaAction::Generate
    }
}

/// The server name the extension list starting at `pos` (and bounded by
/// `end`) carries: the first server-name extension's first entry, read as
/// the reading code reads it; nothing where the list ends first, an entry
/// is cut short, or no such extension stands before `end`.
pub open spec fn spec_find_sni(record: Seq<u8>, pos: int, end: int) -> Option<Seq<u8>>
    decreases end - pos,
{
    if pos + 4 > end {
        None
    } else {
        let extension_type = spec_u16_value(record[pos], record[pos + 1], true);
        let extension_length = spec_u16_value(record[pos + 2], record[pos + 3], true) as int;
        if end - (pos + 4) < extension_length {
            None
        } else if extension_type == 0 {
            let w0 = pos + 4;
            let w1 = pos + 4 + extension_length;
            if w1 - w0 < 2 {
                None
            } else if w1 - (w0 + 2) < 1 {
                None
            } else if record[w0 + 2] != 0 {
                None
            } else if w1 - (w0 + 3) < 2 {
                None
            } else {
                let name_length = spec_u16_value(record[w0 + 3], record[w0 + 4], true) as int;
                if w1 - (w0 + 5) < name_length {
                    None
                } else {
                    Some(record.subrange(w0 + 5, w0 + 5 + name_length))
                }
            }
        } else {
            spec_find_sni(record, pos + 4 + extension_length, end)
        }
    }
}

/// The server name a prefetched ClientHello record announces: the record
/// and handshake headers, the fixed fields, and the three variable-length
/// runs are walked exactly as the reading code walks them, and the
/// extension list is searched for the first server-name entry. Nothing
/// comes out of a record that is not a ClientHello or ends early.
pub open spec fn spec_sni_of(record: Seq<u8>) -> Option<Seq<u8>> {
    if record.len() < 5 || record[0] != 22 {
        None
    } else {
        let record_length = spec_u16_value(record[3], record[4], true) as int;
        if record.len() - 5 < record_length {
            None
        } else {
            let body_end = 5 + record_length;
            if body_end - 5 < 1 || record[5] != 1 {
                None
            } else if body_end - 6 < 3 || body_end - 9 < 34 || body_end - 43 < 1 {
                None
            } else {
                let session_id_length = record[43] as int;
                let after_session = 44 + session_id_length;
                if body_end - 44 < session_id_length || body_end - after_session < 2 {
                    None
                } else {
                    let cipher_suites_length = spec_u16_value(
                        record[after_session],
                        record[after_session + 1],
                        true,
                    ) as int;
                    let after_suites = after_session + 2 + cipher_suites_length;
                    if body_end - (after_session + 2) < cipher_suites_length || body_end
                        - after_suites < 1 {
                        None
                    } else {
                        let compression_length = record[after_suites] as int;
                        let after_compression = after_suites + 1 + compression_length;
                        if body_end - (after_suites + 1) < compression_length || body_end
                            - after_compression < 2 {
                            None
                        } else {
                            let extensions_length = spec_u16_value(
                                record[after_compression],
                                record[after_compression + 1],
                                true,
                            ) as int;
                            let extensions_start = after_compression + 2;
                            if body_end - extensions_start < extensions_length {
                                None
                            } else {
                                spec_find_sni(
                                    record,
                                    extensions_start,
                                    extensions_start + extensions_length,
                                )
                            }
                        }
                    }
                }
            }
        }
    }
}

/// A TLS-path failure.
#[derive(Clone, Copy, Debug, PartialEq, Eq, Structural)]
pub enum TlsError {
    /// The handshake toward the client failed.
    ServerHandshake,
    /// The handshake toward the origin failed.
    ClientHandshake,
    /// The ClientHello carries no usable server name.
    SniAbsent,
    /// The leaf could not be minted.
    MintFailed,
}

/// Reads the server name out of a prefetched ClientHello record without
/// consuming the stream: the record must be a TLS handshake record holding
/// a ClientHello, and the name comes out of its server-name extension
/// byte-exact. Anything else is reported as an absent name.
#[verifier::loop_isolation(false)]
pub fn peek_sni(record: &[u8]) -> (r: Result<Vec<u8>, TlsError>)
    ensures
        match r {
            Ok(name) => spec_sni_of(record@) == Some(name@),
            Err(e) => {
                &&& e == TlsError::SniAbsent
                &&& spec_sni_of(record@) is None
            },
        },
{
    let mut reader = Reader::new(record);
    let content_type = match reader.read_u8() {
        Ok(b) => b,
        Err(_) => {
            return Err(TlsError::SniAbsent);
        },
    };
    if content_type != 22 {
        // Not a handshake record.
        return Err(TlsError::SniAbsent);
    }
    let _protocol_version = match reader.read_u16(Endianness::NetworkEndian) {
        Ok(v) => v,
        Err(_) => {
            return Err(TlsError::SniAbsent);
        },
    };
    let record_length = match reader.read_u16(Endianness::NetworkEndian) {
        Ok(v) => v,
        Err(_) => {
            return Err(TlsError::SniAbsent);
        },
    };
    let mut body = match reader.limit(record_length as usize) {
        Ok(sub) => sub,
        Err(_) => {
            return Err(TlsError::SniAbsent);
        },
    };
    let handshake_type = match body.read_u8() {
        Ok(b) => b,
        Err(_) => {
            return Err(TlsError::SniAbsent);
        },
    };
    if handshake_type != 1 {
        // Not a ClientHello.
        return Err(TlsError::SniAbsent);
    }
    // The 24-bit handshake length, then the client version and random.
    if body.read_vec(3).is_err() {
        return Err(TlsError::SniAbsent);
    }
    if body.read_vec(34).is_err() {
        return Err(TlsError::SniAbsent);
    }
    let session_id_length = match body.read_u8() {
        Ok(b) => b,
        Err(_) => {
            return Err(TlsError::SniAbsent);
        },
    };
    if body.read_vec(session_id_length as usize).is_err() {
        return Err(TlsError::SniAbsent);
    }
    let cipher_suites_length = match body.read_u16(Endianness::NetworkEndian) {
        Ok(v) => v,
        Err(_) => {
            return Err(TlsError::SniAbsent);
        },
    };
    if body.read_vec(cipher_suites_length as usize).is_err() {
        return Err(TlsError::SniAbsent);
    }
    let compression_length = match body.read_u8() {
        Ok(b) => b,
        Err(_) => {
            return Err(TlsError::SniAbsent);
        },
    };
    if body.read_vec(compression_length as usize).is_err() {
        return Err(TlsError::SniAbsent);
    }
    let extensions_length = match body.read_u16(Endianness::NetworkEndian) {
        Ok(v) => v,
        Err(_) => {
            return Err(TlsError::SniAbsent);
        },
    };
    let mut extensions = match body.limit(extensions_length as usize) {
        Ok(sub) => sub,
        Err(_) => {
            return Err(TlsError::SniAbsent);
        },
    };
    proof {
        assert(spec_sni_of(record@) == spec_find_sni(
            record@,
            extensions.pos(),
            extensions.end(),
        ));
    }
    while extensions.remaining() >= 4
        invariant
            extensions.wf(),
            extensions.data() == record@,
            spec_sni_of(record@) == spec_find_sni(record@, extensions.pos(), extensions.end()),
        decreases extensions.spec_remaining(),
    {
        let extension_type = match extensions.read_u16(Endianness::NetworkEndian) {
            Ok(v) => v,
            Err(_) => {
                return Err(TlsError::SniAbsent);
            },
        };
        let extension_length = match extensions.read_u16(Endianness::NetworkEndian) {
            Ok(v) => v,
            Err(_) => {
                return Err(TlsError::SniAbsent);
            },
        };
        let mut extension = match extensions.limit(extension_length as usize) {
            Ok(sub) => sub,
            Err(_) => {
                return Err(TlsError::SniAbsent);
            },
        };
        if extension_type == 0 {
            // The server-name extension: a list whose first entry of type
            // zero is the hostname.
            if extension.read_u16(Endianness::NetworkEndian).is_err() {
                return Err(TlsError::SniAbsent);
            }
            let name_type = match extension.read_u8() {
                Ok(b) => b,
                Err(_) => {
                    return Err(TlsError::SniAbsent);
                },
            };
            if name_type != 0 {
                return Err(TlsError::SniAbsent);
            }
            let name_length = match extension.read_u16(Endianness::NetworkEndian) {
                Ok(v) => v,
                Err(_) => {
                    return Err(TlsError::SniAbsent);
                },
            };
            let ghost start = extension.pos();
            let name = match extension.read_vec(name_length as usize) {
                Ok(v) => v,
                Err(_) => {
                    return Err(TlsError::SniAbsent);
                },
            };
            proof {
                assert(name@ == record@.subrange(start, start + name@.len()));
                assert(spec_sni_of(record@) == Some(name@));
            }
            return Ok(name);
        }
    }
    Err(TlsError::SniAbsent)
}

/// What becomes of an accepted stream pair: forwarded untouched, or
/// terminated on both sides with TLS.
#[derive(Clone, Copy, Debug, PartialEq, Eq, Structural)]
pub enum DecryptPlan<S> {
    /// TLS decryption is off: the pair is handed back unchanged.
    Forward(S, S),
    /// TLS decryption is on: terminate toward the client with a minted
    /// leaf and re-originate toward the destination.
    Terminate(S, S),
}

/// Decides what happens to a stream pair: with decryption off the very
/// pair is handed back, byte streams untouched; with it on, the same pair
/// goes to TLS termination. The handshakes themselves happen at the edge.
pub fn maybe_decrypt<S>(incoming: S, outgoing: S, should_decrypt: bool) -> (r: DecryptPlan<S>)
    ensures
        !should_decrypt ==> r == DecryptPlan::Forward(incoming, outgoing),
        should_decrypt ==> r == DecryptPlan::Terminate(incoming, outgoing),
{
    if should_decrypt {
        DecryptPlan::Terminate(incoming, outgoing)
    } else {
        DecryptPlan::Forward(incoming, outgoing)
    }
}

/// One cached leaf certificate: the SNI it was minted for, its encoded
/// bytes, and when it expires.
#[derive(Clone, Debug)]
pub struct LeafEntry {
    pub sni: Vec<u8>,
    pub certificate: Vec<u8>,
    pub not_after: u64,
}

/// What a cache lookup says about an SNI.
#[derive(Clone, Debug)]
pub enum CacheDecision {
    /// A cached leaf that stays valid past the renewal window.
    Fresh(Vec<u8>),
    /// No usable leaf: one must be minted.
    NeedsMint,
}

/// Whether this requester mints or waits.
#[derive(Clone, Copy, Debug, PartialEq, Eq, Structural)]
pub enum MintTicket {
    /// This requester runs the mint.
    Lead,
    /// A mint for the same SNI is in flight; wait for its completion.
    Follow,
}

/// The shared TLS context state: the leaf cache and the set of SNIs whose
/// mint is in flight.
#[derive(Debug)]
pub struct Context {
    entries: Vec<LeafEntry>,
    in_flight: Vec<Vec<u8>>,
}

impl Context {
    /// The cached entries.
    pub closed spec fn spec_entries(self) -> Seq<LeafEntry> {
        self.entries@
    }

    /// The SNIs whose mint is in flight.
    pub closed spec fn spec_in_flight(self) -> Seq<Seq<u8>> {
        self.in_flight@.map_values(|v: Vec<u8>| v@)
    }

    /// Whether a mint for `sni` is in flight.
    pub open spec fn spec_minting(self, sni: Seq<u8>) -> bool {
        exists|i: int|
            0 <= i < self.spec_in_flight().len() && (#[trigger] self.spec_in_flight()[i]) == sni
    }

    /// Whether the cache holds an entry for `sni`.
    pub open spec fn spec_cached(self, sni: Seq<u8>) -> bool {
        exists|i: int|
            0 <= i < self.spec_entries().len() && (#[trigger] self.spec_entries()[i]).sni@ == sni
    }

    /// The cache holds at most one entry per SNI, and at most one mint per
    /// SNI is in flight.
    pub open spec fn spec_wf(self) -> bool {
        &&& forall|i: int, j: int|
            0 <= i < self.spec_entries().len() && 0 <= j < self.spec_entries().len() && i != j
                ==> (#[trigger] self.spec_entries()[i]).sni@ != (
            #[trigger] self.spec_entries()[j]).sni@
        &&& forall|i: int, j: int|
            0 <= i < self.spec_in_flight().len() && 0 <= j < self.spec_in_flight().len() && i != j
                ==> (#[trigger] self.spec_in_flight()[i]) != (#[trigger] self.spec_in_flight()[j])
    }

    /// An empty context: nothing cached, nothing in flight.
    pub fn new() -> (r: Context)
        ensures
            r.spec_wf(),
            r.spec_entries().len() == 0,
            r.spec_in_flight().len() == 0,
    {
        Context { entries: Vec::new(), in_flight: Vec::new() }
    }

    /// Looks the SNI up: a cached leaf is fresh when it stays valid for at
    /// least the renewal window past `now`; anything else needs a mint.
    #[verifier::loop_isolation(false)]
    pub fn lookup(&self, sni: &Vec<u8>, now: u64, renewal_window: u64) -> (r: CacheDecision)
        requires
            self.spec_wf(),
        ensures
            match r {
                CacheDecision::Fresh(cert) => exists|i: int|
                    0 <= i < self.spec_entries().len() && (#[trigger] self.spec_entries()[i]).sni@
                        == sni@ && self.spec_entries()[i].certificate@ == cert@
                        && self.spec_entries()[i].not_after >= now + renewal_window,
                CacheDecision::NeedsMint => forall|i: int|
                    0 <= i < self.spec_entries().len() ==> ((#[trigger] self.spec_entries(
                    )[i]).sni@ != sni@ || self.spec_entries()[i].not_after < now + renewal_window),
            },
    {
        let mut i: usize = 0;
        while i < self.entries.len()
            invariant
                i <= self.entries@.len(),
                forall|j: int|
                    0 <= j < i ==> ((#[trigger] self.entries@[j]).sni@ != sni@
                        || self.entries@[j].not_after < now + renewal_window),
            decreases self.entries@.len() - i,
        {
            if crate::address::eq_byte_vecs(&self.entries[i].sni, sni) {
                let deadline: u128 = (now as u128) + (renewal_window as u128);
                if (self.entries[i].not_after as u128) >= deadline {
                    let certificate = crate::address::clone_bytes(
                        &self.entries[i].certificate,
                    );
                    proof {
                        assert(self.spec_entries()[i as int].sni@ == sni@);
                        assert(self.spec_entries()[i as int].certificate@ == certificate@);
                        assert(self.spec_entries()[i as int].not_after >= now + renewal_window);
                    }
                    return CacheDecision::Fresh(certificate);
                }
            }
            i = i + 1;
        }
        CacheDecision::NeedsMint
    }

    /// Joins the mint for `sni`: the single leader per SNI gets `Lead` and
    /// the SNI becomes in flight; while it is in flight every further
    /// requester gets `Follow` and the state does not change.
    #[verifier::loop_isolation(false)]
    pub fn begin_mint(&mut self, sni: &Vec<u8>) -> (t: MintTicket)
        requires
            old(self).spec_wf(),
        ensures
            final(self).spec_wf(),
            final(self).spec_entries() == old(self).spec_entries(),
            t == MintTicket::Lead <==> !old(self).spec_minting(sni@),
            t == MintTicket::Lead ==> final(self).spec_in_flight() == old(
                self,
            ).spec_in_flight().push(sni@),
            t == MintTicket::Follow ==> *final(self) == *old(self),
            final(self).spec_minting(sni@),
    {
        let mut i: usize = 0;
        while i < self.in_flight.len()
            invariant
                i <= self.in_flight@.len(),
                forall|j: int| 0 <= j < i ==> (#[trigger] self.spec_in_flight()[j]) != sni@,
            decreases self.in_flight@.len() - i,
        {
            proof {
                assert(self.spec_in_flight()[i as int] == self.in_flight@[i as int]@);
            }
            if crate::address::eq_byte_vecs(&self.in_flight[i], sni) {
                return MintTicket::Follow;
            }
            i = i + 1;
        }
        let ghost before = self.spec_in_flight();
        self.in_flight.push(crate::address::clone_bytes(sni));
        proof {
            assert(self.spec_in_flight() =~= before.push(sni@));
            assert(self.spec_in_flight()[before.len() as int] == sni@);
            assert forall|t: int, u: int|
                0 <= t < self.spec_entries().len() && 0 <= u < self.spec_entries().len() && t
                    != u implies (#[trigger] self.spec_entries()[t]).sni@ != (
            #[trigger] self.spec_entries()[u]).sni@ by {
                assert(old(self).spec_entries()[t].sni@ != old(self).spec_entries()[u].sni@);
            }
            assert forall|t: int, u: int|
                0 <= t < self.spec_in_flight().len() && 0 <= u < self.spec_in_flight().len() && t
                    != u implies (#[trigger] self.spec_in_flight()[t]) != (
            #[trigger] self.spec_in_flight()[u]) by {
                if t < before.len() && u < before.len() {
                    assert(self.spec_in_flight()[t] == before[t]);
                    assert(self.spec_in_flight()[u] == before[u]);
                    assert(old(self).spec_in_flight()[t] != old(self).spec_in_flight()[u]);
                } else if t == before.len() {
                    assert(self.spec_in_flight()[t] == sni@);
                    assert(self.spec_in_flight()[u] == before[u]);
                    assert(old(self).spec_in_flight()[u] != sni@);
                } else {
                    assert(self.spec_in_flight()[u] == sni@);
                    assert(self.spec_in_flight()[t] == before[t]);
                    assert(old(self).spec_in_flight()[t] != sni@);
                }
            }
        }
        MintTicket::Lead
    }

    /// Publishes the minted leaf: the SNI leaves the in-flight set, and
    /// the cache afterwards holds an entry for it carrying the new
    /// certificate — and no other entry for the same SNI. Entries for
    /// other SNIs are untouched.
    pub fn finish_mint(&mut self, sni: &Vec<u8>, certificate: Vec<u8>, not_after: u64)
        requires
            old(self).spec_wf(),
        ensures
            final(self).spec_wf(),
            !final(self).spec_minting(sni@),
            final(self).spec_cached(sni@),
            forall|i: int|
                0 <= i < final(self).spec_entries().len() && (#[trigger] final(self).spec_entries(
                )[i]).sni@ == sni@ ==> final(self).spec_entries()[i].certificate@ == certificate@
                    && final(self).spec_entries()[i].not_after == not_after,
            forall|i: int|
                0 <= i < old(self).spec_entries().len() && (#[trigger] old(self).spec_entries(
                )[i]).sni@ != sni@ ==> final(self).spec_entries().contains(
                    old(self).spec_entries()[i],
                ),
            forall|i: int|
                0 <= i < final(self).spec_entries().len() ==> ((#[trigger] final(self).spec_entries()[i]).sni@
                    == sni@ || old(self).spec_entries().contains(final(self).spec_entries()[i])),
    {
        self.remove_in_flight(sni);
        self.remove_entry(sni);
        let ghost kept = self.spec_entries();
        let fresh = LeafEntry {
            sni: crate::address::clone_bytes(sni),
            certificate,
            not_after,
        };
        self.entries.push(fresh);
        proof {
            assert(self.spec_entries() =~= kept.push(fresh));
            assert(self.spec_entries()[kept.len() as int].sni@ == sni@);
            assert forall|i: int|
                0 <= i < kept.len() implies self.spec_entries()[i] == kept[i] by {}
        }
    }

    /// Bounds the cache: while it holds more than `capacity` entries the
    /// oldest-minted entry leaves first. Re-minting re-inserts at the
    /// young end, so long-unrenewed leaves are the ones evicted.
    #[verifier::loop_isolation(false)]
    pub fn evict_to(&mut self, capacity: usize)
        requires
            old(self).spec_wf(),
        ensures
            final(self).spec_wf(),
            final(self).spec_in_flight() == old(self).spec_in_flight(),
            final(self).spec_entries().len() <= capacity,
            old(self).spec_entries().len() <= capacity ==> final(self).spec_entries() == old(
                self,
            ).spec_entries(),
            old(self).spec_entries().len() > capacity ==> final(self).spec_entries() == old(
                self,
            ).spec_entries().skip(old(self).spec_entries().len() - capacity),
    {
        let ghost pre = old(self).spec_entries();
        proof {
            assert(pre.skip(0) =~= pre);
        }
        while self.entries.len() > capacity
            invariant
                self.in_flight == old(self).in_flight,
                self.entries@.len() <= pre.len(),
                self.entries@.len() >= capacity || self.entries@.len() == pre.len(),
                self.entries@ == pre.skip(pre.len() - self.entries@.len()),
            decreases self.entries@.len(),
        {
            let ghost before = self.entries@;
            let _ = self.entries.remove(0);
            proof {
                assert(self.entries@ =~= before.skip(1));
                assert(self.entries@ =~= pre.skip(pre.len() - self.entries@.len()));
            }
        }
        proof {
            let off = pre.len() - self.entries@.len();
            assert forall|t: int, u: int|
                0 <= t < self.spec_entries().len() && 0 <= u < self.spec_entries().len() && t
                    != u implies (#[trigger] self.spec_entries()[t]).sni@ != (
            #[trigger] self.spec_entries()[u]).sni@ by {
                assert(self.spec_entries()[t] == old(self).spec_entries()[off + t]);
                assert(self.spec_entries()[u] == old(self).spec_entries()[off + u]);
                assert(old(self).spec_entries()[off + t].sni@ != old(self).spec_entries()[off
                    + u].sni@);
            }
            assert forall|t: int, u: int|
                0 <= t < self.spec_in_flight().len() && 0 <= u < self.spec_in_flight().len() && t
                    != u implies (#[trigger] self.spec_in_flight()[t]) != (
            #[trigger] self.spec_in_flight()[u]) by {
                assert(old(self).spec_in_flight()[t] != old(self).spec_in_flight()[u]);
            }
            if pre.len() <= capacity {
                assert(self.entries@.len() == pre.len());
                assert(pre.skip(0) =~= pre);
            }
        }
    }

    /// Abandons the mint for `sni`: the SNI leaves the in-flight set and
    /// the cache is untouched, so the failure outlives the mint itself in
    /// no way.
    pub fn fail_mint(&mut self, sni: &Vec<u8>)
        requires
            old(self).spec_wf(),
        ensures
            final(self).spec_wf(),
            final(self).spec_entries() == old(self).spec_entries(),
            !final(self).spec_minting(sni@),
    {
        self.remove_in_flight(sni);
    }

    /// Removes `sni` from the in-flight set.
    #[verifier::loop_isolation(false)]
    fn remove_in_flight(&mut self, sni: &Vec<u8>)
        requires
            old(self).spec_wf(),
        ensures
            final(self).spec_wf(),
            final(self).spec_entries() == old(self).spec_entries(),
            !final(self).spec_minting(sni@),
    {
        let mut i: usize = 0;
        while i < self.in_flight.len()
            invariant
                *self == *old(self),
                i <= self.in_flight@.len(),
                forall|j: int| 0 <= j < i ==> (#[trigger] self.spec_in_flight()[j]) != sni@,
            decreases self.in_flight@.len() - i,
        {
            proof {
                assert(self.spec_in_flight()[i as int] == self.in_flight@[i as int]@);
            }
            if crate::address::eq_byte_vecs(&self.in_flight[i], sni) {
                let ghost pre = self.spec_in_flight();
                let ghost k = i as int;
                let _ = self.in_flight.remove(i);
                proof {
                    assert(self.spec_in_flight() =~= pre.remove(k));
                    assert forall|t: int|
                        0 <= t < self.spec_in_flight().len() implies (
                    #[trigger] self.spec_in_flight()[t]) != sni@ by {
                        if t < k {
                            assert(self.spec_in_flight()[t] == pre[t]);
                            assert(pre[t] != pre[k]);
                        } else {
                            assert(self.spec_in_flight()[t] == pre[t + 1]);
                            assert(pre[t + 1] != pre[k]);
                        }
                    }
                    assert forall|t: int, u: int|
                        0 <= t < self.spec_in_flight().len() && 0 <= u
                            < self.spec_in_flight().len() && t != u implies (
                    #[trigger] self.spec_in_flight()[t]) != (
                    #[trigger] self.spec_in_flight()[u]) by {
                        let t0 = if t < k {
                            t
                        } else {
                            t + 1
                        };
                        let u0 = if u < k {
                            u
                        } else {
                            u + 1
                        };
                        assert(self.spec_in_flight()[t] == pre[t0]);
                        assert(self.spec_in_flight()[u] == pre[u0]);
                        assert(old(self).spec_in_flight()[t0] != old(self).spec_in_flight()[u0]);
                    }
                    assert forall|t: int, u: int|
                        0 <= t < self.spec_entries().len() && 0 <= u < self.spec_entries().len()
                            && t != u implies (#[trigger] self.spec_entries()[t]).sni@ != (
                    #[trigger] self.spec_entries()[u]).sni@ by {
                        assert(old(self).spec_entries()[t].sni@ != old(self).spec_entries(
                        )[u].sni@);
                    }
                }
                return ;
            }
            i = i + 1;
        }
    }

    /// Removes the cache entry for `sni`, where one exists.
    #[verifier::loop_isolation(false)]
    fn remove_entry(&mut self, sni: &Vec<u8>)
        requires
            old(self).spec_wf(),
        ensures
            final(self).spec_wf(),
            final(self).spec_in_flight() == old(self).spec_in_flight(),
            !final(self).spec_cached(sni@),
            forall|i: int|
                0 <= i < old(self).spec_entries().len() && (#[trigger] old(self).spec_entries(
                )[i]).sni@ != sni@ ==> final(self).spec_entries().contains(
                    old(self).spec_entries()[i],
                ),
            forall|i: int|
                0 <= i < final(self).spec_entries().len() ==> old(self).spec_entries().contains(
                    #[trigger] final(self).spec_entries()[i],
                ),
    {
        let mut i: usize = 0;
        while i < self.entries.len()
            invariant
                *self == *old(self),
                i <= self.entries@.len(),
                forall|j: int| 0 <= j < i ==> (#[trigger] self.entries@[j]).sni@ != sni@,
            decreases self.entries@.len() - i,
        {
            if crate::address::eq_byte_vecs(&self.entries[i].sni, sni) {
                let ghost pre = self.entries@;
                let ghost k = i as int;
                let _ = self.entries.remove(i);
                proof {
                    assert forall|t: int|
                        0 <= t < self.entries@.len() implies (#[trigger] self.entries@[t]).sni@
                        != sni@ by {
                        if t < k {
                            assert(self.entries@[t] == pre[t]);
                        } else {
                            assert(self.entries@[t] == pre[t + 1]);
                        }
                    }
                    assert forall|t: int, u: int|
                        0 <= t < self.entries@.len() && 0 <= u < self.entries@.len() && t
                            != u implies (#[trigger] self.entries@[t]).sni@ != (
                    #[trigger] self.entries@[u]).sni@ by {
                        let t0 = if t < k {
                            t
                        } else {
                            t + 1
                        };
                        let u0 = if u < k {
                            u
                        } else {
                            u + 1
                        };
                        assert(self.entries@[t] == pre[t0]);
                        assert(self.entries@[u] == pre[u0]);
                    }
                    assert forall|t: int|
                        0 <= t < pre.len() && (#[trigger] pre[t]).sni@ != sni@ implies
                        self.entries@.contains(pre[t]) by {
                        if t < k {
                            assert(self.entries@[t] == pre[t]);
                        } else {
                            assert(t != k);
                            assert(self.entries@[t - 1] == pre[t]);
                        }
                    }
                    assert forall|t: int|
                        0 <= t < self.entries@.len() implies pre.contains(
                        #[trigger] self.entries@[t],
                    ) by {
                        if t < k {
                            assert(self.entries@[t] == pre[t]);
                        } else {
                            assert(self.entries@[t] == pre[t + 1]);
                        }
                    }
                    assert forall|t: int, u: int|
                        0 <= t < self.spec_in_flight().len() && 0 <= u
                            < self.spec_in_flight().len() && t != u implies (
                    #[trigger] self.spec_in_flight()[t]) != (
                    #[trigger] self.spec_in_flight()[u]) by {
                        assert(old(self).spec_in_flight()[t] != old(self).spec_in_flight()[u]);
                    }
                }
                return ;
            }
            i = i + 1;
        }
        proof {
            assert forall|t: int|
                0 <= t < self.entries@.len() implies old(self).spec_entries().contains(
                #[trigger] self.entries@[t],
            ) by {
                assert(old(self).spec_entries()[t] == self.entries@[t]);
            }
        }
    }
}

/// The cache can hold only one entry per SNI: any two entries that answer
/// for the same SNI are the same entry, so every requester that reads the
/// cache reads the same certificate bytes.
pub proof fn lemma_shared_leaf(c: Context, sni: Seq<u8>, i: int, j: int)
    requires
        c.spec_wf(),
        0 <= i < c.spec_entries().len(),
        0 <= j < c.spec_entries().len(),
        c.spec_entries()[i].sni@ == sni,
        c.spec_entries()[j].sni@ == sni,
    ensures
        i == j,
        c.spec_entries()[i].certificate@ == c.spec_entries()[j].certificate@,
{
}

} // verus!
