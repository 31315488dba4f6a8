//! The server's peer table: one Noise session, one set of allowed CIDR
//! blocks and one learned endpoint per peer, keyed by the peer's 32-byte
//! public key.

use vstd::prelude::*;
use vstd::utf8::encode_utf8;
use crate::args::PeerConfig;
use crate::cidr::{Cidr, all_wf, spec_best, spec_owned};
use crate::engine::{Action, tunn_decapsulate, tunn_encapsulate, tunn_new, zero_vec};
use crate::ip::{Addr, Endpoint, spec_dest, dest_addr};
use crate::keys::{Key, b64_decode, load_key, spec_trimmed};
use crate::text::spec_parse_cidr;

verus! {

/// One remote peer of the server.
pub struct Peer {
    pub tunnel: boringtun::noise::Tunn,
    pub public_key: Vec<u8>,
    pub allowed_ips: Vec<Cidr>,
    pub endpoint: Option<Endpoint>,
}

impl Peer {
    pub open spec fn wf(self) -> bool {
        self.public_key@.len() == 32 && all_wf(self.allowed_ips@)
    }

    /// A fresh peer: no endpoint is known until a datagram of its arrives.
    pub fn new(server_private: &Key, public_key: Key, allowed_ips: Vec<Cidr>) -> (p: Peer)
        requires
            server_private.wf(),
            public_key.wf(),
            all_wf(allowed_ips@),
        ensures
            p.wf(),
            p.public_key@ == public_key.raw@,
            p.allowed_ips@ == allowed_ips@,
            p.endpoint is None,
    {
        let tunnel = tunn_new(server_private, &public_key);
        Peer { tunnel, public_key: public_key.raw, allowed_ips, endpoint: None }
    }

    /// Whether one of this peer's allowed blocks contains `ip`.
    pub fn owns_ip(&self, ip: &Addr) -> (r: bool)
        requires
            self.wf(),
        ensures
            r == spec_owned(self.allowed_ips@, *ip),
    {
        crate::cidr::owns_ip(&self.allowed_ips, *ip)
    }

    /// The longest prefix among this peer's blocks that contain `a`, or
    /// `-1` when none does.
    pub open spec fn best(self, a: Addr) -> int {
        spec_best(self.allowed_ips@, a)
    }
}

/// Byte-for-byte equality of two slices.
pub fn bytes_eq(a: &[u8], b: &[u8]) -> (r: bool)
    ensures
        r == (a@ == b@),
{
    if a.len() != b.len() {
        return false;
    }
    let mut i: usize = 0;
    while i < a.len()
        invariant
            i <= a@.len() == b@.len(),
            forall|j: int| 0 <= j < i ==> a@[j] == b@[j],
        decreases a@.len() - i,
    {
        if a[i] != b[i] {
            return false;
        }
        i = i + 1;
    }
    proof {
        assert(a@ =~= b@);
    }
    true
}

/// `a` and `b` list the same peers in the same order: same keys and same
/// allowed blocks; only session state and endpoints may differ.
pub open spec fn same_shape(a: Seq<Peer>, b: Seq<Peer>) -> bool {
    a.len() == b.len() && forall|j: int|
        0 <= j < a.len() ==> (#[trigger] a[j]).public_key@ == b[j].public_key@
            && a[j].allowed_ips@ == b[j].allowed_ips@
}

/// Every peer of `a` still reports the endpoint it had in `b`.
pub open spec fn same_endpoints(a: Seq<Peer>, b: Seq<Peer>) -> bool {
    a.len() == b.len() && forall|j: int| 0 <= j < a.len() ==> (#[trigger] a[j]).endpoint == b[j].endpoint
}

/// The table of all configured peers. Membership is fixed at startup;
/// endpoints are learned from traffic.
pub struct PeerTable {
    pub peers: Vec<Peer>,
}

impl PeerTable {
    /// Every peer is well formed and no two peers share a public key.
    pub open spec fn wf(self) -> bool {
        (forall|j: int| 0 <= j < self.peers@.len() ==> (#[trigger] self.peers@[j]).wf())
            && (forall|i: int, j: int|
            0 <= i < j < self.peers@.len() ==> (#[trigger] self.peers@[i]).public_key@ != (
            #[trigger] self.peers@[j]).public_key@)
    }

    pub fn new() -> (t: PeerTable)
        ensures
            t.wf(),
            t.peers@.len() == 0,
    {
        PeerTable { peers: Vec::new() }
    }

    pub fn len(&self) -> (n: usize)
        ensures
            n == self.peers@.len(),
    {
        self.peers.len()
    }

    /// Registers a peer: a peer with the same public key is replaced, any
    /// other is appended.
    pub fn add_peer(&mut self, p: Peer)
        requires
            old(self).wf(),
            p.wf(),
        ensures
            final(self).wf(),
            forall|j: int|
                0 <= j < old(self).peers@.len() && (#[trigger] old(self).peers@[j]).public_key@ == p.public_key@ ==> final(self).peers@ == old(self).peers@.update(j, p),
            (forall|j: int|
                0 <= j < old(self).peers@.len() ==> (#[trigger] old(self).peers@[j]).public_key@ != p.public_key@) ==> final(self).peers@ == old(self).peers@.push(p),
    {
        let mut i: usize = 0;
        let n = self.peers.len();
        while i < n
            invariant
                i <= n == self.peers@.len(),
                *self == *old(self),
                old(self).wf(),
                p.wf(),
                forall|j: int|
                    0 <= j < i ==> (#[trigger] self.peers@[j]).public_key@ != p.public_key@,
            decreases n - i,
        {
            if bytes_eq(self.peers[i].public_key.as_slice(), p.public_key.as_slice()) {
                self.peers[i] = p;
                return ;
            }
            i = i + 1;
        }
        self.peers.push(p);
    }

    /// The first peer whose learned endpoint is `ep`.
    pub fn find_by_endpoint(&self, ep: Endpoint) -> (r: Option<usize>)
        ensures
            match r {
                Some(i) => 0 <= i < self.peers@.len() && self.peers@[i as int].endpoint == Some(ep),
                None => forall|j: int|
                    0 <= j < self.peers@.len() ==> (#[trigger] self.peers@[j]).endpoint != Some(ep),
            },
    {
        let mut i: usize = 0;
        let n = self.peers.len();
        while i < n
            invariant
                i <= n == self.peers@.len(),
                forall|j: int|
                    0 <= j < i ==> (#[trigger] self.peers@[j]).endpoint != Some(ep),
            decreases n - i,
        {
            let hit = match self.peers[i].endpoint {
                Some(e) => e == ep,
                None => false,
            };
            if hit {
                return Some(i);
            }
            i = i + 1;
        }
        None
    }

    /// The peer owning `a`, by longest matching prefix across all peers.
    pub fn find_owner(&self, a: Addr) -> (r: Option<usize>)
        requires
            self.wf(),
        ensures
            match r {
                Some(i) => 0 <= i < self.peers@.len() && self.peers@[i as int].best(a) >= 0 && (
                forall|j: int|
                    0 <= j < self.peers@.len() ==> (#[trigger] self.peers@[j]).best(a)
                        <= self.peers@[i as int].best(a)),
                None => forall|j: int|
                    0 <= j < self.peers@.len() ==> (#[trigger] self.peers@[j]).best(a) == -1,
            },
    {
        let mut r: Option<usize> = None;
        let mut i: usize = 0;
        let n = self.peers.len();
        while i < n
            invariant
                i <= n == self.peers@.len(),
                self.wf(),
                match r {
                    Some(b) => 0 <= b < i && self.peers@[b as int].best(a) >= 0 && (forall|j: int|
                        0 <= j < i ==> (#[trigger] self.peers@[j]).best(a) <= self.peers@[
                        b as int].best(a)),
                    None => forall|j: int| 0 <= j < i ==> (#[trigger] self.peers@[j]).best(a) == -1,
                },
            decreases n - i,
        {
            let b = crate::cidr::best_prefix(&self.peers[i].allowed_ips, a);
            if let Some(p) = b {
                let better = match r {
                    None => true,
                    Some(k) => {
                        let kb = crate::cidr::best_prefix(&self.peers[k].allowed_ips, a);
                        match kb {
                            Some(q) => p > q,
                            None => true,
                        }
                    },
                };
                if better {
                    r = Some(i);
                }
            }
            i = i + 1;
        }
        r
    }

    /// Tries to decapsulate `datagram` against peer `i`. On anything but a
    /// rejection the peer's endpoint is learned from the source, which is
    /// how roaming works: every successful decapsulation pins the peer to
    /// the address the datagram came from.
    fn try_peer(&mut self, i: usize, datagram: &[u8], src: Endpoint) -> (r: Option<
        DispatchOutcome,
    >)
        requires
            old(self).wf(),
            i < old(self).peers@.len(),
            datagram@.len() >= 1,
            datagram@.len() + 148 <= usize::MAX,
        ensures
            final(self).wf(),
            same_shape(final(self).peers@, old(self).peers@),
            match r {
                None => same_endpoints(final(self).peers@, old(self).peers@),
                Some(out) => final(self).peers@[i as int].endpoint == Some(src) && (forall|j: int|
                    0 <= j < old(self).peers@.len() && j != i ==> (#[trigger] final(self).peers@[j]).endpoint == old(self).peers@[j].endpoint) && !(out
                    is Dropped) && match out {
                    DispatchOutcome::Reply(d) => d@.len() <= datagram@.len() + 148,
                    DispatchOutcome::ToTunnel(d) => d@.len() <= datagram@.len() + 148,
                    _ => true,
                },
            },
    {
        let mut buf = zero_vec(datagram.len() + 148);
        let p = &mut self.peers[i];
        let action = tunn_decapsulate(&mut p.tunnel, datagram, &mut buf);
        match action {
            Action::Failed => None,
            Action::Network(d) => {
                p.endpoint = Some(src);
                Some(DispatchOutcome::Reply(d))
            },
            Action::TunnelV4(d, _) => {
                p.endpoint = Some(src);
                Some(DispatchOutcome::ToTunnel(d))
            },
            Action::TunnelV6(d, _) => {
                p.endpoint = Some(src);
                Some(DispatchOutcome::ToTunnel(d))
            },
            Action::Done => {
                p.endpoint = Some(src);
                Some(DispatchOutcome::Consumed)
            },
        }
    }

    /// Dispatches one inbound wire datagram: first the peer whose learned
    /// endpoint matches the source, then every peer in turn. The peer that
    /// accepts it has its endpoint updated to the source; every other
    /// peer's endpoint is untouched, and membership never changes.
    pub fn handle_datagram(&mut self, datagram: &[u8], src: Endpoint) -> (r: DispatchOutcome)
        requires
            old(self).wf(),
            datagram@.len() >= 1,
            datagram@.len() + 148 <= usize::MAX,
        ensures
            final(self).wf(),
            same_shape(final(self).peers@, old(self).peers@),
            match r {
                DispatchOutcome::Dropped => same_endpoints(final(self).peers@, old(self).peers@),
                _ => exists|i: int|
                    0 <= i < old(self).peers@.len() && (#[trigger] final(self).peers@[i]).endpoint == Some(src) && (forall|j: int|
                        0 <= j < old(self).peers@.len() && j != i ==> (#[trigger] final(self).peers@[j]).endpoint == old(self).peers@[j].endpoint),
            },
            match r {
                DispatchOutcome::Reply(d) => d@.len() <= datagram@.len() + 148,
                DispatchOutcome::ToTunnel(d) => d@.len() <= datagram@.len() + 148,
                _ => true,
            },
    {
        match self.find_by_endpoint(src) {
            Some(i) => {
                match self.try_peer(i, datagram, src) {
                    Some(out) => {
                        return out;
                    },
                    None => {},
                }
            },
            None => {},
        }
        let n = self.peers.len();
        let mut i: usize = 0;
        while i < n
            invariant
                i <= n == self.peers@.len(),
                self.wf(),
                datagram@.len() >= 1,
                datagram@.len() + 148 <= usize::MAX,
                same_shape(self.peers@, old(self).peers@),
                same_endpoints(self.peers@, old(self).peers@),
            decreases n - i,
        {
            match self.try_peer(i, datagram, src) {
                Some(out) => {
                    return out;
                },
                None => {},
            }
            i = i + 1;
        }
        DispatchOutcome::Dropped
    }

    /// Routes one outbound IP packet read from the TUN device: the peer
    /// whose allowed blocks best cover the destination gets it, encrypted,
    /// at its learned endpoint. A packet without a destination, or whose
    /// destination no peer owns, is `NoRoute`; a chosen owner without a
    /// learned endpoint gives `NoEndpoint`, and only an owner with one is
    /// ever handed to the engine. Endpoints and membership never change
    /// on this path.
    pub fn route_outbound(&mut self, packet: &[u8]) -> (r: OutboundOutcome)
        requires
            old(self).wf(),
            packet@.len() + 148 <= usize::MAX,
        ensures
            final(self).wf(),
            same_shape(final(self).peers@, old(self).peers@),
            same_endpoints(final(self).peers@, old(self).peers@),
            match spec_dest(packet@) {
                None => r is NoRoute,
                Some(d) => (r is NoRoute <==> forall|j: int|
                    0 <= j < old(self).peers@.len() ==> (#[trigger] old(self).peers@[j]).best(d)
                        == -1) && (!(r is NoRoute) ==> exists|i: int|
                    0 <= i < old(self).peers@.len() && (#[trigger] old(self).peers@[i]).best(d)
                        >= 0 && (forall|j: int|
                        0 <= j < old(self).peers@.len() ==> (#[trigger] old(self).peers@[j]).best(d)
                            <= old(self).peers@[i].best(d)) && (match r {
                        OutboundOutcome::NoEndpoint => old(self).peers@[i].endpoint is None,
                        OutboundOutcome::Forward(dgram, ep) => old(self).peers@[i].endpoint
                            == Some(ep) && dgram@.len() <= packet@.len() + 148,
                        OutboundOutcome::HandshakePending => old(self).peers@[i].endpoint is Some,
                        OutboundOutcome::Discarded => old(self).peers@[i].endpoint is Some,
                        OutboundOutcome::NoRoute => false,
                    })),
            },
    {
        let dest = match dest_addr(packet) {
            None => {
                return OutboundOutcome::NoRoute;
            },
            Some(d) => d,
        };
        match self.find_owner(dest) {
            None => OutboundOutcome::NoRoute,
            Some(i) => {
                let ep = match self.peers[i].endpoint {
                    None => {
                        return OutboundOutcome::NoEndpoint;
                    },
                    Some(e) => e,
                };
                let mut buf = zero_vec(packet.len() + 148);
                let p = &mut self.peers[i];
                let action = tunn_encapsulate(&mut p.tunnel, packet, &mut buf);
                match action {
                    Action::Network(d) => OutboundOutcome::Forward(d, ep),
                    Action::Done => OutboundOutcome::HandshakePending,
                    Action::TunnelV4(_, _) => OutboundOutcome::Discarded,
                    Action::TunnelV6(_, _) => OutboundOutcome::Discarded,
                    Action::Failed => OutboundOutcome::Discarded,
                }
            },
        }
    }
}

/// A peer flag whose key decodes to 32 bytes and whose blocks all parse.
pub open spec fn cfg_ok(c: PeerConfig) -> bool {
    (match b64_decode(spec_trimmed(encode_utf8(c.public_key@))) {
        Some(k) => k.len() == 32,
        None => false,
    }) && (forall|j: int|
        0 <= j < c.allowed_ips@.len() ==> spec_parse_cidr(
            encode_utf8((#[trigger] c.allowed_ips@[j])@),
        ) is Some)
}

/// The decoded public key of a valid peer flag.
#[verifier::opaque]
pub open spec fn cfg_key(c: PeerConfig) -> Seq<u8> {
    match b64_decode(spec_trimmed(encode_utf8(c.public_key@))) {
        Some(k) => k,
        None => Seq::empty(),
    }
}

/// The parsed allowed blocks of a valid peer flag.
#[verifier::opaque]
pub open spec fn cfg_blocks(c: PeerConfig) -> Seq<Cidr> {
    Seq::new(
        c.allowed_ips@.len(),
        |j: int|
            match spec_parse_cidr(encode_utf8(c.allowed_ips@[j]@)) {
                Some(b) => b,
                None => Cidr { net: Addr::V4(0), prefix: 0 },
            },
    )
}

/// `p` is exactly the peer a valid flag `c` describes: its decoded key,
/// its parsed blocks, and no endpoint learned yet.
pub open spec fn entry_matches(p: Peer, c: PeerConfig) -> bool {
    p.public_key@ == cfg_key(c) && p.allowed_ips@ == cfg_blocks(c) && p.endpoint is None
}

/// Each of the first `upto` flags has its decoded key in the table.
pub open spec fn keys_present(table: Seq<Peer>, cfgs: Seq<PeerConfig>, upto: int) -> bool {
    forall|j: int|
        #![trigger cfg_key(cfgs[j])]
        0 <= j < upto ==> exists|k: int|
            0 <= k < table.len() && (#[trigger] table[k]).public_key@ == cfg_key(cfgs[j])
}

/// No flag after `j` (below `upto`) bears `p`'s key.
pub open spec fn no_later_key(p: Peer, cfgs: Seq<PeerConfig>, j: int, upto: int) -> bool {
    forall|j2: int|
        #![trigger cfg_key(cfgs[j2])]
        j < j2 < upto ==> cfg_key(cfgs[j2]) != p.public_key@
}

/// Entry `k` of the table is exactly what some flag among the first
/// `upto` described, and no later flag bears its key.
pub open spec fn entry_realized(table: Seq<Peer>, cfgs: Seq<PeerConfig>, k: int, upto: int) -> bool {
    exists|j: int|
        0 <= j < upto && #[trigger] entry_matches(table[k], cfgs[j]) && no_later_key(
            table[k],
            cfgs,
            j,
            upto,
        )
}

/// Every table entry is exactly what the last flag (among the first
/// `upto`) bearing its key described.
pub open spec fn entries_from_flags(table: Seq<Peer>, cfgs: Seq<PeerConfig>, upto: int) -> bool {
    forall|k: int|
        0 <= k < table.len() ==> #[trigger] entry_realized(table, cfgs, k, upto)
}

#[derive(Clone, Copy, PartialEq, Eq, Structural, Debug)]
pub enum PeerBuildError {
    /// The public key is not base64, or not 32 bytes.
    BadKey,
    /// One of the allowed blocks is not a valid CIDR.
    BadAllowedIp,
}

/// Builds one peer from its flag: decodes the public key, parses each
/// allowed block, and opens a session for it against the server key.
pub fn peer_from_config(server_private: &Key, cfg: &PeerConfig) -> (r: Result<Peer, PeerBuildError>)
    requires
        server_private.wf(),
    ensures
        r is Ok <==> cfg_ok(*cfg),
        match r {
            Ok(p) => p.wf() && entry_matches(p, *cfg),
            Err(_) => true,
        },
{
    let key = match load_key(cfg.public_key.as_str().as_bytes()) {
        Ok(k) => k,
        Err(_) => {
            return Err(PeerBuildError::BadKey);
        },
    };
    let mut blocks: Vec<Cidr> = Vec::new();
    let mut i: usize = 0;
    let n = cfg.allowed_ips.len();
    while i < n
        invariant
            i <= n == cfg.allowed_ips@.len(),
            blocks@.len() == i,
            forall|j: int|
                0 <= j < i ==> Some(#[trigger] blocks@[j]) == spec_parse_cidr(
                    encode_utf8(cfg.allowed_ips@[j]@),
                ) && blocks@[j].wf(),
        decreases n - i,
    {
        match crate::text::parse_cidr(cfg.allowed_ips[i].as_str().as_bytes()) {
            Some(c) => {
                blocks.push(c);
            },
            None => {
                return Err(PeerBuildError::BadAllowedIp);
            },
        }
        i = i + 1;
    }
    proof {
        assert forall|j: int| 0 <= j < cfg.allowed_ips@.len() implies spec_parse_cidr(
            encode_utf8((#[trigger] cfg.allowed_ips@[j])@),
        ) is Some by {
            assert(Some(blocks@[j]) == spec_parse_cidr(encode_utf8(cfg.allowed_ips@[j]@)));
        }
        reveal(cfg_key);
        reveal(cfg_blocks);
        assert(blocks@ =~= cfg_blocks(*cfg));
    }
    Ok(Peer::new(server_private, key, blocks))
}

/// Builds the whole table from the peer flags. Flags that share a public
/// key overwrite one another: the last flag bearing a key wins. On
/// success the table holds every configured key, and each of its entries
/// is exactly what the last flag with that key described.
pub fn build_peer_table(server_private: &Key, cfgs: &Vec<PeerConfig>) -> (r: Result<
    PeerTable,
    PeerBuildError,
>)
    requires
        server_private.wf(),
    ensures
        r is Ok <==> (forall|i: int| 0 <= i < cfgs@.len() ==> cfg_ok(#[trigger] cfgs@[i])),
        match r {
            Ok(t) => t.wf() && t.peers@.len() <= cfgs@.len() && keys_present(
                t.peers@,
                cfgs@,
                cfgs@.len() as int,
            ) && entries_from_flags(t.peers@, cfgs@, cfgs@.len() as int),
            Err(_) => true,
        },
{
    let mut table = PeerTable::new();
    let mut i: usize = 0;
    let n = cfgs.len();
    while i < n
        invariant
            i <= n == cfgs@.len(),
            server_private.wf(),
            table.wf(),
            table.peers@.len() <= i,
            forall|j: int| 0 <= j < i ==> cfg_ok(#[trigger] cfgs@[j]),
            keys_present(table.peers@, cfgs@, i as int),
            entries_from_flags(table.peers@, cfgs@, i as int),
        decreases n - i,
    {
        match peer_from_config(server_private, &cfgs[i]) {
            Ok(p) => {
                let ghost old_table = table.peers@;
                let ghost pk = p.public_key@;
                table.add_peer(p);
                proof {
                    lemma_keys_step(old_table, table.peers@, p, cfgs@, i as int);
                    lemma_entries_step(old_table, table.peers@, p, cfgs@, i as int);
                }
            },
            Err(e) => {
                return Err(e);
            },
        }
        i = i + 1;
    }
    Ok(table)
}

/// One step of table building, key presence: registering the peer of
/// flag `i` keeps every earlier flag's key in the table and adds flag
/// `i`'s.
#[verifier::spinoff_prover]
proof fn lemma_keys_step(
    before: Seq<Peer>,
    after: Seq<Peer>,
    p: Peer,
    cfgs: Seq<PeerConfig>,
    i: int,
)
    requires
        0 <= i < cfgs.len(),
        entry_matches(p, cfgs[i]),
        (forall|k: int|
            0 <= k < before.len() && (#[trigger] before[k]).public_key@ == p.public_key@
                ==> after == before.update(k, p)),
        (forall|k: int|
            0 <= k < before.len() ==> (#[trigger] before[k]).public_key@ != p.public_key@)
            ==> after == before.push(p),
        keys_present(before, cfgs, i),
    ensures
        keys_present(after, cfgs, i + 1),
{
    let pk = p.public_key@;
    if exists|k: int| 0 <= k < before.len() && (#[trigger] before[k]).public_key@ == pk {
        let kr = choose|k: int| 0 <= k < before.len() && (#[trigger] before[k]).public_key@ == pk;
        assert(after == before.update(kr, p));
        assert forall|k: int|
            0 <= k < after.len() implies (#[trigger] after[k]).public_key@
            == before[k].public_key@ by {
            if k == kr {
                assert(before[kr].public_key@ == pk);
            }
        }
        assert forall|j: int| #![trigger cfg_key(cfgs[j])] 0 <= j < i + 1 implies exists|k: int|
            0 <= k < after.len() && (#[trigger] after[k]).public_key@ == cfg_key(cfgs[j]) by {
            if j < i {
                let kw = choose|k: int|
                    0 <= k < before.len() && (#[trigger] before[k]).public_key@ == cfg_key(
                        cfgs[j],
                    );
                assert(after[kw].public_key@ == cfg_key(cfgs[j]));
            } else {
                assert(after[kr].public_key@ == cfg_key(cfgs[i]));
            }
        }
    } else {
        assert(after == before.push(p));
        assert forall|j: int| #![trigger cfg_key(cfgs[j])] 0 <= j < i + 1 implies exists|k: int|
            0 <= k < after.len() && (#[trigger] after[k]).public_key@ == cfg_key(cfgs[j]) by {
            if j < i {
                let kw = choose|k: int|
                    0 <= k < before.len() && (#[trigger] before[k]).public_key@ == cfg_key(
                        cfgs[j],
                    );
                assert(after[kw].public_key@ == cfg_key(cfgs[j]));
            } else {
                assert(after[before.len() as int].public_key@ == cfg_key(cfgs[i]));
            }
        }
    }
}

/// One step of table building, entry contents: after registering the
/// peer of flag `i`, every table entry realizes the last flag (among the
/// first `i + 1`) bearing its key.
#[verifier::spinoff_prover]
proof fn lemma_entries_step(
    before: Seq<Peer>,
    after: Seq<Peer>,
    p: Peer,
    cfgs: Seq<PeerConfig>,
    i: int,
)
    requires
        0 <= i < cfgs.len(),
        entry_matches(p, cfgs[i]),
        forall|a: int, b: int|
            0 <= a < b < before.len() ==> (#[trigger] before[a]).public_key@ != (
            #[trigger] before[b]).public_key@,
        (forall|k: int|
            0 <= k < before.len() && (#[trigger] before[k]).public_key@ == p.public_key@
                ==> after == before.update(k, p)),
        (forall|k: int|
            0 <= k < before.len() ==> (#[trigger] before[k]).public_key@ != p.public_key@)
            ==> after == before.push(p),
        entries_from_flags(before, cfgs, i),
    ensures
        entries_from_flags(after, cfgs, i + 1),
{
    let pk = p.public_key@;
    let replaced = exists|k: int|
        0 <= k < before.len() && (#[trigger] before[k]).public_key@ == pk;
    let kr: int = if replaced {
        choose|k: int| 0 <= k < before.len() && (#[trigger] before[k]).public_key@ == pk
    } else {
        before.len() as int
    };
    if replaced {
        assert(after == before.update(kr, p));
    } else {
        assert(after == before.push(p));
    }
    assert forall|k: int| 0 <= k < after.len() implies #[trigger] entry_realized(
        after,
        cfgs,
        k,
        i + 1,
    ) by {
        if k == kr {
            assert(after[k] == p);
            assert(entry_matches(after[k], cfgs[i]));
            assert(no_later_key(after[k], cfgs, i, i + 1));
        } else {
            assert(after[k] == before[k]);
            assert(entry_realized(before, cfgs, k, i));
            let jw = choose|j: int|
                0 <= j < i && #[trigger] entry_matches(before[k], cfgs[j]) && no_later_key(
                    before[k],
                    cfgs,
                    j,
                    i,
                );
            assert(entry_matches(after[k], cfgs[jw]));
            // flag i bears the registered peer's key, never this entry's:
            // were they equal, k itself would have been the replaced slot.
            assert(before[k].public_key@ != pk);
            assert(cfg_key(cfgs[i]) == pk);
            assert forall|j2: int|
                #![trigger cfg_key(cfgs[j2])]
                jw < j2 < i + 1 implies cfg_key(cfgs[j2]) != after[k].public_key@ by {
                if j2 < i {
                    assert(no_later_key(before[k], cfgs, jw, i));
                }
            }
            assert(no_later_key(after[k], cfgs, jw, i + 1));
        }
    }
}

/// What the server does with one inbound wire datagram.
pub enum DispatchOutcome {
    /// Send this protocol reply back to the datagram's source.
    Reply(Vec<u8>),
    /// Write this decrypted IP packet to the TUN device.
    ToTunnel(Vec<u8>),
    /// Consumed: handshake bookkeeping only.
    Consumed,
    /// No peer could process the datagram; drop it.
    Dropped,
}

/// What the server does with one outbound IP packet read from TUN.
pub enum OutboundOutcome {
    /// Send this ciphertext datagram to this endpoint.
    Forward(Vec<u8>, Endpoint),
    /// The packet has no destination, or no peer owns it; drop it.
    NoRoute,
    /// The owning peer has no learned endpoint yet; drop the packet.
    NoEndpoint,
    /// The owning peer's handshake is still pending; the engine queued it.
    HandshakePending,
    /// The engine rejected the packet; drop it.
    Discarded,
}

} // verus!
