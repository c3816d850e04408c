use vstd::prelude::*;

use crate::ip::IpAddr;
use crate::peer_info::PeerInfo;

verus! {

/// What is counted for each peer and for all of them together.
#[derive(Clone, Copy, Debug, PartialEq, Eq, Structural)]
pub enum ConnectionKind {
    OutAttempt,
    Out,
    In,
}

impl ConnectionKind {
    /// How many connections of this kind there are with `peer`.
    pub open spec fn count(self, peer: PeerInfo) -> nat {
        match self {
            ConnectionKind::OutAttempt => peer.active_out_connection_attempts as nat,
            ConnectionKind::Out => peer.active_out_connections as nat,
            ConnectionKind::In => peer.active_in_connections as nat,
        }
    }

    /// How many connections of this kind there are with the peer at `ip`, if it is known.
    pub open spec fn count_at(self, peers: Map<IpAddr, PeerInfo>, ip: IpAddr) -> nat {
        if peers.contains_key(ip) {
            self.count(peers[ip])
        } else {
            0
        }
    }
}

/// How many connections of a kind there are with all peers together.
pub open spec fn total(peers: Map<IpAddr, PeerInfo>, kind: ConnectionKind) -> nat
    decreases peers.dom().len(),
    when peers.dom().finite()
{
    if peers.dom().len() == 0 {
        0
    } else {
        let ip = peers.dom().choose();
        kind.count(peers[ip]) + total(peers.remove(ip), kind)
    }
}

/// The total is that of one peer and that of the others.
pub proof fn lemma_total_remove(peers: Map<IpAddr, PeerInfo>, kind: ConnectionKind, ip: IpAddr)
    requires
        peers.dom().finite(),
        peers.contains_key(ip),
    ensures
        total(peers, kind) == kind.count(peers[ip]) + total(peers.remove(ip), kind),
    decreases peers.dom().len(),
{
    let c = peers.dom().choose();
    if c != ip {
        lemma_total_remove(peers.remove(c), kind, ip);
        lemma_total_remove(peers.remove(ip), kind, c);
        assert(peers.remove(c).remove(ip) =~= peers.remove(ip).remove(c));
    }
}

/// How the total changes when a peer is put in or replaced.
pub proof fn lemma_total_insert(
    peers: Map<IpAddr, PeerInfo>,
    kind: ConnectionKind,
    ip: IpAddr,
    peer: PeerInfo,
)
    requires
        peers.dom().finite(),
    ensures
        kind.count_at(peers, ip) <= total(peers, kind),
        total(peers.insert(ip, peer), kind) == total(peers, kind) - kind.count_at(peers, ip)
            + kind.count(peer),
{
    lemma_total_remove(peers.insert(ip, peer), kind, ip);
    if peers.contains_key(ip) {
        lemma_total_remove(peers, kind, ip);
        assert(peers.insert(ip, peer).remove(ip) =~= peers.remove(ip));
    } else {
        assert(peers.insert(ip, peer).remove(ip) =~= peers);
    }
}

/// Two sets of peers that agree on every address have the same total.
pub proof fn lemma_total_agree(
    a: Map<IpAddr, PeerInfo>,
    b: Map<IpAddr, PeerInfo>,
    kind: ConnectionKind,
)
    requires
        a.dom().finite(),
        b.dom().finite(),
        forall|ip: IpAddr| #[trigger] kind.count_at(a, ip) == kind.count_at(b, ip),
    ensures
        total(a, kind) == total(b, kind),
    decreases a.dom().len() + b.dom().len(),
{
    if a.dom().len() > 0 {
        let ip = a.dom().choose();
        assert(kind.count_at(a, ip) == kind.count_at(b, ip));
        let (ra, rb) = (a.remove(ip), b.remove(ip));
        assert forall|x: IpAddr| #[trigger] kind.count_at(ra, x) == kind.count_at(rb, x) by {
            assert(kind.count_at(a, x) == kind.count_at(b, x));
        }
        if b.contains_key(ip) {
            lemma_total_remove(b, kind, ip);
        } else {
            assert(rb =~= b);
        }
        lemma_total_agree(ra, rb, kind);
    } else if b.dom().len() > 0 {
        let ip = b.dom().choose();
        assert(!a.contains_key(ip));
        assert(kind.count_at(a, ip) == kind.count_at(b, ip));
        let rb = b.remove(ip);
        assert forall|x: IpAddr| #[trigger] kind.count_at(a, x) == kind.count_at(rb, x) by {
            assert(kind.count_at(a, x) == kind.count_at(b, x));
        }
        lemma_total_agree(a, rb, kind);
    }
}

/// Peers without connections of a kind have none together.
pub proof fn lemma_total_zero(peers: Map<IpAddr, PeerInfo>, kind: ConnectionKind)
    requires
        peers.dom().finite(),
        forall|ip: IpAddr| #[trigger] peers.contains_key(ip) ==> kind.count(peers[ip]) == 0,
    ensures
        total(peers, kind) == 0,
{
    let none = Map::<IpAddr, PeerInfo>::empty();
    assert forall|ip: IpAddr| #[trigger] kind.count_at(peers, ip) == kind.count_at(none, ip) by {
    }
    lemma_total_agree(peers, none, kind);
}

} // verus!
