use vstd::prelude::*;

use crate::config::NetworkConfig;
use crate::ip::IpAddr;
use crate::order::{is_stable_sort, sort_peers, PeerOrder};
use crate::peer_info::{PeerClass, PeerInfo};
use crate::peer_table::{
    by_ip, distinct_ips, lemma_by_ip, lemma_by_ip_distinct, lemma_distinct_no_duplicates,
};

verus! {

/// The conditions that peers are picked out by.
#[derive(Clone, Copy, Debug)]
pub enum PeerFilter {
    /// The configuration admits the peer's address.
    Admitted(NetworkConfig),
    /// The peer is of one class.
    Class(PeerClass),
    /// The peer can be tried at time `now`.
    Connectable { now: u64, wakeup_interval: u64 },
    /// The peer may be told to others.
    Advertisable,
    /// The peer is saved to the file of peers.
    Saved,
}

impl PeerFilter {
    /// Whether the condition holds of `peer`.
    pub open spec fn spec_accepts(self, peer: PeerInfo) -> bool {
        match self {
            PeerFilter::Admitted(cfg) => cfg.spec_admits(peer.ip),
            PeerFilter::Class(class) => peer.spec_class() == class,
            PeerFilter::Connectable { now, wakeup_interval } => peer.spec_is_connectable(
                now,
                wakeup_interval,
            ),
            PeerFilter::Advertisable => peer.advertised && !peer.banned,
            PeerFilter::Saved => peer.banned || peer.advertised || peer.bootstrap,
        }
    }

    /// The condition as a function.
    pub open spec fn predicate(self) -> spec_fn(PeerInfo) -> bool {
        |peer: PeerInfo| self.spec_accepts(peer)
    }

    /// Whether the condition holds of `peer`.
    pub fn accepts(&self, peer: &PeerInfo) -> (r: bool)
        ensures
            r == self.spec_accepts(*peer),
    {
        match self {
            PeerFilter::Admitted(cfg) => cfg.admits(&peer.ip),
            PeerFilter::Class(class) => peer.class() == *class,
            PeerFilter::Connectable { now, wakeup_interval } => peer.is_connectable(
                *now,
                *wakeup_interval,
            ),
            PeerFilter::Advertisable => peer.advertised && !peer.banned,
            PeerFilter::Saved => peer.banned || peer.advertised || peer.bootstrap,
        }
    }
}

/// The smaller of two numbers.
pub open spec fn min(a: nat, b: nat) -> nat {
    if a < b {
        a
    } else {
        b
    }
}

/// The addresses of the peers of which a condition holds.
pub open spec fn members(peers: Map<IpAddr, PeerInfo>, filter: PeerFilter) -> Set<IpAddr> {
    peers.dom().filter(|ip: IpAddr| filter.spec_accepts(peers[ip]))
}

/// Whether `list` holds the peers of which a condition holds, each of them once.
pub open spec fn enumerates(
    list: Seq<PeerInfo>,
    peers: Map<IpAddr, PeerInfo>,
    filter: PeerFilter,
) -> bool {
    &&& distinct_ips(list)
    &&& forall|i: int|
        0 <= i < list.len() ==> members(peers, filter).contains((#[trigger] list[i]).ip)
            && peers[list[i].ip] == list[i]
    &&& forall|ip: IpAddr| #[trigger]
        members(peers, filter).contains(ip) ==> list.contains(peers[ip]) && peers[ip].ip == ip
}

/// An enumeration has as many peers as there are.
pub proof fn lemma_enumerates_len(
    list: Seq<PeerInfo>,
    peers: Map<IpAddr, PeerInfo>,
    filter: PeerFilter,
)
    requires
        enumerates(list, peers, filter),
    ensures
        members(peers, filter).finite(),
        members(peers, filter).len() == list.len(),
{
    let ips = list.map_values(|p: PeerInfo| p.ip);
    assert(ips.no_duplicates()) by {
        assert forall|i: int, j: int|
            0 <= i < ips.len() && 0 <= j < ips.len() && i != j implies ips[i] != ips[j] by {
            if i < j {
                assert(list[i].ip != list[j].ip);
            } else {
                assert(list[j].ip != list[i].ip);
            }
        }
    }
    assert(ips.to_set() =~= members(peers, filter)) by {
        assert forall|ip: IpAddr| members(peers, filter).contains(ip) implies ips.contains(ip) by {
            let i = choose|i: int| 0 <= i < list.len() && list[i] == peers[ip];
            assert(ips[i] == ip);
        }
        assert forall|ip: IpAddr| ips.contains(ip) implies members(peers, filter).contains(ip) by {
            let i = choose|i: int| 0 <= i < ips.len() && ips[i] == ip;
            assert(members(peers, filter).contains(list[i].ip));
        }
    }
    ips.unique_seq_to_set();
    vstd::seq_lib::seq_to_set_is_finite(ips);
}

/// Filtering the records of a map enumerates the peers of which the condition holds.
pub proof fn lemma_filter_enumerates(records: Seq<PeerInfo>, filter: PeerFilter)
    requires
        distinct_ips(records),
    ensures
        enumerates(records.filter(filter.predicate()), by_ip(records), filter),
    decreases records.len(),
{
    let list = records.filter(filter.predicate());
    let peers = by_ip(records);
    lemma_filter_subsequence(records, filter);
    lemma_by_ip(records);
    lemma_by_ip_distinct(records);
    broadcast use {Seq::lemma_filter_pred, Seq::lemma_filter_contains};

    assert forall|i: int| 0 <= i < list.len() implies members(peers, filter).contains(
        (#[trigger] list[i]).ip,
    ) && peers[list[i].ip] == list[i] by {
        assert(filter.predicate()(list[i]));
        assert(list.contains(list[i]));
        let k = choose|k: int| 0 <= k < records.len() && records[k] == list[i];
        assert(peers.contains_key(records[k].ip));
    }
    assert forall|ip: IpAddr| #[trigger] members(peers, filter).contains(
        ip,
    ) implies list.contains(peers[ip]) && peers[ip].ip == ip by {
        assert(peers.contains_key(ip));
        let k = choose|k: int| 0 <= k < records.len() && records[k] == peers[ip];
        assert(filter.predicate()(records[k]));
        assert(list.contains(records[k]));
    }
}

/// Filtering keeps records only, and keeps their addresses distinct.
proof fn lemma_filter_subsequence(records: Seq<PeerInfo>, filter: PeerFilter)
    requires
        distinct_ips(records),
    ensures
        distinct_ips(records.filter(filter.predicate())),
        forall|p: PeerInfo| #[trigger]
            records.filter(filter.predicate()).contains(p) ==> records.contains(p),
    decreases records.len(),
{
    reveal(Seq::filter);
    let list = records.filter(filter.predicate());
    if records.len() > 0 {
        let init = records.drop_last();
        assert(distinct_ips(init)) by {
            assert forall|i: int, j: int| 0 <= i < j < init.len() implies (#[trigger] init[i]).ip
                != (#[trigger] init[j]).ip by {
                assert(records[i].ip != records[j].ip);
            }
        }
        lemma_filter_subsequence(init, filter);
        let shorter = init.filter(filter.predicate());
        assert forall|p: PeerInfo| #[trigger] list.contains(p) implies records.contains(p) by {
            let i = choose|i: int| 0 <= i < list.len() && list[i] == p;
            if i < shorter.len() {
                assert(shorter[i] == p);
                assert(shorter.contains(p));
                let k = choose|k: int| 0 <= k < init.len() && init[k] == p;
                assert(records[k] == p);
            } else {
                assert(records[records.len() - 1] == p);
            }
        }
        assert forall|i: int, j: int| 0 <= i < j < list.len() implies (#[trigger] list[i]).ip != (
        #[trigger] list[j]).ip by {
            if j < shorter.len() {
                assert(shorter[i].ip != shorter[j].ip);
            } else {
                assert(shorter.contains(shorter[i]));
                let k = choose|k: int| 0 <= k < init.len() && init[k] == shorter[i];
                assert(records[k].ip != records[records.len() - 1].ip);
            }
        }
    }
}

/// The records of which the condition holds, in the order in which they come.
pub fn select(records: &Vec<PeerInfo>, filter: PeerFilter) -> (r: Vec<PeerInfo>)
    ensures
        r@ == records@.filter(filter.predicate()),
{
    let mut selected: Vec<PeerInfo> = Vec::new();
    proof {
        reveal(Seq::filter);
        assert(records@.take(0).filter(filter.predicate()) =~= Seq::<PeerInfo>::empty());
    }
    for i in 0..records.len()
        invariant
            selected@ == records@.take(i as int).filter(filter.predicate()),
    {
        proof {
            reveal(Seq::filter);
            assert(records@.take(i + 1).drop_last() =~= records@.take(i as int));
        }
        let peer = records[i];
        if filter.accepts(&peer) {
            selected.push(peer);
        }
    }
    assert(records@.take(records@.len() as int) =~= records@);
    selected
}

/// A sorted enumeration is an enumeration.
pub proof fn lemma_sorted_enumerates(
    order: PeerOrder,
    list: Seq<PeerInfo>,
    sorted: Seq<PeerInfo>,
    peers: Map<IpAddr, PeerInfo>,
    filter: PeerFilter,
)
    requires
        enumerates(list, peers, filter),
        is_stable_sort(order, list, sorted),
    ensures
        enumerates(sorted, peers, filter),
{
    assert forall|i: int| 0 <= i < sorted.len() implies members(peers, filter).contains(
        (#[trigger] sorted[i]).ip,
    ) && peers[sorted[i].ip] == sorted[i] by {
        assert(sorted.contains(sorted[i]));
        let k = choose|k: int| 0 <= k < list.len() && list[k] == sorted[i];
        assert(members(peers, filter).contains(list[k].ip));
    }
    assert forall|i: int, j: int| 0 <= i < j < sorted.len() implies (#[trigger] sorted[i]).ip != (
    #[trigger] sorted[j]).ip by {
        assert(peers[sorted[i].ip] == sorted[i] && peers[sorted[j].ip] == sorted[j]);
    }
}

/// Whether `ips` are the addresses of the peers of which a condition holds, the best of them
/// first, and no more than `limit`. Where peers rank equally, it is open which comes first.
pub open spec fn best_first(
    peers: Map<IpAddr, PeerInfo>,
    filter: PeerFilter,
    order: PeerOrder,
    limit: nat,
    ips: Seq<IpAddr>,
) -> bool {
    &&& ips.no_duplicates()
    &&& ips.len() == min(limit, members(peers, filter).len())
    &&& forall|i: int|
        0 <= i < ips.len() ==> members(peers, filter).contains(#[trigger] ips[i])
    &&& forall|i: int, j: int|
        0 <= i < j < ips.len() ==> order.le(peers[#[trigger] ips[i]], peers[#[trigger] ips[j]])
    &&& forall|i: int, ip: IpAddr|
        0 <= i < ips.len() && #[trigger] members(peers, filter).contains(ip) && !ips.contains(ip)
            ==> order.le(peers[#[trigger] ips[i]], peers[ip])
}

/// The addresses of the records of which the condition holds, the best first, and no more than
/// `limit`.
pub fn best_ips(
    records: &Vec<PeerInfo>,
    filter: PeerFilter,
    order: PeerOrder,
    limit: usize,
) -> (ips: Vec<IpAddr>)
    requires
        distinct_ips(records@),
    ensures
        best_first(by_ip(records@), filter, order, limit as nat, ips@),
{
    let ghost peers = by_ip(records@);
    let selected = select(records, filter);
    proof {
        lemma_filter_enumerates(records@, filter);
        lemma_enumerates_len(selected@, peers, filter);
        lemma_distinct_no_duplicates(selected@);
    }
    let sorted = sort_peers(&selected, order);
    proof {
        lemma_sorted_enumerates(order, selected@, sorted@, peers, filter);
    }
    let count: usize = if limit < sorted.len() {
        limit
    } else {
        sorted.len()
    };
    let mut ips: Vec<IpAddr> = Vec::new();
    for i in 0..count
        invariant
            count <= sorted@.len(),
            ips@.len() == i,
            forall|k: int| 0 <= k < i ==> #[trigger] ips@[k] == sorted@[k].ip,
    {
        ips.push(sorted[i].ip);
    }
    proof {
        assert forall|i: int| 0 <= i < ips@.len() implies members(peers, filter).contains(
            #[trigger] ips@[i],
        ) && peers[ips@[i]] == sorted@[i] by {
            assert(members(peers, filter).contains(sorted@[i].ip));
        }
        assert forall|i: int, j: int|
            0 <= i < ips@.len() && 0 <= j < ips@.len() && i != j implies ips@[i] != ips@[j] by {
            if i < j {
                assert(sorted@[i].ip != sorted@[j].ip);
            } else {
                assert(sorted@[j].ip != sorted@[i].ip);
            }
        }
        assert forall|i: int, ip: IpAddr|
            0 <= i < ips@.len() && #[trigger] members(peers, filter).contains(ip)
                && !ips@.contains(ip) implies order.le(peers[#[trigger] ips@[i]], peers[ip]) by {
            let k = choose|k: int| 0 <= k < sorted@.len() && sorted@[k] == peers[ip];
            if k < count {
                assert(ips@[k] == ip);
            }
            assert(order.le(sorted@[i], sorted@[k]));
        }
        assert forall|i: int, j: int| 0 <= i < j < ips@.len() implies order.le(
            peers[#[trigger] ips@[i]],
            peers[#[trigger] ips@[j]],
        ) by {
            assert(order.le(sorted@[i], sorted@[j]));
        }
    }
    ips
}

} // verus!
