use vstd::prelude::*;

use crate::ip::IpAddr;
use crate::peer_info::PeerInfo;

verus! {

/// The peers of `records` by their address. Where an address occurs more than once, the last
/// record counts.
pub open spec fn by_ip(records: Seq<PeerInfo>) -> Map<IpAddr, PeerInfo>
    decreases records.len(),
{
    if records.len() == 0 {
        Map::empty()
    } else {
        by_ip(records.drop_last()).insert(records.last().ip, records.last())
    }
}

/// Whether no address occurs twice.
pub open spec fn distinct_ips(records: Seq<PeerInfo>) -> bool {
    forall|i: int, j: int|
        0 <= i < j < records.len() ==> (#[trigger] records[i]).ip != (#[trigger] records[j]).ip
}

/// Whether `records` lists the peers of `peers`, each of them once.
pub open spec fn lists(records: Seq<PeerInfo>, peers: Map<IpAddr, PeerInfo>) -> bool {
    distinct_ips(records) && by_ip(records) == peers
}

/// Whether there are finitely many peers, each of them at its own address.
pub open spec fn well_keyed(peers: Map<IpAddr, PeerInfo>) -> bool {
    &&& peers.dom().finite()
    &&& forall|ip: IpAddr| #[trigger] peers.contains_key(ip) ==> peers[ip].ip == ip
}

/// Every address of `by_ip(records)` is that of a record, the peer there is such a record, and
/// there are finitely many.
pub proof fn lemma_by_ip(records: Seq<PeerInfo>)
    ensures
        by_ip(records).dom().finite(),
        forall|i: int|
            0 <= i < records.len() ==> by_ip(records).contains_key((#[trigger] records[i]).ip),
        forall|ip: IpAddr| #[trigger]
            by_ip(records).contains_key(ip) ==> records.contains(by_ip(records)[ip])
                && by_ip(records)[ip].ip == ip,
    decreases records.len(),
{
    if records.len() > 0 {
        let init = records.drop_last();
        lemma_by_ip(init);
        assert forall|i: int| 0 <= i < records.len() implies by_ip(records).contains_key(
            (#[trigger] records[i]).ip,
        ) by {
            if i < init.len() {
                assert(records[i] == init[i]);
            }
        }
        assert forall|ip: IpAddr| #[trigger] by_ip(records).contains_key(ip) implies (
        records.contains(by_ip(records)[ip]) && by_ip(records)[ip].ip == ip) by {
            if ip == records.last().ip {
                assert(records[records.len() - 1] == by_ip(records)[ip]);
            } else {
                let i = choose|i: int| 0 <= i < init.len() && init[i] == by_ip(init)[ip];
                assert(records[i] == by_ip(records)[ip]);
            }
        }
    }
}

/// Where no address occurs twice, every record is the peer at its address.
pub proof fn lemma_by_ip_distinct(records: Seq<PeerInfo>)
    requires
        distinct_ips(records),
    ensures
        forall|i: int|
            0 <= i < records.len() ==> by_ip(records)[(#[trigger] records[i]).ip] == records[i],
{
    lemma_by_ip(records);
    assert forall|i: int| 0 <= i < records.len() implies by_ip(records)[(
    #[trigger] records[i]).ip] == records[i] by {
        let ip = records[i].ip;
        assert(by_ip(records).contains_key(ip));
        let j = choose|j: int| 0 <= j < records.len() && records[j] == by_ip(records)[ip];
        if i < j {
            assert(records[i].ip != records[j].ip);
        }
        if j < i {
            assert(records[j].ip != records[i].ip);
        }
    }
}

/// Two maps by address are equal when every record of each is the peer at its address in the
/// other.
pub proof fn lemma_lists(records: Seq<PeerInfo>, peers: Map<IpAddr, PeerInfo>)
    requires
        distinct_ips(records),
        forall|i: int|
            0 <= i < records.len() ==> peers.contains_key((#[trigger] records[i]).ip)
                && peers[records[i].ip] == records[i],
        forall|ip: IpAddr| #[trigger]
            peers.contains_key(ip) ==> records.contains(peers[ip]) && peers[ip].ip == ip,
    ensures
        lists(records, peers),
{
    lemma_by_ip(records);
    lemma_by_ip_distinct(records);
    assert(by_ip(records) =~= peers) by {
        assert forall|ip: IpAddr| peers.contains_key(ip) implies by_ip(records).contains_key(
            ip,
        ) by {
            let i = choose|i: int| 0 <= i < records.len() && records[i] == peers[ip];
            assert(by_ip(records).contains_key(records[i].ip));
        }
        assert forall|ip: IpAddr| by_ip(records).contains_key(ip) implies peers.contains_key(ip)
            && peers[ip] == by_ip(records)[ip] by {
            let i = choose|i: int| 0 <= i < records.len() && records[i] == by_ip(records)[ip];
            assert(peers.contains_key(records[i].ip));
        }
    }
}

/// Distinct addresses make distinct records.
pub proof fn lemma_distinct_no_duplicates(records: Seq<PeerInfo>)
    requires
        distinct_ips(records),
    ensures
        records.no_duplicates(),
{
    assert forall|i: int, j: int|
        0 <= i < records.len() && 0 <= j < records.len() && i != j implies records[i]
        != records[j] by {
        if i < j {
            assert(records[i].ip != records[j].ip);
        } else {
            assert(records[j].ip != records[i].ip);
        }
    }
}

/// The known peers, at most one for each address.
pub struct PeerTable {
    entries: Vec<PeerInfo>,
}

impl View for PeerTable {
    type V = Map<IpAddr, PeerInfo>;

    closed spec fn view(&self) -> Map<IpAddr, PeerInfo> {
        by_ip(self.entries@)
    }
}

impl PeerTable {
    /// No address occurs twice among the entries.
    pub closed spec fn wf(&self) -> bool {
        distinct_ips(self.entries@)
    }

    /// What the table holds is well keyed.
    pub proof fn lemma_well_keyed(&self)
        ensures
            well_keyed(self@),
    {
        lemma_by_ip(self.entries@);
    }

    /// A table without peers.
    pub fn new() -> (r: PeerTable)
        ensures
            r.wf(),
            r@ == Map::<IpAddr, PeerInfo>::empty(),
    {
        PeerTable { entries: Vec::new() }
    }

    /// The table that holds the given records.
    pub fn from_distinct(records: Vec<PeerInfo>) -> (r: PeerTable)
        requires
            distinct_ips(records@),
        ensures
            r.wf(),
            r@ == by_ip(records@),
    {
        PeerTable { entries: records }
    }

    /// A table of the given records; where an address occurs more than once, the last record
    /// counts.
    pub fn from_records(records: &Vec<PeerInfo>) -> (r: PeerTable)
        ensures
            r.wf(),
            r@ == by_ip(records@),
    {
        let mut table = PeerTable::new();
        for i in 0..records.len()
            invariant
                table.wf(),
                table@ == by_ip(records@.take(i as int)),
        {
            table.insert(records[i]);
            assert(records@.take(i + 1).drop_last() =~= records@.take(i as int));
        }
        assert(records@.take(records@.len() as int) =~= records@);
        table
    }

    /// The place of the entry for `ip`.
    fn position(&self, ip: &IpAddr) -> (r: Option<usize>)
        requires
            self.wf(),
        ensures
            match r {
                Some(i) => i < self.entries@.len() && self.entries@[i as int].ip == *ip
                    && self@.contains_key(*ip) && self@[*ip] == self.entries@[i as int],
                None => !self@.contains_key(*ip),
            },
    {
        proof {
            lemma_by_ip(self.entries@);
            lemma_by_ip_distinct(self.entries@);
        }
        for i in 0..self.entries.len()
            invariant
                forall|j: int| 0 <= j < i ==> (#[trigger] self.entries@[j]).ip != *ip,
                forall|j: int|
                    0 <= j < self.entries@.len() ==> self@.contains_key(
                        (#[trigger] self.entries@[j]).ip,
                    ) && self@[self.entries@[j].ip] == self.entries@[j],
        {
            if self.entries[i].ip == *ip {
                return Some(i);
            }
        }
        None
    }

    /// The peer at `ip`.
    pub fn get(&self, ip: &IpAddr) -> (r: Option<PeerInfo>)
        requires
            self.wf(),
        ensures
            match r {
                Some(peer) => self@.contains_key(*ip) && self@[*ip] == peer && peer.ip == *ip,
                None => !self@.contains_key(*ip),
            },
    {
        match self.position(ip) {
            Some(i) => Some(self.entries[i]),
            None => None,
        }
    }

    /// Puts `peer` at its address.
    pub fn insert(&mut self, peer: PeerInfo)
        requires
            old(self).wf(),
        ensures
            final(self).wf(),
            final(self)@ == old(self)@.insert(peer.ip, peer),
    {
        let ghost before = self.entries@;
        match self.position(&peer.ip) {
            Some(i) => {
                self.entries.set(i, peer);
                proof {
                    lemma_by_ip(before);
                    lemma_by_ip_distinct(before);
                    let peers = by_ip(before).insert(peer.ip, peer);
                    assert(self.entries@ =~= before.update(i as int, peer));
                    assert forall|ip: IpAddr| #[trigger] peers.contains_key(
                        ip,
                    ) implies self.entries@.contains(peers[ip]) && peers[ip].ip == ip by {
                        if ip == peer.ip {
                            assert(self.entries@[i as int] == peer);
                        } else {
                            let j = choose|j: int|
                                0 <= j < before.len() && before[j] == by_ip(before)[ip];
                            assert(self.entries@[j] == before[j]);
                        }
                    }
                    assert forall|j: int|
                        0 <= j < self.entries@.len() implies peers.contains_key(
                        (#[trigger] self.entries@[j]).ip,
                    ) && peers[self.entries@[j].ip] == self.entries@[j] by {
                        if j != i {
                            assert(before[j] == self.entries@[j]);
                            assert(before[i as int].ip == peer.ip);
                            if j < i {
                                assert(before[j].ip != before[i as int].ip);
                            } else {
                                assert(before[i as int].ip != before[j].ip);
                            }
                        }
                    }
                    assert(distinct_ips(self.entries@)) by {
                        assert forall|a: int, b: int|
                            0 <= a < b < self.entries@.len() implies (
                        #[trigger] self.entries@[a]).ip != (#[trigger] self.entries@[b]).ip by {
                            assert(before[a].ip != before[b].ip);
                        }
                    }
                    lemma_lists(self.entries@, peers);
                }
            },
            None => {
                self.entries.push(peer);
                proof {
                    lemma_by_ip(before);
                    assert(self.entries@.drop_last() =~= before);
                    assert forall|a: int, b: int|
                        0 <= a < b < self.entries@.len() implies (#[trigger] self.entries@[a]).ip
                        != (#[trigger] self.entries@[b]).ip by {
                        if b < before.len() {
                            assert(before[a].ip != before[b].ip);
                        } else {
                            assert(by_ip(before).contains_key(before[a].ip));
                        }
                    }
                }
            },
        }
    }

    /// The records of all peers, in no particular order.
    pub fn records(&self) -> (r: Vec<PeerInfo>)
        requires
            self.wf(),
        ensures
            lists(r@, self@),
    {
        let records = self.entries.clone();
        assert(records@ =~= self.entries@);
        records
    }
}

} // verus!
