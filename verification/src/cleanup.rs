use vstd::prelude::*;

use crate::announcement::{announced, announced_ips, announcement, lemma_announced};
use crate::config::NetworkConfig;
use crate::ip::IpAddr;
use crate::order::{is_stable_sort, sort_peers, PeerOrder};
use crate::peer_info::{PeerClass, PeerInfo};
use crate::peer_table::{
    by_ip, distinct_ips, lemma_by_ip, lemma_by_ip_distinct, lemma_distinct_no_duplicates,
    lemma_lists, lists, well_keyed, PeerTable,
};
use crate::selection::{
    enumerates, lemma_enumerates_len, lemma_filter_enumerates, lemma_sorted_enumerates, members,
    min, select, PeerFilter,
};

verus! {

/// The peer, marked as advertised if `announced` is set.
pub open spec fn marked(peer: PeerInfo, announced: bool) -> PeerInfo {
    if announced {
        PeerInfo { advertised: true, ..peer }
    } else {
        peer
    }
}

/// The peers among which a cleanup chooses: those that are known, marked as advertised if they
/// are announced, and those that are only announced; as far as the configuration admits them.
pub open spec fn cleanup_pool(
    cfg: NetworkConfig,
    before: Map<IpAddr, PeerInfo>,
    known: Seq<IpAddr>,
) -> Map<IpAddr, PeerInfo> {
    Map::new(
        |ip: IpAddr| cfg.spec_admits(ip) && (before.contains_key(ip) || known.contains(ip)),
        |ip: IpAddr|
            if before.contains_key(ip) {
                marked(before[ip], known.contains(ip))
            } else {
                PeerInfo::spec_unknown(ip, true)
            },
    )
}

/// Whether `after` holds as many peers of a class as the limit allows.
pub open spec fn clipped(
    pool: Map<IpAddr, PeerInfo>,
    after: Map<IpAddr, PeerInfo>,
    class: PeerClass,
    limit: nat,
) -> bool {
    members(after, PeerFilter::Class(class)).len() == min(
        limit,
        members(pool, PeerFilter::Class(class)).len(),
    )
}

/// Whether idle peer `a` may be preferred to idle peer `b`: `a` was seen alive later or, failing
/// that, failed earlier. If the two rank equally, peers that were known before win over those
/// that are only announced, and of the latter the one that is announced first.
pub open spec fn idle_preferred(
    before: Map<IpAddr, PeerInfo>,
    known: Seq<IpAddr>,
    a: PeerInfo,
    b: PeerInfo,
) -> bool {
    ||| PeerOrder::LatestAlive.lt(a, b)
    ||| {
        &&& PeerOrder::LatestAlive.le(a, b)
        &&& (before.contains_key(a.ip) || (!before.contains_key(b.ip) && known.index_of(a.ip)
            < known.index_of(b.ip)))
    }
}

/// Whether `after` is what a cleanup makes of the peers `before` and the announced addresses.
///
/// All active and bootstrap peers stay. Of the inactive banned peers and of the idle ones stay as
/// many as the configuration allows, and those that are left out do not rank before those that
/// stay. All other peers go. Where banned peers, or idle peers that were known before, rank
/// equally, it is open which of them stay.
pub open spec fn cleaned(
    cfg: NetworkConfig,
    before: Map<IpAddr, PeerInfo>,
    new_peers: Option<Seq<IpAddr>>,
    after: Map<IpAddr, PeerInfo>,
) -> bool {
    let known = announced(cfg, new_peers);
    let pool = cleanup_pool(cfg, before, known);
    &&& after.submap_of(pool)
    &&& members(pool, PeerFilter::Class(PeerClass::Kept)).subset_of(after.dom())
    &&& members(after, PeerFilter::Class(PeerClass::Dropped)) =~= Set::empty()
    &&& clipped(pool, after, PeerClass::Banned, cfg.max_banned_peers as nat)
    &&& clipped(pool, after, PeerClass::Idle, cfg.max_idle_peers as nat)
    &&& forall|a: IpAddr, b: IpAddr|
        members(after, PeerFilter::Class(PeerClass::Banned)).contains(a) && members(
            pool,
            PeerFilter::Class(PeerClass::Banned),
        ).contains(b) && !after.contains_key(b) ==> PeerOrder::LatestFailure.le(pool[a], pool[b])
    &&& forall|a: IpAddr, b: IpAddr|
        members(after, PeerFilter::Class(PeerClass::Idle)).contains(a) && members(
            pool,
            PeerFilter::Class(PeerClass::Idle),
        ).contains(b) && !after.contains_key(b) ==> idle_preferred(before, known, pool[a], pool[b])
}

/// Whether a cleanup of `peers` has nothing to do: every peer is admitted and of a class that is
/// not dropped, and the classes that are limited stay within their limits.
pub open spec fn clean_peers(cfg: NetworkConfig, peers: Map<IpAddr, PeerInfo>) -> bool {
    &&& forall|ip: IpAddr| #[trigger] peers.contains_key(ip) ==> cfg.spec_admits(ip)
    &&& forall|ip: IpAddr| #[trigger]
        peers.contains_key(ip) ==> peers[ip].spec_class() != PeerClass::Dropped
    &&& members(peers, PeerFilter::Class(PeerClass::Banned)).len() <= cfg.max_banned_peers
    &&& members(peers, PeerFilter::Class(PeerClass::Idle)).len() <= cfg.max_idle_peers
}

/// The known peers with those marked as advertised that are announced.
spec fn marked_peers(
    before: Map<IpAddr, PeerInfo>,
    known: Seq<IpAddr>,
) -> Map<IpAddr, PeerInfo> {
    before.map_entries(|ip: IpAddr, peer: PeerInfo| marked(peer, known.contains(ip)))
}

/// Whether `fresh` holds new records for the admitted addresses among the first `n` announced
/// ones that were not known before, those at `places`, in the order in which they are announced.
spec fn are_fresh(
    cfg: NetworkConfig,
    before: Map<IpAddr, PeerInfo>,
    known: Seq<IpAddr>,
    n: int,
    fresh: Seq<PeerInfo>,
    places: Seq<int>,
) -> bool {
    &&& places.len() == fresh.len()
    &&& forall|i: int|
        0 <= i < fresh.len() ==> 0 <= #[trigger] places[i] < n && !before.contains_key(
            known[places[i]],
        ) && cfg.spec_admits(known[places[i]])
    &&& forall|i: int|
        0 <= i < fresh.len() ==> #[trigger] fresh[i] == PeerInfo::spec_unknown(
            known[places[i]],
            true,
        )
    &&& forall|i: int, j: int|
        0 <= i < j < fresh.len() ==> #[trigger] places[i] < #[trigger] places[j]
    &&& forall|k: int|
        0 <= k < n && !before.contains_key(#[trigger] known[k]) && cfg.spec_admits(known[k])
            ==> places.contains(k)
}

/// The admitted records of the marked peers and the fresh records list the pool.
proof fn lemma_pool(
    cfg: NetworkConfig,
    before: Map<IpAddr, PeerInfo>,
    known: Seq<IpAddr>,
    records: Seq<PeerInfo>,
    fresh: Seq<PeerInfo>,
    places: Seq<int>,
)
    requires
        well_keyed(before),
        known.no_duplicates(),
        lists(records, marked_peers(before, known)),
        are_fresh(cfg, before, known, known.len() as int, fresh, places),
    ensures
        lists(
            records.filter(PeerFilter::Admitted(cfg).predicate()) + fresh,
            cleanup_pool(cfg, before, known),
        ),
{
    let filter = PeerFilter::Admitted(cfg);
    let admitted = records.filter(filter.predicate());
    let all = admitted + fresh;
    let pool = cleanup_pool(cfg, before, known);
    let marked_map = marked_peers(before, known);
    lemma_filter_enumerates(records, filter);
    assert(enumerates(admitted, marked_map, filter));
    assert forall|i: int| 0 <= i < all.len() implies pool.contains_key((#[trigger] all[i]).ip)
        && pool[all[i].ip] == all[i] by {
        if i < admitted.len() {
            assert(all[i] == admitted[i]);
            assert(members(marked_map, filter).contains(admitted[i].ip));
            assert(marked_map[admitted[i].ip] == admitted[i]);
        } else {
            let j = i - admitted.len();
            assert(all[i] == fresh[j]);
            assert(0 <= places[j] < known.len());
            assert(known.contains(known[places[j]]));
        }
    }
    assert forall|i: int, j: int| 0 <= i < j < all.len() implies (#[trigger] all[i]).ip != (
    #[trigger] all[j]).ip by {
        if j < admitted.len() {
            assert(admitted[i].ip != admitted[j].ip);
        } else if i < admitted.len() {
            assert(members(marked_map, filter).contains(admitted[i].ip));
            assert(before.contains_key(all[i].ip));
            assert(fresh[j - admitted.len()] == all[j]);
            assert(!before.contains_key(known[places[j - admitted.len()]]));
        } else {
            let (a, b) = (i - admitted.len(), j - admitted.len());
            assert(all[i] == fresh[a] && all[j] == fresh[b]);
            assert(places[a] < places[b]);
            assert(0 <= places[a] && places[b] < known.len());
        }
    }
    assert forall|ip: IpAddr| #[trigger] pool.contains_key(ip) implies all.contains(pool[ip])
        && pool[ip].ip == ip by {
        if before.contains_key(ip) {
            assert(marked_map.contains_key(ip));
            assert(marked_map[ip] == pool[ip]);
            assert(before[ip].ip == ip);
            assert(members(marked_map, filter).contains(ip));
            let i = choose|i: int| 0 <= i < admitted.len() && admitted[i] == marked_map[ip];
            assert(all[i] == pool[ip]);
        } else {
            let k = choose|k: int| 0 <= k < known.len() && known[k] == ip;
            assert(places.contains(k));
            let j = choose|j: int| 0 <= j < places.len() && places[j] == k;
            assert(all[admitted.len() + j] == fresh[j]);
        }
    }
    lemma_lists(all, pool);
}

/// The idle peers of the pool, in the order of its records, are known ones and then the fresh
/// ones.
proof fn lemma_idle_of_pool(admitted: Seq<PeerInfo>, fresh: Seq<PeerInfo>)
    requires
        forall|i: int|
            0 <= i < fresh.len() ==> (#[trigger] fresh[i]).spec_class() == PeerClass::Idle,
    ensures
        (admitted + fresh).filter(PeerFilter::Class(PeerClass::Idle).predicate())
            == admitted.filter(PeerFilter::Class(PeerClass::Idle).predicate()) + fresh,
{
    let p = PeerFilter::Class(PeerClass::Idle).predicate();
    Seq::filter_distributes_over_add(admitted, fresh, p);
    lemma_filter_all(fresh, p);
}

/// Filtering by a condition that holds throughout changes nothing.
proof fn lemma_filter_all(s: Seq<PeerInfo>, p: spec_fn(PeerInfo) -> bool)
    requires
        forall|i: int| 0 <= i < s.len() ==> p(#[trigger] s[i]),
    ensures
        s.filter(p) == s,
    decreases s.len(),
{
    reveal(Seq::filter);
    if s.len() > 0 {
        assert(p(s[s.len() - 1]));
        let init = s.drop_last();
        assert forall|i: int| 0 <= i < init.len() implies p(#[trigger] init[i]) by {
            assert(p(s[i]));
        }
        lemma_filter_all(init, p);
        assert(init.push(s.last()) =~= s);
    }
}

/// In the sorted idle peers, each is preferred to those behind it.
proof fn lemma_idle_preferred(
    cfg: NetworkConfig,
    before: Map<IpAddr, PeerInfo>,
    known: Seq<IpAddr>,
    old_idle: Seq<PeerInfo>,
    fresh: Seq<PeerInfo>,
    places: Seq<int>,
    sorted: Seq<PeerInfo>,
    i: int,
    j: int,
)
    requires
        known.no_duplicates(),
        are_fresh(cfg, before, known, known.len() as int, fresh, places),
        forall|k: int|
            0 <= k < old_idle.len() ==> before.contains_key((#[trigger] old_idle[k]).ip),
        is_stable_sort(PeerOrder::LatestAlive, old_idle + fresh, sorted),
        0 <= i < j < sorted.len(),
    ensures
        idle_preferred(before, known, sorted[i], sorted[j]),
{
    let order = PeerOrder::LatestAlive;
    let idle = old_idle + fresh;
    let (a, b) = (sorted[i], sorted[j]);
    assert(order.le(a, b));
    assert(sorted.contains(a) && sorted.contains(b));
    let k = choose|k: int| 0 <= k < idle.len() && idle[k] == a;
    let l = choose|l: int| 0 <= l < idle.len() && idle[l] == b;
    if k < old_idle.len() {
        assert(before.contains_key(old_idle[k].ip));
    } else if !order.lt(a, b) {
        assert(order.key(a) == order.key(b));
        assert(sorted[i] == idle[k] && sorted[j] == idle[l]);
        assert(k < l);
        let (x, y) = (k - old_idle.len(), l - old_idle.len());
        assert(a == fresh[x] && b == fresh[y]);
        assert(places[x] < places[y]);
        assert(0 <= places[x] && places[y] < known.len());
        assert(known.index_of(known[places[x]]) == places[x]);
        assert(known.index_of(known[places[y]]) == places[y]);
    }
}

/// The first peers of an enumeration of one class enumerate that class in a map that holds them
/// and otherwise only peers of other classes.
proof fn lemma_gathered(
    pool: Map<IpAddr, PeerInfo>,
    kept: Seq<PeerInfo>,
    banned: Seq<PeerInfo>,
    idle: Seq<PeerInfo>,
    banned_count: int,
    idle_count: int,
)
    requires
        enumerates(kept, pool, PeerFilter::Class(PeerClass::Kept)),
        enumerates(banned, pool, PeerFilter::Class(PeerClass::Banned)),
        enumerates(idle, pool, PeerFilter::Class(PeerClass::Idle)),
        0 <= banned_count <= banned.len(),
        0 <= idle_count <= idle.len(),
    ensures
        ({
            let gathered = kept + banned.take(banned_count) + idle.take(idle_count);
            let after = by_ip(gathered);
            &&& distinct_ips(gathered)
            &&& after.submap_of(pool)
            &&& members(pool, PeerFilter::Class(PeerClass::Kept)).subset_of(after.dom())
            &&& members(after, PeerFilter::Class(PeerClass::Dropped)) =~= Set::empty()
            &&& enumerates(
                banned.take(banned_count),
                after,
                PeerFilter::Class(PeerClass::Banned),
            )
            &&& enumerates(idle.take(idle_count), after, PeerFilter::Class(PeerClass::Idle))
        }),
{
    let some_banned = banned.take(banned_count);
    let some_idle = idle.take(idle_count);
    let gathered = kept + some_banned + some_idle;
    let after = by_ip(gathered);
    let (nk, nb) = (kept.len() as int, kept.len() + banned_count);
    assert forall|i: int| 0 <= i < gathered.len() implies {
        &&& pool.contains_key((#[trigger] gathered[i]).ip)
        &&& pool[gathered[i].ip] == gathered[i]
        &&& gathered[i].spec_class() == if i < nk {
            PeerClass::Kept
        } else if i < nb {
            PeerClass::Banned
        } else {
            PeerClass::Idle
        }
    } by {
        if i < nk {
            assert(gathered[i] == kept[i]);
            assert(members(pool, PeerFilter::Class(PeerClass::Kept)).contains(kept[i].ip));
        } else if i < nb {
            assert(gathered[i] == banned[i - nk]);
            assert(members(pool, PeerFilter::Class(PeerClass::Banned)).contains(
                banned[i - nk].ip,
            ));
        } else {
            assert(gathered[i] == idle[i - nb]);
            assert(members(pool, PeerFilter::Class(PeerClass::Idle)).contains(idle[i - nb].ip));
        }
    }
    assert forall|i: int, j: int| 0 <= i < j < gathered.len() implies (#[trigger] gathered[i]).ip
        != (#[trigger] gathered[j]).ip by {
        assert(pool[gathered[i].ip] == gathered[i]);
        assert(pool[gathered[j].ip] == gathered[j]);
        if j < nk {
            assert(kept[i].ip != kept[j].ip);
        } else if nk <= i && j < nb {
            assert(banned[i - nk].ip != banned[j - nk].ip);
        } else if nb <= i {
            assert(idle[i - nb].ip != idle[j - nb].ip);
        }
    }
    lemma_by_ip(gathered);
    lemma_by_ip_distinct(gathered);
    assert forall|ip: IpAddr| #[trigger] after.contains_key(ip) implies pool.contains_key(ip)
        && pool[ip] == after[ip] && after[ip].spec_class() != PeerClass::Dropped by {
        let i = choose|i: int| 0 <= i < gathered.len() && gathered[i] == after[ip];
        assert(pool.contains_key(gathered[i].ip));
    }
    assert forall|ip: IpAddr|
        members(pool, PeerFilter::Class(PeerClass::Kept)).contains(ip) implies after.dom().contains(
        ip,
    ) by {
        let i = choose|i: int| 0 <= i < kept.len() && kept[i] == pool[ip];
        assert(gathered[i] == kept[i]);
        assert(after.contains_key(gathered[i].ip));
    }
    lemma_part_enumerates(gathered, PeerClass::Banned, nk, nb);
    assert(gathered.subrange(nk, nb) =~= some_banned);
    lemma_part_enumerates(gathered, PeerClass::Idle, nb, gathered.len() as int);
    assert(gathered.subrange(nb, gathered.len() as int) =~= some_idle);
}

/// If the records of one class are those from `from` to `to`, they enumerate that class.
proof fn lemma_part_enumerates(records: Seq<PeerInfo>, class: PeerClass, from: int, to: int)
    requires
        distinct_ips(records),
        0 <= from <= to <= records.len(),
        forall|i: int|
            0 <= i < records.len() ==> ((#[trigger] records[i]).spec_class() == class <==> from
                <= i < to),
    ensures
        enumerates(records.subrange(from, to), by_ip(records), PeerFilter::Class(class)),
{
    let part = records.subrange(from, to);
    let peers = by_ip(records);
    let filter = PeerFilter::Class(class);
    lemma_by_ip(records);
    lemma_by_ip_distinct(records);
    assert forall|i: int| 0 <= i < part.len() implies members(peers, filter).contains(
        (#[trigger] part[i]).ip,
    ) && peers[part[i].ip] == part[i] by {
        assert(part[i] == records[from + i]);
        assert(peers.contains_key(records[from + i].ip));
    }
    assert forall|i: int, j: int| 0 <= i < j < part.len() implies (#[trigger] part[i]).ip != (
    #[trigger] part[j]).ip by {
        assert(records[from + i].ip != records[from + j].ip);
    }
    assert forall|ip: IpAddr| #[trigger] members(peers, filter).contains(
        ip,
    ) implies part.contains(peers[ip]) && peers[ip].ip == ip by {
        assert(peers.contains_key(ip));
        let i = choose|i: int| 0 <= i < records.len() && records[i] == peers[ip];
        assert(part[i - from] == peers[ip]);
    }
}

/// Cleans up the peers using the limits of the configuration. If there is an announcement, what
/// it announces is added as well.
///
/// Only peers that are neither active nor bootstrap count against the limits.
pub fn cleanup_peers(
    cfg: &NetworkConfig,
    peers: &mut PeerTable,
    opt_new_peers: Option<&Vec<IpAddr>>,
)
    requires
        old(peers).wf(),
    ensures
        final(peers).wf(),
        cleaned(*cfg, old(peers)@, announcement(opt_new_peers), final(peers)@),
{
    let ghost before = peers@;
    proof {
        peers.lemma_well_keyed();
        lemma_announced(*cfg, announcement(opt_new_peers));
    }
    // mark known peers as advertised, collect the others
    let known = announced_ips(cfg, opt_new_peers);
    let mut fresh: Vec<PeerInfo> = Vec::new();
    let ghost mut places: Seq<int> = Seq::empty();
    assert(peers@ =~= marked_peers(before, known@.take(0)));
    for n in 0..known.len()
        invariant
            known@.no_duplicates(),
            well_keyed(before),
            peers.wf(),
            peers@ == marked_peers(before, known@.take(n as int)),
            are_fresh(*cfg, before, known@, n as int, fresh@, places),
    {
        let ip = known[n];
        let ghost old_places = places;
        proof {
            assert(known@.take(n + 1) =~= known@.take(n as int).push(ip));
            assert forall|x: IpAddr|
                known@.take(n + 1).contains(x) <==> (known@.take(n as int).contains(x) || x
                    == ip) by {
                if known@.take(n as int).contains(x) {
                    let k = choose|k: int| 0 <= k < n && known@.take(n as int)[k] == x;
                    assert(known@.take(n + 1)[k] == x);
                }
                assert(known@.take(n + 1)[n as int] == ip);
            }
        }
        match peers.get(&ip) {
            Some(peer) => {
                peers.insert(PeerInfo { advertised: true, ..peer });
            },
            None => {
                if cfg.admits(&ip) {
                    fresh.push(PeerInfo::unknown(ip, true));
                    proof {
                        places = places.push(n as int);
                    }
                }
            },
        }
        proof {
            assert(peers@ =~= marked_peers(before, known@.take(n + 1)));
            assert forall|k: int|
                0 <= k < n + 1 && !before.contains_key(#[trigger] known@[k]) && cfg.spec_admits(
                    known@[k],
                ) implies places.contains(k) by {
                if k < n {
                    assert(old_places.contains(k));
                    let i = choose|i: int| 0 <= i < old_places.len() && old_places[i] == k;
                    assert(places[i] == k);
                } else {
                    assert(places[places.len() - 1] == k);
                }
            }
        }
    }
    assert(known@.take(known@.len() as int) =~= known@);
    // the peers to choose among, new ones last
    let records = peers.records();
    let mut pool = select(&records, PeerFilter::Admitted(*cfg));
    let ghost admitted = pool@;
    let ghost new_records = fresh@;
    proof {
        lemma_pool(*cfg, before, known@, records@, fresh@, places);
    }
    pool.append(&mut fresh);
    let ghost all = cleanup_pool(*cfg, before, known@);
    // split them by class
    let mut gathered = select(&pool, PeerFilter::Class(PeerClass::Kept));
    let banned = select(&pool, PeerFilter::Class(PeerClass::Banned));
    let idle = select(&pool, PeerFilter::Class(PeerClass::Idle));
    proof {
        lemma_filter_enumerates(pool@, PeerFilter::Class(PeerClass::Kept));
        lemma_filter_enumerates(pool@, PeerFilter::Class(PeerClass::Banned));
        lemma_filter_enumerates(pool@, PeerFilter::Class(PeerClass::Idle));
        lemma_distinct_no_duplicates(banned@);
        lemma_distinct_no_duplicates(idle@);
    }
    let ghost kept = gathered@;
    // sort those that the limits apply to, best first, and cut them off
    let mut sorted_idle = sort_peers(&idle, PeerOrder::LatestAlive);
    let mut sorted_banned = sort_peers(&banned, PeerOrder::LatestFailure);
    let ghost full_idle = sorted_idle@;
    let ghost full_banned = sorted_banned@;
    proof {
        lemma_sorted_enumerates(
            PeerOrder::LatestAlive,
            idle@,
            full_idle,
            all,
            PeerFilter::Class(PeerClass::Idle),
        );
        lemma_sorted_enumerates(
            PeerOrder::LatestFailure,
            banned@,
            full_banned,
            all,
            PeerFilter::Class(PeerClass::Banned),
        );
    }
    sorted_idle.truncate(cfg.max_idle_peers);
    sorted_banned.truncate(cfg.max_banned_peers);
    let ghost idle_count = sorted_idle@.len() as int;
    let ghost banned_count = sorted_banned@.len() as int;
    assert(sorted_idle@ =~= full_idle.take(idle_count));
    assert(sorted_banned@ =~= full_banned.take(banned_count));
    // gather everything
    gathered.append(&mut sorted_banned);
    gathered.append(&mut sorted_idle);
    proof {
        lemma_gathered(all, kept, full_banned, full_idle, banned_count, idle_count);
    }
    *peers = PeerTable::from_distinct(gathered);
    proof {
        let after = peers@;
        let idle_class = PeerFilter::Class(PeerClass::Idle);
        let banned_class = PeerFilter::Class(PeerClass::Banned);
        lemma_enumerates_len(full_idle, all, idle_class);
        lemma_enumerates_len(full_banned, all, banned_class);
        lemma_enumerates_len(full_idle.take(idle_count), after, idle_class);
        lemma_enumerates_len(full_banned.take(banned_count), after, banned_class);
        assert forall|a: IpAddr, b: IpAddr|
            members(after, banned_class).contains(a) && members(all, banned_class).contains(b)
                && !after.contains_key(b) implies PeerOrder::LatestFailure.le(all[a], all[b]) by {
            let (i, j) = lemma_cut(all, after, full_banned, banned_count, banned_class, a, b);
            assert(PeerOrder::LatestFailure.le(full_banned[i], full_banned[j]));
        }
        let old_idle = admitted.filter(idle_class.predicate());
        assert forall|i: int|
            0 <= i < new_records.len() implies (#[trigger] new_records[i]).spec_class()
            == PeerClass::Idle by {
        }
        lemma_idle_of_pool(admitted, new_records);
        assert forall|k: int| 0 <= k < old_idle.len() implies before.contains_key(
            (#[trigger] old_idle[k]).ip,
        ) by {
            lemma_filter_enumerates(records@, PeerFilter::Admitted(*cfg));
            lemma_filter_enumerates(admitted, idle_class);
            assert(members(by_ip(admitted), idle_class).contains(old_idle[k].ip));
            lemma_by_ip(admitted);
            assert(by_ip(admitted).contains_key(old_idle[k].ip));
            let l = choose|l: int| 0 <= l < admitted.len() && admitted[l] == old_idle[k];
            let marked_map = marked_peers(before, known@);
            assert(members(marked_map, PeerFilter::Admitted(*cfg)).contains(admitted[l].ip));
        }
        assert forall|a: IpAddr, b: IpAddr|
            members(after, idle_class).contains(a) && members(all, idle_class).contains(b)
                && !after.contains_key(b) implies idle_preferred(
            before,
            known@,
            all[a],
            all[b],
        ) by {
            let (i, j) = lemma_cut(all, after, full_idle, idle_count, idle_class, a, b);
            lemma_idle_preferred(
                *cfg,
                before,
                known@,
                old_idle,
                new_records,
                places,
                full_idle,
                i,
                j,
            );
        }
    }
}

/// A peer that stayed stands before one that did not in the list that was cut off.
proof fn lemma_cut(
    pool: Map<IpAddr, PeerInfo>,
    after: Map<IpAddr, PeerInfo>,
    list: Seq<PeerInfo>,
    count: int,
    filter: PeerFilter,
    a: IpAddr,
    b: IpAddr,
) -> (r: (int, int))
    requires
        after.submap_of(pool),
        enumerates(list, pool, filter),
        0 <= count <= list.len(),
        enumerates(list.take(count), after, filter),
        members(after, filter).contains(a),
        members(pool, filter).contains(b),
        !after.contains_key(b),
    ensures
        0 <= r.0 < r.1 < list.len(),
        list[r.0] == pool[a],
        list[r.1] == pool[b],
{
    let i = choose|i: int| 0 <= i < count && list.take(count)[i] == after[a];
    let j = choose|j: int| 0 <= j < list.len() && list[j] == pool[b];
    if j < count {
        assert(list.take(count)[j] == pool[b]);
        assert(members(after, filter).contains(list.take(count)[j].ip));
    }
    (i, j)
}

/// After a cleanup there is nothing left to clean up.
pub proof fn law_cleanup_cleans(
    cfg: NetworkConfig,
    before: Map<IpAddr, PeerInfo>,
    new_peers: Option<Seq<IpAddr>>,
    after: Map<IpAddr, PeerInfo>,
)
    requires
        cleaned(cfg, before, new_peers, after),
    ensures
        clean_peers(cfg, after),
{
    let pool = cleanup_pool(cfg, before, announced(cfg, new_peers));
    assert forall|ip: IpAddr| #[trigger] after.contains_key(ip) implies cfg.spec_admits(ip)
        && after[ip].spec_class() != PeerClass::Dropped by {
        assert(pool.contains_key(ip));
        assert(!members(after, PeerFilter::Class(PeerClass::Dropped)).contains(ip));
    }
}

/// Where there is nothing to clean up, a cleanup changes nothing.
pub proof fn law_cleanup_of_clean(
    cfg: NetworkConfig,
    peers: Map<IpAddr, PeerInfo>,
    after: Map<IpAddr, PeerInfo>,
)
    requires
        peers.dom().finite(),
        clean_peers(cfg, peers),
        cleaned(cfg, peers, None, after),
    ensures
        after == peers,
{
    let pool = cleanup_pool(cfg, peers, announced(cfg, None));
    assert(pool =~= peers);
    lemma_all_stay(pool, after, PeerClass::Banned);
    lemma_all_stay(pool, after, PeerClass::Idle);
    assert forall|ip: IpAddr| #[trigger] peers.contains_key(ip) implies after.contains_key(ip) by {
        let class = peers[ip].spec_class();
        assert(members(pool, PeerFilter::Class(class)).contains(ip));
        if class == PeerClass::Banned {
            assert(members(after, PeerFilter::Class(PeerClass::Banned)).contains(ip));
        } else if class == PeerClass::Idle {
            assert(members(after, PeerFilter::Class(PeerClass::Idle)).contains(ip));
        } else {
            assert(class == PeerClass::Kept);
        }
    }
    assert(after =~= peers);
}

/// If as many peers of a class stay as there are, they all stay.
pub proof fn lemma_all_stay(
    pool: Map<IpAddr, PeerInfo>,
    after: Map<IpAddr, PeerInfo>,
    class: PeerClass,
)
    requires
        pool.dom().finite(),
        after.submap_of(pool),
        members(after, PeerFilter::Class(class)).len() == members(
            pool,
            PeerFilter::Class(class),
        ).len(),
    ensures
        members(after, PeerFilter::Class(class)) == members(pool, PeerFilter::Class(class)),
{
    let (some, all) = (
        members(after, PeerFilter::Class(class)),
        members(pool, PeerFilter::Class(class)),
    );
    pool.dom().lemma_len_filter(
        |ip: IpAddr| PeerFilter::Class(class).spec_accepts(pool[ip]),
    );
    assert(some.subset_of(all)) by {
        assert forall|ip: IpAddr| some.contains(ip) implies all.contains(ip) by {
            assert(after.contains_key(ip));
        }
    }
    vstd::set_lib::lemma_set_subset_finite(all, some);
    vstd::set_lib::lemma_subset_equality(some, all);
}

/// A cleanup never drops an admitted peer that is active or bootstrap, and changes nothing of it
/// but that it may become advertised.
pub proof fn law_cleanup_keeps(
    cfg: NetworkConfig,
    before: Map<IpAddr, PeerInfo>,
    new_peers: Option<Seq<IpAddr>>,
    after: Map<IpAddr, PeerInfo>,
    ip: IpAddr,
)
    requires
        cleaned(cfg, before, new_peers, after),
        before.contains_key(ip),
        cfg.spec_admits(ip),
        before[ip].bootstrap || before[ip].spec_is_active(),
    ensures
        after.contains_key(ip),
        after[ip] == marked(before[ip], announced(cfg, new_peers).contains(ip)),
{
    let pool = cleanup_pool(cfg, before, announced(cfg, new_peers));
    assert(pool.contains_key(ip));
    assert(members(pool, PeerFilter::Class(PeerClass::Kept)).contains(ip));
}

/// Every announced address that is taken in, and that belongs to a peer afterwards, belongs to an
/// advertised one. If the idle peers all fit, a new peer is made of each that is admitted and was
/// not known.
pub proof fn law_cleanup_takes_in(
    cfg: NetworkConfig,
    before: Map<IpAddr, PeerInfo>,
    new_peers: Option<Seq<IpAddr>>,
    after: Map<IpAddr, PeerInfo>,
    ip: IpAddr,
)
    requires
        before.dom().finite(),
        cleaned(cfg, before, new_peers, after),
        announced(cfg, new_peers).contains(ip),
    ensures
        after.contains_key(ip) ==> after[ip].advertised,
        cfg.spec_admits(ip) && !before.contains_key(ip) && members(
            cleanup_pool(cfg, before, announced(cfg, new_peers)),
            PeerFilter::Class(PeerClass::Idle),
        ).len() <= cfg.max_idle_peers ==> after.contains_key(ip) && after[ip]
            == PeerInfo::spec_unknown(ip, true),
{
    let known = announced(cfg, new_peers);
    let pool = cleanup_pool(cfg, before, known);
    let idle = PeerFilter::Class(PeerClass::Idle);
    if after.contains_key(ip) {
        assert(pool.contains_key(ip));
    }
    if cfg.spec_admits(ip) && !before.contains_key(ip) && members(pool, idle).len()
        <= cfg.max_idle_peers {
        assert(pool.dom().finite()) by {
            vstd::seq_lib::seq_to_set_is_finite(known);
            vstd::set_lib::lemma_set_subset_finite(
                before.dom().union(known.to_set()),
                pool.dom(),
            );
        }
        lemma_all_stay(pool, after, PeerClass::Idle);
        assert(members(pool, idle).contains(ip));
        assert(members(after, idle).contains(ip));
    }
}

} // verus!
