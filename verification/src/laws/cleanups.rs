use vstd::prelude::*;

use crate::announcement::{announced, first_occurrences, lemma_first_occurrences};
use crate::cleanup::{cleaned, cleanup_pool, idle_preferred, lemma_all_stay};
use crate::config::NetworkConfig;
use crate::ip::IpAddr;
use crate::laws::lists::law_announced_are_taken_in;
use crate::order::PeerOrder;
use crate::peer_info::{PeerClass, PeerInfo};
use crate::peer_table::well_keyed;
use crate::selection::{members, PeerFilter};

verus! {

/// A cleanup leaves a peer that it keeps as it was. Only an announcement can make a peer
/// advertised, and none makes it anything else.
pub proof fn law_cleanup_changes_no_peer(
    cfg: NetworkConfig,
    before: Map<IpAddr, PeerInfo>,
    new_peers: Option<Seq<IpAddr>>,
    after: Map<IpAddr, PeerInfo>,
    ip: IpAddr,
)
    requires
        cleaned(cfg, before, new_peers, after),
        before.contains_key(ip),
        after.contains_key(ip),
    ensures
        after[ip].ip == before[ip].ip,
        after[ip].banned == before[ip].banned,
        after[ip].bootstrap == before[ip].bootstrap,
        after[ip].last_alive_millis == before[ip].last_alive_millis,
        after[ip].last_failure_millis == before[ip].last_failure_millis,
        after[ip].active_out_connection_attempts == before[ip].active_out_connection_attempts,
        after[ip].active_out_connections == before[ip].active_out_connections,
        after[ip].active_in_connections == before[ip].active_in_connections,
        before[ip].advertised ==> after[ip].advertised,
        after[ip].advertised && !before[ip].advertised ==> new_peers is Some
            && new_peers->0.contains(ip) && announced(cfg, new_peers).contains(ip),
        new_peers is Some && new_peers->0.contains(ip) && new_peers->0.len()
            <= cfg.max_advertise_length ==> after[ip].advertised,
        announced(cfg, new_peers).contains(ip) ==> after[ip].advertised,
        new_peers is None ==> after[ip] == before[ip],
{
    let pool = cleanup_pool(cfg, before, announced(cfg, new_peers));
    assert(pool.contains_key(ip));
    if let Some(ips) = new_peers {
        law_announced_are_taken_in(cfg, ips);
        if ips.contains(ip) && ips.len() <= cfg.max_advertise_length {
            lemma_all_taken(cfg, ips, ip);
        }
    }
}

/// A short announcement is taken in as a whole.
proof fn lemma_all_taken(cfg: NetworkConfig, ips: Seq<IpAddr>, ip: IpAddr)
    requires
        ips.contains(ip),
        ips.len() <= cfg.max_advertise_length,
    ensures
        announced(cfg, Some(ips)).contains(ip),
{
    let unique = first_occurrences(ips);
    lemma_first_occurrences(ips);
    lemma_no_longer(ips);
    assert(announced(cfg, Some(ips)) =~= unique);
}

/// Leaving out repetitions makes nothing longer.
proof fn lemma_no_longer(ips: Seq<IpAddr>)
    ensures
        first_occurrences(ips).len() <= ips.len(),
    decreases ips.len(),
{
    if ips.len() > 0 {
        lemma_no_longer(ips.drop_last());
    }
}

/// After a cleanup there are only peers that were known or are announced, at addresses that are
/// globally reachable and not our own. One that was not known is there as a peer of which nothing
/// but its address is known, and that may be told to others. Every one of them is bootstrap,
/// active, banned or advertised.
pub proof fn law_cleanup_makes_up_no_peer(
    cfg: NetworkConfig,
    before: Map<IpAddr, PeerInfo>,
    new_peers: Option<Seq<IpAddr>>,
    after: Map<IpAddr, PeerInfo>,
    ip: IpAddr,
)
    requires
        cleaned(cfg, before, new_peers, after),
        after.contains_key(ip),
    ensures
        ip.global,
        cfg.routable_ip != Some(ip),
        !before.contains_key(ip) ==> new_peers is Some && new_peers->0.contains(ip) && announced(
            cfg,
            new_peers,
        ).contains(ip),
        !before.contains_key(ip) ==> {
            &&& after[ip].ip == ip
            &&& !after[ip].banned
            &&& !after[ip].bootstrap
            &&& after[ip].last_alive_millis is None
            &&& after[ip].last_failure_millis is None
            &&& after[ip].advertised
            &&& after[ip].active_out_connection_attempts == 0
            &&& after[ip].active_out_connections == 0
            &&& after[ip].active_in_connections == 0
        },
        after[ip].bootstrap || after[ip].active_out_connection_attempts > 0
            || after[ip].active_out_connections > 0 || after[ip].active_in_connections > 0
            || after[ip].banned || after[ip].advertised,
{
    let pool = cleanup_pool(cfg, before, announced(cfg, new_peers));
    assert(pool.contains_key(ip));
    assert(!members(after, PeerFilter::Class(PeerClass::Dropped)).contains(ip));
    if !before.contains_key(ip) {
        if let Some(ips) = new_peers {
            law_announced_are_taken_in(cfg, ips);
        }
    }
}

/// A cleanup never drops a bootstrap peer, nor one that there is an attempt to or a connection
/// with, if its address is globally reachable and not our own.
pub proof fn law_cleanup_keeps_bootstrap_and_active(
    cfg: NetworkConfig,
    before: Map<IpAddr, PeerInfo>,
    new_peers: Option<Seq<IpAddr>>,
    after: Map<IpAddr, PeerInfo>,
    ip: IpAddr,
)
    requires
        cleaned(cfg, before, new_peers, after),
        before.contains_key(ip),
        ip.global,
        cfg.routable_ip != Some(ip),
        before[ip].bootstrap || before[ip].active_out_connection_attempts > 0
            || before[ip].active_out_connections > 0 || before[ip].active_in_connections > 0,
    ensures
        after.contains_key(ip),
{
    let pool = cleanup_pool(cfg, before, announced(cfg, new_peers));
    assert(pool.contains_key(ip));
    assert(members(pool, PeerFilter::Class(PeerClass::Kept)).contains(ip));
}

/// After a cleanup, no more inactive banned peers and no more other inactive peers are left than
/// the configuration allows. Bootstrap peers count against neither limit.
pub proof fn law_cleanup_keeps_to_the_limits(
    cfg: NetworkConfig,
    before: Map<IpAddr, PeerInfo>,
    new_peers: Option<Seq<IpAddr>>,
    after: Map<IpAddr, PeerInfo>,
)
    requires
        cleaned(cfg, before, new_peers, after),
    ensures
        after.dom().filter(
            |ip: IpAddr|
                !after[ip].bootstrap && after[ip].active_out_connection_attempts == 0
                    && after[ip].active_out_connections == 0 && after[ip].active_in_connections
                    == 0 && after[ip].banned,
        ).len() <= cfg.max_banned_peers,
        after.dom().filter(
            |ip: IpAddr|
                !after[ip].bootstrap && after[ip].active_out_connection_attempts == 0
                    && after[ip].active_out_connections == 0 && after[ip].active_in_connections
                    == 0 && !after[ip].banned,
        ).len() <= cfg.max_idle_peers,
{
    lemma_classes_by_fields(cfg, before, new_peers, after);
}

/// The limited classes after a cleanup, by the fields of the peers.
proof fn lemma_classes_by_fields(
    cfg: NetworkConfig,
    before: Map<IpAddr, PeerInfo>,
    new_peers: Option<Seq<IpAddr>>,
    after: Map<IpAddr, PeerInfo>,
)
    requires
        cleaned(cfg, before, new_peers, after),
    ensures
        after.dom().filter(
            |ip: IpAddr|
                !after[ip].bootstrap && after[ip].active_out_connection_attempts == 0
                    && after[ip].active_out_connections == 0 && after[ip].active_in_connections
                    == 0 && after[ip].banned,
        ) == members(after, PeerFilter::Class(PeerClass::Banned)),
        after.dom().filter(
            |ip: IpAddr|
                !after[ip].bootstrap && after[ip].active_out_connection_attempts == 0
                    && after[ip].active_out_connections == 0 && after[ip].active_in_connections
                    == 0 && !after[ip].banned,
        ) == members(after, PeerFilter::Class(PeerClass::Idle)),
{
    let dropped = members(after, PeerFilter::Class(PeerClass::Dropped));
    assert forall|ip: IpAddr| #[trigger] after.dom().contains(ip) implies after[ip].spec_class()
        != PeerClass::Dropped by {
        assert(!dropped.contains(ip));
    }
    assert(after.dom().filter(
        |ip: IpAddr|
            !after[ip].bootstrap && after[ip].active_out_connection_attempts == 0
                && after[ip].active_out_connections == 0 && after[ip].active_in_connections == 0
                && after[ip].banned,
    ) =~= members(after, PeerFilter::Class(PeerClass::Banned)));
    assert(after.dom().filter(
        |ip: IpAddr|
            !after[ip].bootstrap && after[ip].active_out_connection_attempts == 0
                && after[ip].active_out_connections == 0 && after[ip].active_in_connections == 0
                && !after[ip].banned,
    ) =~= members(after, PeerFilter::Class(PeerClass::Idle)));
}

/// A cleanup chooses among finitely many peers.
proof fn lemma_finite_pool(
    cfg: NetworkConfig,
    before: Map<IpAddr, PeerInfo>,
    known: Seq<IpAddr>,
)
    requires
        before.dom().finite(),
    ensures
        cleanup_pool(cfg, before, known).dom().finite(),
{
    let pool = cleanup_pool(cfg, before, known);
    vstd::seq_lib::seq_to_set_is_finite(known);
    vstd::set_lib::lemma_set_subset_finite(before.dom().union(known.to_set()), pool.dom());
}

/// An inactive banned peer `b` is dropped only if the limit on such peers is reached, and only for
/// peers that failed later than it, or at the same time and were not seen alive later.
pub proof fn law_cleanup_drops_banned_only_over_the_limit(
    cfg: NetworkConfig,
    before: Map<IpAddr, PeerInfo>,
    new_peers: Option<Seq<IpAddr>>,
    after: Map<IpAddr, PeerInfo>,
    b: IpAddr,
)
    requires
        before.dom().finite(),
        cleaned(cfg, before, new_peers, after),
        before.contains_key(b),
        !after.contains_key(b),
        b.global,
        cfg.routable_ip != Some(b),
        before[b].banned,
    ensures
        after.dom().filter(
            |ip: IpAddr|
                !after[ip].bootstrap && after[ip].active_out_connection_attempts == 0
                    && after[ip].active_out_connections == 0 && after[ip].active_in_connections
                    == 0 && after[ip].banned,
        ).len() == cfg.max_banned_peers,
        forall|a: IpAddr| #[trigger]
            after.contains_key(a) && !after[a].bootstrap && after[a].active_out_connection_attempts
                == 0 && after[a].active_out_connections == 0 && after[a].active_in_connections == 0
                && after[a].banned ==> {
                &&& before[b].last_failure_millis is Some ==> after[a].last_failure_millis is Some
                    && before[b].last_failure_millis->0 <= after[a].last_failure_millis->0
                &&& after[a].last_failure_millis == before[b].last_failure_millis
                    && after[a].last_alive_millis is Some ==> before[b].last_alive_millis is Some
                    && after[a].last_alive_millis->0 <= before[b].last_alive_millis->0
            },
{
    let known = announced(cfg, new_peers);
    let pool = cleanup_pool(cfg, before, known);
    let banned = PeerFilter::Class(PeerClass::Banned);
    lemma_classes_by_fields(cfg, before, new_peers, after);
    lemma_finite_pool(cfg, before, known);
    assert(pool.contains_key(b));
    assert(!members(pool, PeerFilter::Class(PeerClass::Kept)).contains(b));
    assert(members(pool, banned).contains(b));
    if members(pool, banned).len() <= cfg.max_banned_peers {
        lemma_all_stay(pool, after, PeerClass::Banned);
        assert(members(after, banned).contains(b));
    }
    assert forall|a: IpAddr| #[trigger]
        after.contains_key(a) && !after[a].bootstrap && after[a].active_out_connection_attempts
            == 0 && after[a].active_out_connections == 0 && after[a].active_in_connections == 0
            && after[a].banned implies {
        &&& before[b].last_failure_millis is Some ==> after[a].last_failure_millis is Some
            && before[b].last_failure_millis->0 <= after[a].last_failure_millis->0
        &&& after[a].last_failure_millis == before[b].last_failure_millis
            && after[a].last_alive_millis is Some ==> before[b].last_alive_millis is Some
            && after[a].last_alive_millis->0 <= before[b].last_alive_millis->0
    } by {
        assert(members(after, banned).contains(a));
        assert(pool[a] == after[a]);
        assert(PeerOrder::LatestFailure.le(pool[a], pool[b]));
    }
}

/// A peer `b` that is not banned and that is advertised, or announced, is dropped, or not taken
/// in, only if the limit on idle peers is reached, and only for peers that were seen alive later
/// than it or, failing that, failed earlier. Of peers with the same times, those that were known
/// stay rather than those that are only announced, and of the latter those that are announced
/// first.
pub proof fn law_cleanup_drops_idle_only_over_the_limit(
    cfg: NetworkConfig,
    before: Map<IpAddr, PeerInfo>,
    new_peers: Option<Seq<IpAddr>>,
    after: Map<IpAddr, PeerInfo>,
    b: IpAddr,
    alive: Option<u64>,
    failure: Option<u64>,
)
    requires
        well_keyed(before),
        cleaned(cfg, before, new_peers, after),
        !after.contains_key(b),
        b.global,
        cfg.routable_ip != Some(b),
        before.contains_key(b) ==> {
            &&& !before[b].banned
            &&& before[b].advertised || announced(cfg, new_peers).contains(b)
            &&& alive == before[b].last_alive_millis
            &&& failure == before[b].last_failure_millis
        },
        !before.contains_key(b) ==> {
            &&& announced(cfg, new_peers).contains(b)
            &&& alive is None
            &&& failure is None
        },
    ensures
        after.dom().filter(
            |ip: IpAddr|
                !after[ip].bootstrap && after[ip].active_out_connection_attempts == 0
                    && after[ip].active_out_connections == 0 && after[ip].active_in_connections
                    == 0 && !after[ip].banned,
        ).len() == cfg.max_idle_peers,
        forall|a: IpAddr| #[trigger]
            after.contains_key(a) && !after[a].bootstrap && after[a].active_out_connection_attempts
                == 0 && after[a].active_out_connections == 0 && after[a].active_in_connections == 0
                && !after[a].banned ==> {
                &&& alive is Some ==> after[a].last_alive_millis is Some && alive->0
                    <= after[a].last_alive_millis->0
                &&& after[a].last_alive_millis == alive && after[a].last_failure_millis is Some
                    ==> failure is Some && after[a].last_failure_millis->0 <= failure->0
                &&& after[a].last_alive_millis == alive && after[a].last_failure_millis == failure
                    ==> before.contains_key(a) || (!before.contains_key(b) && announced(
                    cfg,
                    new_peers,
                ).index_of(a) < announced(cfg, new_peers).index_of(b))
            },
{
    let known = announced(cfg, new_peers);
    let pool = cleanup_pool(cfg, before, known);
    let idle = PeerFilter::Class(PeerClass::Idle);
    lemma_classes_by_fields(cfg, before, new_peers, after);
    lemma_finite_pool(cfg, before, known);
    assert(pool.contains_key(b));
    assert(!members(pool, PeerFilter::Class(PeerClass::Kept)).contains(b));
    assert(members(pool, idle).contains(b));
    if members(pool, idle).len() <= cfg.max_idle_peers {
        lemma_all_stay(pool, after, PeerClass::Idle);
        assert(members(after, idle).contains(b));
    }
    assert forall|a: IpAddr| #[trigger]
        after.contains_key(a) && !after[a].bootstrap && after[a].active_out_connection_attempts
            == 0 && after[a].active_out_connections == 0 && after[a].active_in_connections == 0
            && !after[a].banned implies {
        &&& alive is Some ==> after[a].last_alive_millis is Some && alive->0
            <= after[a].last_alive_millis->0
        &&& after[a].last_alive_millis == alive && after[a].last_failure_millis is Some
            ==> failure is Some && after[a].last_failure_millis->0 <= failure->0
        &&& after[a].last_alive_millis == alive && after[a].last_failure_millis == failure
            ==> before.contains_key(a) || (!before.contains_key(b) && known.index_of(a)
            < known.index_of(b))
    } by {
        assert(!members(after, PeerFilter::Class(PeerClass::Dropped)).contains(a));
        assert(members(after, idle).contains(a));
        assert(after.dom().contains(a) && pool.contains_key(a));
        assert(pool[a] == after[a]);
        assert(idle_preferred(before, known, pool[a], pool[b]));
    }
}

} // verus!
