use vstd::prelude::*;

use crate::error::CommunicationError;
use crate::ip::IpAddr;
use crate::order::PeerOrder;
use crate::peer_info::PeerInfo;
use crate::selection::{best_first, members, PeerFilter};
use crate::state;
use crate::state::DatabaseState;

verus! {

/// The attempts that may still be made fit within both limits, and one more would not.
pub proof fn law_available_attempts(state: DatabaseState)
    requires
        state.wf(),
    ensures
        state.active_out_connection_attempts + state.available_out_connection_attempts()
            + state.active_out_connections <= state.cfg.target_out_connections,
        state.active_out_connection_attempts + state.available_out_connection_attempts()
            <= state.cfg.max_out_connnection_attempts,
        state.active_out_connection_attempts + state.available_out_connection_attempts() + 1
            + state.active_out_connections > state.cfg.target_out_connections
            || state.active_out_connection_attempts + state.available_out_connection_attempts() + 1
            > state.cfg.max_out_connnection_attempts,
{
}

/// Candidates are asked for in vain only if the clock cannot be read while there is a slot.
pub proof fn law_candidates_are_answered(
    state: DatabaseState,
    now: Result<u64, CommunicationError>,
    r: Result<Seq<IpAddr>, CommunicationError>,
)
    requires
        state.wf(),
        state::out_connection_candidates(state, now, r),
    ensures
        r is Err <==> now is Err && state.active_out_connection_attempts
            + state.active_out_connections < state.cfg.target_out_connections
            && state.active_out_connection_attempts < state.cfg.max_out_connnection_attempts,
        r is Err ==> r->Err_0 == now->Err_0,
        r is Ok && now is Err ==> r->Ok_0.len() == 0,
{
}

/// Every candidate is a known peer that is advertised, not banned and without any attempt or
/// connection, and that has not failed, or was seen alive after it failed, or failed more than
/// the wakeup interval ago. None occurs twice, and there are slots for all of them.
pub proof fn law_candidates_qualify(state: DatabaseState, now: u64, ips: Seq<IpAddr>)
    requires
        state.wf(),
        state::out_connection_candidates(state, Ok(now), Ok(ips)),
    ensures
        forall|i: int| #![trigger ips[i]]
            0 <= i < ips.len() ==> {
                let peer = state.peers[ips[i]];
                &&& state.peers.contains_key(ips[i])
                &&& peer.advertised
                &&& !peer.banned
                &&& peer.active_out_connection_attempts == 0
                &&& peer.active_out_connections == 0
                &&& peer.active_in_connections == 0
                &&& {
                    ||| peer.last_failure_millis is None
                    ||| peer.last_alive_millis is Some && peer.last_alive_millis->0
                        > peer.last_failure_millis->0
                    ||| now > peer.last_failure_millis->0 + state.wakeup_interval_millis
                }
            },
        forall|i: int, j: int|
            0 <= i < j < ips.len() ==> #[trigger] ips[i] != #[trigger] ips[j],
        state.active_out_connection_attempts + ips.len() + state.active_out_connections
            <= state.cfg.target_out_connections,
        state.active_out_connection_attempts + ips.len() <= state.cfg.max_out_connnection_attempts,
{
    let filter = PeerFilter::Connectable {
        now,
        wakeup_interval: state.wakeup_interval_millis,
    };
    assert forall|i: int| #![trigger ips[i]] 0 <= i < ips.len() implies {
        let peer = state.peers[ips[i]];
        &&& state.peers.contains_key(ips[i])
        &&& peer.advertised
        &&& !peer.banned
        &&& peer.active_out_connection_attempts == 0
        &&& peer.active_out_connections == 0
        &&& peer.active_in_connections == 0
        &&& {
            ||| peer.last_failure_millis is None
            ||| peer.last_alive_millis is Some && peer.last_alive_millis->0
                > peer.last_failure_millis->0
            ||| now > peer.last_failure_millis->0 + state.wakeup_interval_millis
        }
    } by {
        assert(members(state.peers, filter).contains(ips[i]));
    }
}

/// Every known peer that is advertised, not banned and without any attempt or connection, and that
/// has not failed, or was seen alive after it failed, or failed more than the wakeup interval
/// ago, is a candidate, whatever else it is, as long as there is a slot. If there is none left,
/// all candidates failed earlier than it, or at the same time and were not seen alive earlier.
pub proof fn law_candidates_are_complete(
    state: DatabaseState,
    now: u64,
    ips: Seq<IpAddr>,
    ip: IpAddr,
)
    requires
        state.wf(),
        state::out_connection_candidates(state, Ok(now), Ok(ips)),
        state.peers.contains_key(ip),
        state.peers[ip].advertised,
        !state.peers[ip].banned,
        state.peers[ip].active_out_connection_attempts == 0,
        state.peers[ip].active_out_connections == 0,
        state.peers[ip].active_in_connections == 0,
        state.peers[ip].last_failure_millis is None || (state.peers[ip].last_alive_millis is Some
            && state.peers[ip].last_alive_millis->0 > state.peers[ip].last_failure_millis->0)
            || now > state.peers[ip].last_failure_millis->0 + state.wakeup_interval_millis,
        forall|i: int| 0 <= i < ips.len() ==> #[trigger] ips[i] != ip,
    ensures
        state.active_out_connection_attempts + ips.len() + state.active_out_connections
            == state.cfg.target_out_connections || state.active_out_connection_attempts + ips.len()
            == state.cfg.max_out_connnection_attempts,
        forall|i: int| #![trigger ips[i]]
            0 <= i < ips.len() ==> {
                let peer = state.peers[ips[i]];
                &&& peer.last_failure_millis is Some ==> state.peers[ip].last_failure_millis is Some
                    && peer.last_failure_millis->0 <= state.peers[ip].last_failure_millis->0
                &&& peer.last_failure_millis == state.peers[ip].last_failure_millis
                    && state.peers[ip].last_alive_millis is Some ==> peer.last_alive_millis is Some
                    && state.peers[ip].last_alive_millis->0 <= peer.last_alive_millis->0
            },
{
    let filter = PeerFilter::Connectable {
        now,
        wakeup_interval: state.wakeup_interval_millis,
    };
    assert(members(state.peers, filter).contains(ip));
    if ips.len() == members(state.peers, filter).len() {
        lemma_all_there(state, filter, ips, ip);
    }
    assert forall|i: int| #![trigger ips[i]] 0 <= i < ips.len() implies {
        let peer = state.peers[ips[i]];
        &&& peer.last_failure_millis is Some ==> state.peers[ip].last_failure_millis is Some
            && peer.last_failure_millis->0 <= state.peers[ip].last_failure_millis->0
        &&& peer.last_failure_millis == state.peers[ip].last_failure_millis
            && state.peers[ip].last_alive_millis is Some ==> peer.last_alive_millis is Some
            && state.peers[ip].last_alive_millis->0 <= peer.last_alive_millis->0
    } by {
        assert(PeerOrder::EarliestFailure.le(state.peers[ips[i]], state.peers[ip]));
    }
}

/// As many different members as there are members are all of them.
proof fn lemma_all_there(
    state: DatabaseState,
    filter: PeerFilter,
    ips: Seq<IpAddr>,
    ip: IpAddr,
)
    requires
        state.wf(),
        ips.no_duplicates(),
        ips.len() == members(state.peers, filter).len(),
        forall|i: int|
            0 <= i < ips.len() ==> members(state.peers, filter).contains(#[trigger] ips[i]),
        members(state.peers, filter).contains(ip),
    ensures
        ips.contains(ip),
{
    let all = members(state.peers, filter);
    state.peers.dom().lemma_len_filter(|ip: IpAddr| filter.spec_accepts(state.peers[ip]));
    ips.unique_seq_to_set();
    assert(ips.to_set().subset_of(all)) by {
        assert forall|x: IpAddr| ips.to_set().contains(x) implies all.contains(x) by {
            let i = choose|i: int| 0 <= i < ips.len() && ips[i] == x;
            assert(all.contains(ips[i]));
        }
    }
    vstd::set_lib::lemma_subset_equality(ips.to_set(), all);
    assert(ips.to_set().contains(ip));
}

/// No candidate comes before one that failed earlier, nor before one that failed at the same time
/// and was seen alive later. Never counts as earlier than any time.
pub proof fn law_candidates_are_ordered(
    state: DatabaseState,
    now: u64,
    ips: Seq<IpAddr>,
    i: int,
    j: int,
)
    requires
        state.wf(),
        state::out_connection_candidates(state, Ok(now), Ok(ips)),
        0 <= i < j < ips.len(),
    ensures
        state.peers[ips[i]].last_failure_millis is Some
            ==> state.peers[ips[j]].last_failure_millis is Some
            && state.peers[ips[i]].last_failure_millis->0
            <= state.peers[ips[j]].last_failure_millis->0,
        state.peers[ips[i]].last_failure_millis == state.peers[ips[j]].last_failure_millis
            && state.peers[ips[j]].last_alive_millis is Some
            ==> state.peers[ips[i]].last_alive_millis is Some
            && state.peers[ips[j]].last_alive_millis->0 <= state.peers[ips[i]].last_alive_millis->0,
{
    assert(PeerOrder::EarliestFailure.le(state.peers[ips[i]], state.peers[ips[j]]));
}

/// The addresses that are told to others, without our own, are best first.
proof fn lemma_told_others(state: DatabaseState, told: Seq<IpAddr>) -> (skipped: int)
    requires
        state.wf(),
        state::advertisable(state, told),
        told.len() > 0 || state.cfg.max_advertise_length > 0,
    ensures
        skipped == if state.cfg.routable_ip is Some {
            1int
        } else {
            0int
        },
        skipped <= told.len(),
        skipped == 1 ==> Some(told[0]) == state.cfg.routable_ip,
        best_first(
            state.peers,
            PeerFilter::Advertisable,
            PeerOrder::EarliestFailure,
            (state.cfg.max_advertise_length - skipped) as nat,
            told.skip(skipped),
        ),
{
    if state.cfg.routable_ip is Some {
        1
    } else {
        assert(told.skip(0) =~= told);
        0
    }
}

/// Whatever is told to others is our own address, which comes first, or that of a known peer that
/// is advertised and not banned. No more is told than the configuration allows.
pub proof fn law_told_qualify(state: DatabaseState, told: Seq<IpAddr>)
    requires
        state.wf(),
        state::advertisable(state, told),
    ensures
        forall|i: int| #![trigger told[i]]
            0 <= i < told.len() ==> (i == 0 && state.cfg.routable_ip == Some(told[i])) || (
            state.peers.contains_key(told[i]) && state.peers[told[i]].advertised
                && !state.peers[told[i]].banned),
        told.len() <= state.cfg.max_advertise_length,
        state.cfg.routable_ip is Some && state.cfg.max_advertise_length > 0 ==> told.len() > 0
            && Some(told[0]) == state.cfg.routable_ip,
{
    if told.len() > 0 {
        let skipped = lemma_told_others(state, told);
        let others = told.skip(skipped);
        assert forall|i: int| #![trigger told[i]] 0 <= i < told.len() implies (i == 0
            && state.cfg.routable_ip == Some(told[i])) || (state.peers.contains_key(told[i])
            && state.peers[told[i]].advertised && !state.peers[told[i]].banned) by {
            if i >= skipped {
                assert(told[i] == others[i - skipped]);
                assert(members(state.peers, PeerFilter::Advertisable).contains(
                    others[i - skipped],
                ));
            }
        }
    }
}

/// Every known peer that is advertised and not banned is told to others, whatever its connections
/// are and whatever else it is, as long as there is room. If there is not, all peers that are
/// told failed earlier than it, or at the same time and were not seen alive earlier.
pub proof fn law_told_are_complete(state: DatabaseState, told: Seq<IpAddr>, ip: IpAddr)
    requires
        state.wf(),
        state::advertisable(state, told),
        state.peers.contains_key(ip),
        state.peers[ip].advertised,
        !state.peers[ip].banned,
        forall|i: int| 0 <= i < told.len() ==> #[trigger] told[i] != ip,
    ensures
        told.len() == state.cfg.max_advertise_length,
        forall|i: int| #![trigger told[i]]
            0 <= i < told.len() && state.peers.contains_key(told[i]) ==> {
                let peer = state.peers[told[i]];
                &&& peer.last_failure_millis is Some ==> state.peers[ip].last_failure_millis is Some
                    && peer.last_failure_millis->0 <= state.peers[ip].last_failure_millis->0
                &&& peer.last_failure_millis == state.peers[ip].last_failure_millis
                    && state.peers[ip].last_alive_millis is Some ==> peer.last_alive_millis is Some
                    && state.peers[ip].last_alive_millis->0 <= peer.last_alive_millis->0
            },
{
    let filter = PeerFilter::Advertisable;
    assert(members(state.peers, filter).contains(ip));
    if state.cfg.max_advertise_length > 0 {
        let skipped = lemma_told_others(state, told);
        let others = told.skip(skipped);
        assert forall|i: int| 0 <= i < others.len() implies #[trigger] others[i] != ip by {
            assert(others[i] == told[i + skipped]);
        }
        if others.len() == members(state.peers, filter).len() {
            lemma_all_there(state, filter, others, ip);
        }
        assert forall|i: int| #![trigger told[i]]
            0 <= i < told.len() && state.peers.contains_key(told[i]) implies {
            let peer = state.peers[told[i]];
            &&& peer.last_failure_millis is Some ==> state.peers[ip].last_failure_millis is Some
                && peer.last_failure_millis->0 <= state.peers[ip].last_failure_millis->0
            &&& peer.last_failure_millis == state.peers[ip].last_failure_millis
                && state.peers[ip].last_alive_millis is Some ==> peer.last_alive_millis is Some
                && state.peers[ip].last_alive_millis->0 <= peer.last_alive_millis->0
        } by {
            assert(state.cfg.spec_admits(told[i]));
            assert(i >= skipped);
            assert(told[i] == others[i - skipped]);
            assert(PeerOrder::EarliestFailure.le(
                state.peers[others[i - skipped]],
                state.peers[ip],
            ));
        }
    } else {
        assert(told.len() == 0);
    }
}

/// No peer is told before one that failed earlier, nor before one that failed at the same time and
/// was seen alive later. Never counts as earlier than any time.
pub proof fn law_told_are_ordered(state: DatabaseState, told: Seq<IpAddr>, i: int, j: int)
    requires
        state.wf(),
        state::advertisable(state, told),
        0 <= i < j < told.len(),
        state.peers.contains_key(told[i]),
    ensures
        state.peers[told[i]].last_failure_millis is Some
            ==> state.peers[told[j]].last_failure_millis is Some
            && state.peers[told[i]].last_failure_millis->0
            <= state.peers[told[j]].last_failure_millis->0,
        state.peers[told[i]].last_failure_millis == state.peers[told[j]].last_failure_millis
            && state.peers[told[j]].last_alive_millis is Some
            ==> state.peers[told[i]].last_alive_millis is Some
            && state.peers[told[j]].last_alive_millis->0
            <= state.peers[told[i]].last_alive_millis->0,
{
    let skipped = lemma_told_others(state, told);
    let others = told.skip(skipped);
    assert(state.cfg.spec_admits(told[i]));
    assert(told[i] == others[i - skipped] && told[j] == others[j - skipped]);
    assert(PeerOrder::EarliestFailure.le(
        state.peers[others[i - skipped]],
        state.peers[others[j - skipped]],
    ));
}

/// What may be told to others does not depend on connections: what is told of one database may be
/// told of another in which the peers differ only in them.
pub proof fn law_told_whatever_the_connections(
    state: DatabaseState,
    other: DatabaseState,
    told: Seq<IpAddr>,
)
    requires
        state.wf(),
        other.wf(),
        other.cfg == state.cfg,
        other.peers.dom() == state.peers.dom(),
        forall|ip: IpAddr| #[trigger]
            state.peers.contains_key(ip) ==> {
                &&& other.peers[ip].banned == state.peers[ip].banned
                &&& other.peers[ip].advertised == state.peers[ip].advertised
                &&& other.peers[ip].last_alive_millis == state.peers[ip].last_alive_millis
                &&& other.peers[ip].last_failure_millis == state.peers[ip].last_failure_millis
            },
        state::advertisable(state, told),
    ensures
        state::advertisable(other, told),
{
    let filter = PeerFilter::Advertisable;
    let order = PeerOrder::EarliestFailure;
    assert forall|ip: IpAddr| #[trigger] members(other.peers, filter).contains(ip) <==> members(
        state.peers,
        filter,
    ).contains(ip) by {
        assert(state.peers.contains_key(ip) <==> state.peers.dom().contains(ip));
        assert(other.peers.contains_key(ip) <==> other.peers.dom().contains(ip));
    }
    assert(members(other.peers, filter) =~= members(state.peers, filter));
    assert forall|limit: nat, ips: Seq<IpAddr>| #[trigger]
        best_first(state.peers, filter, order, limit, ips) implies best_first(
        other.peers,
        filter,
        order,
        limit,
        ips,
    ) by {
        assert forall|i: int| 0 <= i < ips.len() implies members(other.peers, filter).contains(
            #[trigger] ips[i],
        ) && state.peers.contains_key(ips[i]) by {
            assert(members(state.peers, filter).contains(ips[i]));
        }
        assert forall|i: int, j: int| 0 <= i < j < ips.len() implies order.le(
            other.peers[#[trigger] ips[i]],
            other.peers[#[trigger] ips[j]],
        ) by {
            assert(order.le(state.peers[ips[i]], state.peers[ips[j]]));
        }
        assert forall|i: int, ip: IpAddr|
            0 <= i < ips.len() && #[trigger] members(other.peers, filter).contains(ip)
                && !ips.contains(ip) implies order.le(
            other.peers[#[trigger] ips[i]],
            other.peers[ip],
        ) by {
            assert(members(state.peers, filter).contains(ip));
            assert(order.le(state.peers[ips[i]], state.peers[ip]));
        }
    }
}

/// A peer's chances of being tried do not depend on whether it is bootstrap: what are candidates
/// of one database are candidates of another in which the peers differ only in that.
pub proof fn law_candidates_whatever_is_bootstrap(
    state: DatabaseState,
    other: DatabaseState,
    now: Result<u64, CommunicationError>,
    r: Result<Seq<IpAddr>, CommunicationError>,
    bootstrap: Map<IpAddr, bool>,
)
    requires
        state.wf(),
        other == (DatabaseState { peers: other.peers, ..state }),
        other.peers == state.peers.map_entries(
            |ip: IpAddr, peer: PeerInfo| PeerInfo { bootstrap: bootstrap[ip], ..peer },
        ),
        state::out_connection_candidates(state, now, r),
    ensures
        state::out_connection_candidates(other, now, r),
{
    if let Ok(millis) = now {
        let filter = PeerFilter::Connectable {
            now: millis,
            wakeup_interval: state.wakeup_interval_millis,
        };
        let order = PeerOrder::EarliestFailure;
        assert(members(other.peers, filter) =~= members(state.peers, filter));
        if r is Ok && state.available_out_connection_attempts() > 0 {
            let ips = r->Ok_0;
            assert forall|i: int| 0 <= i < ips.len() implies state.peers.contains_key(
                #[trigger] ips[i],
            ) by {
                assert(members(state.peers, filter).contains(ips[i]));
            }
            assert forall|i: int, j: int| 0 <= i < j < ips.len() implies order.le(
                other.peers[#[trigger] ips[i]],
                other.peers[#[trigger] ips[j]],
            ) by {
                assert(order.le(state.peers[ips[i]], state.peers[ips[j]]));
            }
            assert forall|i: int, ip: IpAddr|
                0 <= i < ips.len() && #[trigger] members(other.peers, filter).contains(ip)
                    && !ips.contains(ip) implies order.le(
                other.peers[#[trigger] ips[i]],
                other.peers[ip],
            ) by {
                assert(members(state.peers, filter).contains(ip));
                assert(order.le(state.peers[ips[i]], state.peers[ip]));
            }
        }
    }
}

} // verus!
