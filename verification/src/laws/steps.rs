use vstd::prelude::*;

use crate::cleanup::cleaned;
use crate::error::CommunicationError;
use crate::ip::IpAddr;
use crate::laws::cleanups::{
    law_cleanup_changes_no_peer, law_cleanup_drops_banned_only_over_the_limit,
    law_cleanup_drops_idle_only_over_the_limit, law_cleanup_keeps_bootstrap_and_active,
    law_cleanup_makes_up_no_peer,
};
use crate::laws::lists::law_listed_peers;
use crate::laws::operations::{
    law_attempt_failed, law_attempt_succeeded, law_ban, law_failure, law_in_closed,
    law_in_connection, law_in_connection_refused, law_new_attempt, law_out_closed,
    law_sign_of_life,
};
use crate::laws::{law_step_preserves, outcome, step, Operation};
use crate::peer_info::{PeerClass, PeerInfo};
use crate::preservation::lemma_counted;
use crate::selection::{members, PeerFilter};
use crate::state;
use crate::state::DatabaseState;

verus! {

impl Operation {
    /// Whether the operation names `ip`.
    pub open spec fn concerns(self, ip: IpAddr) -> bool {
        match self {
            Operation::NewOutConnectionAttempt { ip: subject } => subject == ip,
            Operation::MergeCandidatePeers { new_peers } => new_peers.contains(ip),
            Operation::PeerAlive { ip: subject, .. } => subject == ip,
            Operation::PeerFailed { ip: subject, .. } => subject == ip,
            Operation::PeerBanned { ip: subject, .. } => subject == ip,
            Operation::OutConnectionClosed { ip: subject } => subject == ip,
            Operation::InConnectionClosed { ip: subject } => subject == ip,
            Operation::TryOutConnectionAttemptSuccess { ip: subject, .. } => subject == ip,
            Operation::OutConnectionAttemptFailed { ip: subject, .. } => subject == ip,
            Operation::TryNewInConnection { ip: subject, .. } => subject == ip,
            Operation::TakeDumpRequest => false,
        }
    }

    /// What the operation announces.
    pub open spec fn announces(self) -> Option<Seq<IpAddr>> {
        match self {
            Operation::MergeCandidatePeers { new_peers } => Some(new_peers),
            _ => None,
        }
    }
}

/// An operation changes at most the peer that it names. Whatever else changes among the peers is
/// the work of one cleanup.
pub proof fn law_step_is_a_change_and_a_cleanup(
    pre: DatabaseState,
    op: Operation,
    post: DatabaseState,
    r: Result<(), CommunicationError>,
) -> (changed: Map<IpAddr, PeerInfo>)
    requires
        pre.wf(),
        step(pre, op, post, r),
    ensures
        post.cfg == pre.cfg,
        post.wakeup_interval_millis == pre.wakeup_interval_millis,
        op is MergeCandidatePeers ==> changed == pre.peers,
        forall|ip: IpAddr|
            !op.concerns(ip) ==> (#[trigger] changed.contains_key(ip) <==> pre.peers.contains_key(
                ip,
            )),
        forall|ip: IpAddr| #[trigger]
            pre.peers.contains_key(ip) && !op.concerns(ip) ==> changed[ip] == pre.peers[ip],
        forall|ip: IpAddr| #[trigger] pre.peers.contains_key(ip) ==> changed.contains_key(ip),
        forall|ip: IpAddr| #[trigger] changed.contains_key(ip) ==> changed[ip].ip == ip,
        changed.dom().finite(),
        forall|ip: IpAddr| #[trigger]
            pre.peers.contains_key(ip) ==> {
                &&& changed[ip].bootstrap == pre.peers[ip].bootstrap
                &&& changed[ip].banned == (pre.peers[ip].banned || (op is PeerBanned && r is Ok
                    && op.concerns(ip)))
                &&& pre.peers[ip].advertised ==> changed[ip].advertised
                &&& !(op is PeerAlive) ==> changed[ip].last_alive_millis
                    == pre.peers[ip].last_alive_millis
                &&& op is OutConnectionClosed || op is InConnectionClosed
                    || op is NewOutConnectionAttempt || op is MergeCandidatePeers
                    ==> changed[ip].last_failure_millis == pre.peers[ip].last_failure_millis
            },
        r is Ok ==> match op {
            Operation::PeerBanned { ip, now } => changed[ip].last_failure_millis == Some(
                now->Ok_0,
            ),
            Operation::OutConnectionAttemptFailed { ip, now } => changed[ip].last_failure_millis
                == Some(now->Ok_0),
            Operation::TryOutConnectionAttemptSuccess { ip, now } => pre.peers[ip].banned
                ==> changed[ip].last_failure_millis == Some(now->Ok_0),
            _ => true,
        },
        post.peers == changed || cleaned(pre.cfg, changed, op.announces(), post.peers),
        pre.is_clean() && !(r is Err && op.clock_fails()) ==> post.is_clean(),
{
    law_step_preserves(pre, op, post, r);
    match op {
        Operation::PeerBanned { ip, now } => {
            if r is Ok {
                lemma_counted(pre, ip);
                let banned = PeerInfo {
                    banned: true,
                    last_failure_millis: Some(now->Ok_0),
                    ..pre.peers[ip]
                };
                pre.peers.insert(ip, banned)
            } else {
                post.peers
            }
        },
        Operation::OutConnectionClosed { ip } => {
            if r is Ok {
                lemma_counted(pre, ip);
                let closed = PeerInfo {
                    active_out_connections: (pre.peers[ip].active_out_connections - 1) as usize,
                    ..pre.peers[ip]
                };
                pre.peers.insert(ip, closed)
            } else {
                post.peers
            }
        },
        Operation::InConnectionClosed { ip } => {
            if r is Ok {
                lemma_counted(pre, ip);
                let closed = PeerInfo {
                    active_in_connections: (pre.peers[ip].active_in_connections - 1) as usize,
                    ..pre.peers[ip]
                };
                pre.peers.insert(ip, closed)
            } else {
                post.peers
            }
        },
        Operation::TryOutConnectionAttemptSuccess { ip, now } => {
            if pre.peers.contains_key(ip) {
                lemma_counted(pre, ip);
            }
            if r is Ok && pre.peers[ip].banned {
                let refused = PeerInfo {
                    advertised: true,
                    active_out_connection_attempts: (pre.peers[ip].active_out_connection_attempts
                        - 1) as usize,
                    last_failure_millis: Some(now->Ok_0),
                    ..pre.peers[ip]
                };
                pre.peers.insert(ip, refused)
            } else {
                post.peers
            }
        },
        Operation::OutConnectionAttemptFailed { ip, now } => {
            if pre.peers.contains_key(ip) {
                lemma_counted(pre, ip);
            }
            if r is Ok {
                let failed = PeerInfo {
                    active_out_connection_attempts: (pre.peers[ip].active_out_connection_attempts
                        - 1) as usize,
                    last_failure_millis: Some(now->Ok_0),
                    ..pre.peers[ip]
                };
                pre.peers.insert(ip, failed)
            } else {
                post.peers
            }
        },
        Operation::MergeCandidatePeers { .. } => pre.peers,
        _ => post.peers,
    }
}

/// An operation leaves alone every peer that it does not name. It can only drop such a peer, and
/// that only if the peer is not bootstrap and there is neither an attempt to it nor a connection
/// with it. It makes no peer of an address that it does not name.
pub proof fn law_other_peers_stay(
    pre: DatabaseState,
    op: Operation,
    post: DatabaseState,
    r: Result<(), CommunicationError>,
    ip: IpAddr,
)
    requires
        pre.wf(),
        step(pre, op, post, r),
        !op.concerns(ip),
    ensures
        post.peers.contains_key(ip) ==> pre.peers.contains_key(ip) && post.peers[ip]
            == pre.peers[ip],
        pre.peers.contains_key(ip) && (pre.peers[ip].bootstrap
            || pre.peers[ip].active_out_connection_attempts > 0
            || pre.peers[ip].active_out_connections > 0 || pre.peers[ip].active_in_connections > 0)
            ==> post.peers.contains_key(ip),
{
    let changed = law_step_is_a_change_and_a_cleanup(pre, op, post, r);
    let new_peers = op.announces();
    if post.peers != changed {
        if post.peers.contains_key(ip) {
            law_cleanup_makes_up_no_peer(pre.cfg, changed, new_peers, post.peers, ip);
            assert(changed.contains_key(ip));
            law_cleanup_changes_no_peer(pre.cfg, changed, new_peers, post.peers, ip);
        }
        if pre.peers.contains_key(ip) && (pre.peers[ip].bootstrap
            || pre.peers[ip].active_out_connection_attempts > 0
            || pre.peers[ip].active_out_connections > 0 || pre.peers[ip].active_in_connections
            > 0) {
            lemma_counted(pre, ip);
            law_cleanup_keeps_bootstrap_and_active(pre.cfg, changed, new_peers, post.peers, ip);
        }
    }
}

/// An operation forgets a peer that it does not name only if the peer is neither banned nor
/// advertised, or if there are as many inactive peers of its kind, banned or not, as the
/// configuration allows.
pub proof fn law_other_peers_are_dropped_only_over_the_limits(
    pre: DatabaseState,
    op: Operation,
    post: DatabaseState,
    r: Result<(), CommunicationError>,
    ip: IpAddr,
)
    requires
        pre.wf(),
        step(pre, op, post, r),
        !op.concerns(ip),
        pre.peers.contains_key(ip),
        !post.peers.contains_key(ip),
    ensures
        pre.peers[ip].banned ==> post.peers.dom().filter(
            |a: IpAddr|
                !post.peers[a].bootstrap && post.peers[a].active_out_connection_attempts == 0
                    && post.peers[a].active_out_connections == 0
                    && post.peers[a].active_in_connections == 0 && post.peers[a].banned,
        ).len() == pre.cfg.max_banned_peers,
        !pre.peers[ip].banned && pre.peers[ip].advertised ==> post.peers.dom().filter(
            |a: IpAddr|
                !post.peers[a].bootstrap && post.peers[a].active_out_connection_attempts == 0
                    && post.peers[a].active_out_connections == 0
                    && post.peers[a].active_in_connections == 0 && !post.peers[a].banned,
        ).len() == pre.cfg.max_idle_peers,
{
    let changed = law_step_is_a_change_and_a_cleanup(pre, op, post, r);
    let new_peers = op.announces();
    lemma_counted(pre, ip);
    assert(changed.contains_key(ip) && changed[ip] == pre.peers[ip]);
    if pre.peers[ip].banned {
        law_cleanup_drops_banned_only_over_the_limit(pre.cfg, changed, new_peers, post.peers, ip);
    } else if pre.peers[ip].advertised {
        law_cleanup_drops_idle_only_over_the_limit(
            pre.cfg,
            changed,
            new_peers,
            post.peers,
            ip,
            pre.peers[ip].last_alive_millis,
            pre.peers[ip].last_failure_millis,
        );
    }
}

/// An operation forgets a peer that it names only if the peer is not bootstrap, and only if it is
/// neither banned nor advertised, or if there are as many inactive peers of its kind, banned or
/// not, as the configuration allows. Those banned peers that stay failed no earlier than it, and
/// those others that stay were seen alive no earlier.
pub proof fn law_named_peers_are_dropped_only_over_the_limits(
    pre: DatabaseState,
    op: Operation,
    post: DatabaseState,
    r: Result<(), CommunicationError>,
    ip: IpAddr,
)
    requires
        pre.wf(),
        step(pre, op, post, r),
        op.concerns(ip),
        pre.peers.contains_key(ip),
        !post.peers.contains_key(ip),
    ensures
        !pre.peers[ip].bootstrap,
        pre.peers[ip].banned || op is PeerBanned ==> post.peers.dom().filter(
            |a: IpAddr|
                !post.peers[a].bootstrap && post.peers[a].active_out_connection_attempts == 0
                    && post.peers[a].active_out_connections == 0
                    && post.peers[a].active_in_connections == 0 && post.peers[a].banned,
        ).len() == pre.cfg.max_banned_peers,
        !pre.peers[ip].banned && !(op is PeerBanned) && pre.peers[ip].advertised
            ==> post.peers.dom().filter(
            |a: IpAddr|
                !post.peers[a].bootstrap && post.peers[a].active_out_connection_attempts == 0
                    && post.peers[a].active_out_connections == 0
                    && post.peers[a].active_in_connections == 0 && !post.peers[a].banned,
        ).len() == pre.cfg.max_idle_peers,
        forall|a: IpAddr| #[trigger]
            post.peers.contains_key(a) && !post.peers[a].bootstrap
                && post.peers[a].active_out_connection_attempts == 0
                && post.peers[a].active_out_connections == 0 && post.peers[a].active_in_connections
                == 0 && post.peers[a].banned && (pre.peers[ip].banned || op is PeerBanned) ==> {
                &&& op matches Operation::PeerBanned { now, .. } ==> post.peers[
                    a
                ].last_failure_millis is Some && now->Ok_0 <= post.peers[a].last_failure_millis->0
                &&& op matches Operation::OutConnectionAttemptFailed { now, .. } ==> post.peers[
                    a
                ].last_failure_millis is Some && now->Ok_0 <= post.peers[a].last_failure_millis->0
                &&& op matches Operation::TryOutConnectionAttemptSuccess { now, .. } ==> post.peers[
                    a
                ].last_failure_millis is Some && now->Ok_0 <= post.peers[a].last_failure_millis->0
                &&& (op is OutConnectionClosed || op is InConnectionClosed)
                    && pre.peers[ip].last_failure_millis is Some ==> post.peers[
                    a
                ].last_failure_millis is Some && pre.peers[ip].last_failure_millis->0
                    <= post.peers[a].last_failure_millis->0
            },
        forall|a: IpAddr| #[trigger]
            post.peers.contains_key(a) && !post.peers[a].bootstrap
                && post.peers[a].active_out_connection_attempts == 0
                && post.peers[a].active_out_connections == 0 && post.peers[a].active_in_connections
                == 0 && !post.peers[a].banned && !pre.peers[ip].banned && !(op is PeerBanned)
                && pre.peers[ip].advertised && pre.peers[ip].last_alive_millis is Some
                ==> post.peers[a].last_alive_millis is Some && pre.peers[ip].last_alive_millis->0
                <= post.peers[a].last_alive_millis->0,
{
    let changed = law_step_is_a_change_and_a_cleanup(pre, op, post, r);
    let new_peers = op.announces();
    lemma_counted(pre, ip);
    assert(changed.contains_key(ip));
    if pre.peers[ip].bootstrap {
        law_cleanup_keeps_bootstrap_and_active(pre.cfg, changed, new_peers, post.peers, ip);
    }
    if pre.peers[ip].banned || op is PeerBanned {
        law_cleanup_drops_banned_only_over_the_limit(pre.cfg, changed, new_peers, post.peers, ip);
    } else if pre.peers[ip].advertised {
        assert(!(op is PeerAlive));
        law_cleanup_drops_idle_only_over_the_limit(
            pre.cfg,
            changed,
            new_peers,
            post.peers,
            ip,
            changed[ip].last_alive_millis,
            changed[ip].last_failure_millis,
        );
    }
}

/// No operation opens a connection with a peer that is banned, in either direction.
pub proof fn law_no_connection_with_banned(
    pre: DatabaseState,
    op: Operation,
    post: DatabaseState,
    r: Result<(), CommunicationError>,
    ip: IpAddr,
)
    requires
        pre.wf(),
        step(pre, op, post, r),
        pre.peers.contains_key(ip),
        pre.peers[ip].banned,
        post.peers.contains_key(ip),
    ensures
        post.peers[ip].active_out_connections <= pre.peers[ip].active_out_connections,
        post.peers[ip].active_in_connections <= pre.peers[ip].active_in_connections,
        post.peers[ip].banned,
{
    if !op.concerns(ip) {
        law_other_peers_stay(pre, op, post, r, ip);
    } else {
        match op {
            Operation::NewOutConnectionAttempt { ip } => {
                law_new_attempt(pre, ip, post, r);
            },
            Operation::MergeCandidatePeers { new_peers } => {
                if new_peers.len() > 0 {
                    law_cleanup_changes_no_peer(
                        pre.cfg,
                        pre.peers,
                        Some(new_peers),
                        post.peers,
                        ip,
                    );
                }
            },
            Operation::PeerAlive { ip, now } => {
                law_sign_of_life(pre, ip, now, post, r);
            },
            Operation::PeerFailed { ip, now } => {
                law_failure(pre, ip, now, post, r);
            },
            Operation::PeerBanned { ip, now } => {
                law_ban(pre, ip, now, post, r);
            },
            Operation::OutConnectionClosed { ip } => {
                law_out_closed(pre, ip, post, r);
            },
            Operation::InConnectionClosed { ip } => {
                law_in_closed(pre, ip, post, r);
            },
            Operation::TryOutConnectionAttemptSuccess { ip, now } => {
                let answer = choose|answer: Result<bool, CommunicationError>|
                    r == outcome(answer) && #[trigger] state::try_out_connection_attempt_success(
                        pre,
                        ip,
                        now,
                        post,
                        answer,
                    );
                law_attempt_succeeded(pre, ip, now, post, answer);
            },
            Operation::OutConnectionAttemptFailed { ip, now } => {
                law_attempt_failed(pre, ip, now, post, r);
            },
            Operation::TryNewInConnection { ip, now } => {
                let answer = choose|answer: Result<bool, CommunicationError>|
                    r == outcome(answer) && #[trigger] state::try_new_in_connection(
                        pre,
                        ip,
                        now,
                        post,
                        answer,
                    );
                law_in_connection(pre, ip, now, post, answer);
                law_in_connection_refused(pre, ip, now, post, answer);
            },
            Operation::TakeDumpRequest => {},
        }
    }
}

/// Whatever changes of a peer but its connections is dumped, and so is the appearance or the loss
/// of a peer, unless the operation fails because the clock cannot be read. No operation takes back
/// a request for a dump.
pub proof fn law_lasting_changes_are_dumped(
    pre: DatabaseState,
    op: Operation,
    post: DatabaseState,
    r: Result<(), CommunicationError>,
    ip: IpAddr,
)
    requires
        pre.wf(),
        step(pre, op, post, r),
        !(r is Err && op.clock_fails()),
        !(op is TakeDumpRequest),
        !post.dump_requested,
    ensures
        !pre.dump_requested,
        pre.peers.contains_key(ip) <==> post.peers.contains_key(ip),
        pre.peers.contains_key(ip) ==> {
            &&& post.peers[ip].ip == pre.peers[ip].ip
            &&& post.peers[ip].banned == pre.peers[ip].banned
            &&& post.peers[ip].bootstrap == pre.peers[ip].bootstrap
            &&& post.peers[ip].last_alive_millis == pre.peers[ip].last_alive_millis
            &&& post.peers[ip].last_failure_millis == pre.peers[ip].last_failure_millis
            &&& post.peers[ip].advertised == pre.peers[ip].advertised
        },
{
    match op {
        Operation::NewOutConnectionAttempt { ip: subject } => {
            law_new_attempt(pre, subject, post, r);
        },
        Operation::OutConnectionClosed { ip: subject } => {
            law_out_closed(pre, subject, post, r);
        },
        Operation::InConnectionClosed { ip: subject } => {
            law_in_closed(pre, subject, post, r);
        },
        _ => {},
    }
    assert(pre.peers.dom().contains(ip) <==> post.peers.dom().contains(ip));
}

/// If a dump was requested, taking the request hands out all peers, each of them once and as it
/// is, and otherwise nothing. It clears the request and changes nothing else.
pub proof fn law_dump_request_is_taken(
    pre: DatabaseState,
    post: DatabaseState,
    r: Option<Seq<PeerInfo>>,
)
    requires
        state::take_dump_request(pre, post, r),
    ensures
        r is Some <==> pre.dump_requested,
        r is Some ==> {
            &&& forall|i: int|
                0 <= i < r->0.len() ==> pre.peers.contains_key((#[trigger] r->0[i]).ip)
                    && pre.peers[r->0[i].ip] == r->0[i]
            &&& forall|ip: IpAddr| #[trigger]
                pre.peers.contains_key(ip) ==> r->0.contains(pre.peers[ip])
            &&& forall|i: int, j: int|
                0 <= i < j < r->0.len() ==> (#[trigger] r->0[i]).ip != (#[trigger] r->0[j]).ip
        },
        !post.dump_requested,
        post.cfg == pre.cfg,
        post.peers == pre.peers,
        post.active_out_connection_attempts == pre.active_out_connection_attempts,
        post.active_out_connections == pre.active_out_connections,
        post.active_in_connections == pre.active_in_connections,
        post.wakeup_interval_millis == pre.wakeup_interval_millis,
{
    if r is Some {
        law_listed_peers(r->0, pre.peers);
    }
}

/// In every database, attempts and outgoing connections together are no more than those aimed for,
/// attempts no more than may be made at once, and incoming connections no more than may be
/// accepted, in all and of each peer. No peer has more of them than are counted. Every peer stands
/// at its own address, which is globally reachable and not our own.
pub proof fn law_limits(state: DatabaseState, ip: IpAddr)
    requires
        state.wf(),
    ensures
        state.active_out_connection_attempts + state.active_out_connections
            <= state.cfg.target_out_connections,
        state.active_out_connection_attempts <= state.cfg.max_out_connnection_attempts,
        state.active_in_connections <= state.cfg.max_in_connections,
        state.peers.contains_key(ip) ==> {
            &&& state.peers[ip].ip == ip
            &&& ip.global
            &&& state.cfg.routable_ip != Some(ip)
            &&& state.peers[ip].active_in_connections <= state.cfg.max_in_connections_per_ip
            &&& state.peers[ip].active_out_connection_attempts
                <= state.active_out_connection_attempts
            &&& state.peers[ip].active_out_connections <= state.active_out_connections
            &&& state.peers[ip].active_in_connections <= state.active_in_connections
        },
{
    if state.peers.contains_key(ip) {
        lemma_counted(state, ip);
    }
}

/// Where there is nothing to clean up, every peer is bootstrap, active, banned or advertised, and
/// no more inactive banned peers and no more other inactive peers are there than the configuration
/// allows. Bootstrap peers count against neither limit.
pub proof fn law_nothing_to_clean_up(state: DatabaseState)
    requires
        state.is_clean(),
    ensures
        forall|ip: IpAddr| #[trigger]
            state.peers.contains_key(ip) ==> ip.global && state.cfg.routable_ip != Some(ip) && (
            state.peers[ip].bootstrap || state.peers[ip].active_out_connection_attempts > 0
                || state.peers[ip].active_out_connections > 0
                || state.peers[ip].active_in_connections > 0 || state.peers[ip].banned
                || state.peers[ip].advertised),
        state.peers.dom().filter(
            |ip: IpAddr|
                !state.peers[ip].bootstrap && state.peers[ip].active_out_connection_attempts == 0
                    && state.peers[ip].active_out_connections == 0
                    && state.peers[ip].active_in_connections == 0 && state.peers[ip].banned,
        ).len() <= state.cfg.max_banned_peers,
        state.peers.dom().filter(
            |ip: IpAddr|
                !state.peers[ip].bootstrap && state.peers[ip].active_out_connection_attempts == 0
                    && state.peers[ip].active_out_connections == 0
                    && state.peers[ip].active_in_connections == 0 && !state.peers[ip].banned,
        ).len() <= state.cfg.max_idle_peers,
{
    assert forall|ip: IpAddr| #[trigger] state.peers.dom().contains(
        ip,
    ) implies state.peers[ip].spec_class() != PeerClass::Dropped by {
        assert(state.peers.contains_key(ip));
    }
    assert(state.peers.dom().filter(
        |ip: IpAddr|
            !state.peers[ip].bootstrap && state.peers[ip].active_out_connection_attempts == 0
                && state.peers[ip].active_out_connections == 0
                && state.peers[ip].active_in_connections == 0 && state.peers[ip].banned,
    ) =~= members(state.peers, PeerFilter::Class(PeerClass::Banned)));
    assert(state.peers.dom().filter(
        |ip: IpAddr|
            !state.peers[ip].bootstrap && state.peers[ip].active_out_connection_attempts == 0
                && state.peers[ip].active_out_connections == 0
                && state.peers[ip].active_in_connections == 0 && !state.peers[ip].banned,
    ) =~= members(state.peers, PeerFilter::Class(PeerClass::Idle)));
}

} // verus!
