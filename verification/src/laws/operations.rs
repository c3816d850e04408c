use vstd::prelude::*;

use crate::cleanup::{cleaned, law_cleanup_cleans};
use crate::error::CommunicationError;
use crate::ip::IpAddr;
use crate::laws::answers::law_candidates_qualify;
use crate::laws::cleanups::{law_cleanup_changes_no_peer, law_cleanup_keeps_bootstrap_and_active};
use crate::peer_info::PeerInfo;
use crate::preservation::lemma_counted;
use crate::state;
use crate::state::DatabaseState;

verus! {

/// An attempt is acknowledged if and only if the address is globally reachable and that of a known
/// peer, and one more attempt stays within both limits. It counts for the peer and for all peers
/// together, and changes nothing else.
pub proof fn law_new_attempt(
    pre: DatabaseState,
    ip: IpAddr,
    post: DatabaseState,
    r: Result<(), CommunicationError>,
)
    requires
        pre.wf(),
        state::new_out_connection_attempt(pre, ip, post, r),
    ensures
        r is Ok <==> ip.global && pre.peers.contains_key(ip) && pre.active_out_connection_attempts
            + 1 + pre.active_out_connections <= pre.cfg.target_out_connections
            && pre.active_out_connection_attempts + 1 <= pre.cfg.max_out_connnection_attempts,
        !ip.global ==> r == Err::<(), _>(CommunicationError::TargetIpIsNotGLobal(ip)),
        ip.global && (pre.active_out_connection_attempts + pre.active_out_connections
            >= pre.cfg.target_out_connections || pre.active_out_connection_attempts
            >= pre.cfg.max_out_connnection_attempts) ==> r == Err::<(), _>(
            CommunicationError::ToManyConnectionAttempt(ip),
        ),
        ip.global && pre.active_out_connection_attempts + pre.active_out_connections
            < pre.cfg.target_out_connections && pre.active_out_connection_attempts
            < pre.cfg.max_out_connnection_attempts && !pre.peers.contains_key(ip) ==> r == Err::<
            (),
            _,
        >(CommunicationError::PeerInfoNotFoundError(ip)),
        r is Err ==> post == pre,
        r is Ok ==> {
            &&& post.peers.dom() == pre.peers.dom()
            &&& post.peers[ip].active_out_connection_attempts
                == pre.peers[ip].active_out_connection_attempts + 1
            &&& post.active_out_connection_attempts == pre.active_out_connection_attempts + 1
            &&& post.peers[ip] == PeerInfo {
                active_out_connection_attempts: post.peers[ip].active_out_connection_attempts,
                ..pre.peers[ip]
            }
            &&& post == DatabaseState {
                peers: post.peers,
                active_out_connection_attempts: post.active_out_connection_attempts,
                ..pre
            }
        },
{
    if pre.peers.contains_key(ip) {
        lemma_counted(pre, ip);
    }
    if r is Ok {
        assert(post.peers.dom() =~= pre.peers.dom());
    }
}

/// A merge never fails. Unless there is nothing to merge, a dump is requested. It changes no count.
pub proof fn law_merge(
    pre: DatabaseState,
    new_peers: Seq<IpAddr>,
    post: DatabaseState,
    r: Result<(), CommunicationError>,
)
    requires
        pre.wf(),
        state::merge_candidate_peers(pre, new_peers, post, r),
    ensures
        r is Ok,
        new_peers.len() == 0 ==> post == pre,
        new_peers.len() > 0 ==> {
            &&& post.dump_requested
            &&& post == DatabaseState { peers: post.peers, dump_requested: true, ..pre }
            &&& cleaned(pre.cfg, pre.peers, Some(new_peers), post.peers)
        },
{
}

/// A sign of life of a known peer is recorded whatever was recorded before, and nothing else
/// changes but that a dump is requested.
pub proof fn law_sign_of_life(
    pre: DatabaseState,
    ip: IpAddr,
    now: Result<u64, CommunicationError>,
    post: DatabaseState,
    r: Result<(), CommunicationError>,
)
    requires
        pre.wf(),
        state::peer_alive(pre, ip, now, post, r),
    ensures
        r is Ok <==> now is Ok && pre.peers.contains_key(ip),
        now is Err ==> r == Err::<(), _>(now->Err_0),
        now is Ok && !pre.peers.contains_key(ip) ==> r == Err::<(), _>(
            CommunicationError::PeerInfoNotFoundError(ip),
        ),
        r is Err ==> post == pre,
        r is Ok ==> {
            &&& post.peers.dom() == pre.peers.dom()
            &&& post.peers[ip].last_alive_millis == Some(now->Ok_0)
            &&& post.peers[ip].ip == pre.peers[ip].ip
            &&& post.peers[ip].banned == pre.peers[ip].banned
            &&& post.peers[ip].bootstrap == pre.peers[ip].bootstrap
            &&& post.peers[ip].last_failure_millis == pre.peers[ip].last_failure_millis
            &&& post.peers[ip].advertised == pre.peers[ip].advertised
            &&& post.peers[ip].active_out_connection_attempts
                == pre.peers[ip].active_out_connection_attempts
            &&& post.peers[ip].active_out_connections == pre.peers[ip].active_out_connections
            &&& post.peers[ip].active_in_connections == pre.peers[ip].active_in_connections
            &&& post == DatabaseState { peers: post.peers, dump_requested: true, ..pre }
        },
{
    if r is Ok {
        lemma_counted(pre, ip);
        assert(post.peers.dom() =~= pre.peers.dom());
    }
}

/// A failure of a known peer is recorded whatever was recorded before, and nothing else changes but
/// that a dump is requested.
pub proof fn law_failure(
    pre: DatabaseState,
    ip: IpAddr,
    now: Result<u64, CommunicationError>,
    post: DatabaseState,
    r: Result<(), CommunicationError>,
)
    requires
        pre.wf(),
        state::peer_failed(pre, ip, now, post, r),
    ensures
        r is Ok <==> now is Ok && pre.peers.contains_key(ip),
        now is Err ==> r == Err::<(), _>(now->Err_0),
        now is Ok && !pre.peers.contains_key(ip) ==> r == Err::<(), _>(
            CommunicationError::PeerInfoNotFoundError(ip),
        ),
        r is Err ==> post == pre,
        r is Ok ==> {
            &&& post.peers.dom() == pre.peers.dom()
            &&& post.peers[ip].last_failure_millis == Some(now->Ok_0)
            &&& post.peers[ip].ip == pre.peers[ip].ip
            &&& post.peers[ip].banned == pre.peers[ip].banned
            &&& post.peers[ip].bootstrap == pre.peers[ip].bootstrap
            &&& post.peers[ip].last_alive_millis == pre.peers[ip].last_alive_millis
            &&& post.peers[ip].advertised == pre.peers[ip].advertised
            &&& post.peers[ip].active_out_connection_attempts
                == pre.peers[ip].active_out_connection_attempts
            &&& post.peers[ip].active_out_connections == pre.peers[ip].active_out_connections
            &&& post.peers[ip].active_in_connections == pre.peers[ip].active_in_connections
            &&& post == DatabaseState { peers: post.peers, dump_requested: true, ..pre }
        },
{
    if r is Ok {
        lemma_counted(pre, ip);
        assert(post.peers.dom() =~= pre.peers.dom());
    }
}

/// A peer that failed is not tried again within the wakeup interval, unless it was seen alive
/// after the failure.
pub proof fn law_failed_peer_is_left_alone(
    pre: DatabaseState,
    ip: IpAddr,
    failure: u64,
    post: DatabaseState,
    r: Result<(), CommunicationError>,
    now: u64,
    candidates: Seq<IpAddr>,
)
    requires
        pre.wf(),
        post.wf(),
        pre.peers.contains_key(ip),
        state::peer_failed(pre, ip, Ok(failure), post, r),
        pre.peers[ip].last_alive_millis is None || pre.peers[ip].last_alive_millis->0 <= failure,
        now <= failure + post.wakeup_interval_millis,
        state::out_connection_candidates(post, Ok(now), Ok(candidates)),
    ensures
        forall|i: int| 0 <= i < candidates.len() ==> #[trigger] candidates[i] != ip,
{
    law_failure(pre, ip, Ok(failure), post, r);
    law_candidates_qualify(post, now, candidates);
}

/// A failed attempt, too, keeps the peer from being tried within the wakeup interval.
pub proof fn law_failed_attempt_is_not_repeated(
    pre: DatabaseState,
    ip: IpAddr,
    failure: u64,
    post: DatabaseState,
    now: u64,
    candidates: Seq<IpAddr>,
)
    requires
        pre.wf(),
        post.wf(),
        state::out_connection_attempt_failed(pre, ip, Ok(failure), post, Ok(())),
        pre.peers[ip].last_alive_millis is None || pre.peers[ip].last_alive_millis->0 <= failure,
        now <= failure + post.wakeup_interval_millis,
        state::out_connection_candidates(post, Ok(now), Ok(candidates)),
    ensures
        forall|i: int| 0 <= i < candidates.len() ==> #[trigger] candidates[i] != ip,
{
    law_attempt_failed(pre, ip, Ok(failure), post, Ok(()));
    law_candidates_qualify(post, now, candidates);
}

/// A known peer can be banned whenever the clock can be read. It is then banned and has just
/// failed, and is otherwise as it was. It stays if it is bootstrap, or if there is an attempt to
/// it or a connection with it. If there is neither, the peers are cleaned up. No count changes,
/// and a dump is requested.
pub proof fn law_ban(
    pre: DatabaseState,
    ip: IpAddr,
    now: Result<u64, CommunicationError>,
    post: DatabaseState,
    r: Result<(), CommunicationError>,
)
    requires
        pre.wf(),
        state::peer_banned(pre, ip, now, post, r),
    ensures
        r is Ok <==> now is Ok && pre.peers.contains_key(ip),
        !pre.peers.contains_key(ip) ==> r == Err::<(), _>(
            CommunicationError::PeerInfoNotFoundError(ip),
        ),
        pre.peers.contains_key(ip) && now is Err ==> r == Err::<(), _>(now->Err_0),
        r is Err ==> post == pre,
        r is Ok ==> {
            &&& post == DatabaseState { peers: post.peers, dump_requested: true, ..pre }
            &&& pre.peers[ip].bootstrap || pre.peers[ip].active_out_connection_attempts > 0
                || pre.peers[ip].active_out_connections > 0 || pre.peers[ip].active_in_connections
                > 0 ==> post.peers.contains_key(ip)
            &&& pre.peers[ip].active_out_connection_attempts > 0
                || pre.peers[ip].active_out_connections > 0 || pre.peers[ip].active_in_connections
                > 0 ==> post.peers.dom() == pre.peers.dom()
            &&& pre.peers[ip].active_out_connection_attempts == 0
                && pre.peers[ip].active_out_connections == 0 && pre.peers[ip].active_in_connections
                == 0 ==> post.is_clean()
        },
        r is Ok && post.peers.contains_key(ip) ==> {
            &&& post.peers[ip].banned
            &&& post.peers[ip].last_failure_millis == Some(now->Ok_0)
            &&& post.peers[ip] == PeerInfo {
                banned: true,
                last_failure_millis: Some(now->Ok_0),
                ..pre.peers[ip]
            }
        },
{
    if r is Ok {
        lemma_counted(pre, ip);
        let banned = PeerInfo {
            banned: true,
            last_failure_millis: Some(now->Ok_0),
            ..pre.peers[ip]
        };
        let next = pre.with_peer(banned);
        assert(next.peers.dom() =~= pre.peers.dom());
        if !banned.spec_is_active() {
            lemma_cleaned_subject(next, post, ip);
        }
    }
}

/// What a cleanup does to the peer at `ip`.
proof fn lemma_cleaned_subject(next: DatabaseState, post: DatabaseState, ip: IpAddr)
    requires
        next.peers.contains_key(ip),
        next.cfg.spec_admits(ip),
        post.cfg == next.cfg,
        cleaned(next.cfg, next.peers, None, post.peers),
    ensures
        post.peers.contains_key(ip) ==> post.peers[ip] == next.peers[ip],
        next.peers[ip].bootstrap || next.peers[ip].active_out_connection_attempts > 0
            || next.peers[ip].active_out_connections > 0 || next.peers[ip].active_in_connections > 0
            ==> post.peers.contains_key(ip),
        post.is_clean(),
{
    law_cleanup_cleans(next.cfg, next.peers, None, post.peers);
    if post.peers.contains_key(ip) {
        law_cleanup_changes_no_peer(next.cfg, next.peers, None, post.peers, ip);
    }
    if next.peers[ip].bootstrap || next.peers[ip].active_out_connection_attempts > 0
        || next.peers[ip].active_out_connections > 0 || next.peers[ip].active_in_connections > 0 {
        law_cleanup_keeps_bootstrap_and_active(next.cfg, next.peers, None, post.peers, ip);
    }
}

/// An outgoing connection is closed if and only if there is one with the peer. There is then one
/// less, of the peer and in all. If the peer is bootstrap, or there is still an attempt to it or a
/// connection with it, it stays and nothing else changes. Otherwise the peers are cleaned up and a
/// dump is requested. If the peer stays it is otherwise as it was.
pub proof fn law_out_closed(
    pre: DatabaseState,
    ip: IpAddr,
    post: DatabaseState,
    r: Result<(), CommunicationError>,
)
    requires
        pre.wf(),
        state::out_connection_closed(pre, ip, post, r),
    ensures
        r is Ok <==> pre.peers.contains_key(ip) && pre.peers[ip].active_out_connections > 0,
        r is Err && (pre.active_out_connections == 0 || pre.peers.contains_key(ip)) ==> r == Err::<
            (),
            _,
        >(CommunicationError::ToManyActiveConnectionClosed(ip)),
        r is Err && pre.active_out_connections > 0 && !pre.peers.contains_key(ip) ==> r == Err::<
            (),
            _,
        >(CommunicationError::PeerInfoNotFoundError(ip)),
        r is Err ==> post == pre,
        r is Ok ==> {
            let kept = pre.peers[ip].bootstrap || pre.peers[ip].active_out_connection_attempts > 0
                || pre.peers[ip].active_out_connections > 1 || pre.peers[ip].active_in_connections
                > 0;
            &&& post.active_out_connections == pre.active_out_connections - 1
            &&& post == DatabaseState {
                peers: post.peers,
                active_out_connections: post.active_out_connections,
                dump_requested: pre.dump_requested || !kept,
                ..pre
            }
            &&& kept ==> post.peers.dom() == pre.peers.dom()
            &&& !kept ==> post.is_clean()
        },
        r is Ok && post.peers.contains_key(ip) ==> {
            &&& post.peers[ip].active_out_connections == pre.peers[ip].active_out_connections - 1
            &&& post.peers[ip] == PeerInfo {
                active_out_connections: post.peers[ip].active_out_connections,
                ..pre.peers[ip]
            }
        },
{
    if pre.peers.contains_key(ip) {
        lemma_counted(pre, ip);
    }
    if r is Ok {
        let closed = PeerInfo {
            active_out_connections: (pre.peers[ip].active_out_connections - 1) as usize,
            ..pre.peers[ip]
        };
        let next = pre.with_peer(closed);
        assert(next.peers.dom() =~= pre.peers.dom());
        if !closed.bootstrap && !closed.spec_is_active() {
            lemma_cleaned_subject(next, post, ip);
        }
    }
}

/// An incoming connection is closed if and only if there is one with the peer. There is then one
/// less, of the peer and in all. If the peer is bootstrap, or there is still an attempt to it or a
/// connection with it, it stays and nothing else changes. Otherwise the peers are cleaned up and a
/// dump is requested. If the peer stays it is otherwise as it was.
pub proof fn law_in_closed(
    pre: DatabaseState,
    ip: IpAddr,
    post: DatabaseState,
    r: Result<(), CommunicationError>,
)
    requires
        pre.wf(),
        state::in_connection_closed(pre, ip, post, r),
    ensures
        r is Ok <==> pre.peers.contains_key(ip) && pre.peers[ip].active_in_connections > 0,
        r is Err && (pre.active_in_connections == 0 || pre.peers.contains_key(ip)) ==> r == Err::<
            (),
            _,
        >(CommunicationError::ToManyActiveConnectionClosed(ip)),
        r is Err && pre.active_in_connections > 0 && !pre.peers.contains_key(ip) ==> r == Err::<
            (),
            _,
        >(CommunicationError::PeerInfoNotFoundError(ip)),
        r is Err ==> post == pre,
        r is Ok ==> {
            let kept = pre.peers[ip].bootstrap || pre.peers[ip].active_out_connection_attempts > 0
                || pre.peers[ip].active_out_connections > 0 || pre.peers[ip].active_in_connections
                > 1;
            &&& post.active_in_connections == pre.active_in_connections - 1
            &&& post == DatabaseState {
                peers: post.peers,
                active_in_connections: post.active_in_connections,
                dump_requested: pre.dump_requested || !kept,
                ..pre
            }
            &&& kept ==> post.peers.dom() == pre.peers.dom()
            &&& !kept ==> post.is_clean()
        },
        r is Ok && post.peers.contains_key(ip) ==> {
            &&& post.peers[ip].active_in_connections == pre.peers[ip].active_in_connections - 1
            &&& post.peers[ip] == PeerInfo {
                active_in_connections: post.peers[ip].active_in_connections,
                ..pre.peers[ip]
            }
        },
{
    if pre.peers.contains_key(ip) {
        lemma_counted(pre, ip);
    }
    if r is Ok {
        let closed = PeerInfo {
            active_in_connections: (pre.peers[ip].active_in_connections - 1) as usize,
            ..pre.peers[ip]
        };
        let next = pre.with_peer(closed);
        assert(next.peers.dom() =~= pre.peers.dom());
        if !closed.bootstrap && !closed.spec_is_active() {
            lemma_cleaned_subject(next, post, ip);
        }
    }
}

/// An attempt that succeeds becomes a connection, of the peer and in all, if and only if one was
/// under way to a peer that is not banned. The peer is then advertised and otherwise as it was.
///
/// If the peer is banned, no connection is made. The attempt is over, the peer has just failed, and
/// it is advertised and otherwise as it was. It stays if it is bootstrap or still active, and the
/// peers are cleaned up otherwise. If the clock cannot be read, only the attempt is over and the
/// peer is advertised.
pub proof fn law_attempt_succeeded(
    pre: DatabaseState,
    ip: IpAddr,
    now: Result<u64, CommunicationError>,
    post: DatabaseState,
    r: Result<bool, CommunicationError>,
)
    requires
        pre.wf(),
        state::try_out_connection_attempt_success(pre, ip, now, post, r),
    ensures
        r == Ok::<bool, CommunicationError>(true) <==> pre.peers.contains_key(ip)
            && pre.peers[ip].active_out_connection_attempts > 0 && !pre.peers[ip].banned,
        r == Ok::<bool, CommunicationError>(false) <==> pre.peers.contains_key(ip)
            && pre.peers[ip].active_out_connection_attempts > 0 && pre.peers[ip].banned
            && now is Ok,
        pre.peers.contains_key(ip) && pre.peers[ip].active_out_connection_attempts > 0
            && pre.peers[ip].banned && now is Err ==> r == Err::<bool, _>(now->Err_0),
        pre.active_out_connection_attempts == 0 || (pre.peers.contains_key(ip)
            && pre.peers[ip].active_out_connection_attempts == 0) ==> r == Err::<bool, _>(
            CommunicationError::ToManyConnectionAttempt(ip),
        ),
        pre.active_out_connection_attempts > 0 && !pre.peers.contains_key(ip) ==> r == Err::<
            bool,
            _,
        >(CommunicationError::PeerInfoNotFoundError(ip)),
        !pre.peers.contains_key(ip) || pre.peers[ip].active_out_connection_attempts == 0 ==> post
            == pre,
        pre.peers.contains_key(ip) && pre.peers[ip].active_out_connection_attempts > 0 ==> {
            &&& post.active_out_connection_attempts == pre.active_out_connection_attempts - 1
            &&& pre.peers[ip].banned ==> post.active_out_connections == pre.active_out_connections
            &&& !pre.peers[ip].banned ==> post.active_out_connections == pre.active_out_connections
                + 1
            &&& post == DatabaseState {
                peers: post.peers,
                active_out_connection_attempts: post.active_out_connection_attempts,
                active_out_connections: post.active_out_connections,
                dump_requested: pre.dump_requested || r is Ok,
                ..pre
            }
            &&& post.peers.dom() == pre.peers.dom() || (pre.peers[ip].banned && now is Ok
                && !pre.peers[ip].bootstrap && pre.peers[ip].active_out_connection_attempts == 1
                && pre.peers[ip].active_out_connections == 0 && pre.peers[ip].active_in_connections
                == 0)
            &&& pre.peers[ip].banned && now is Ok && !pre.peers[ip].bootstrap
                && pre.peers[ip].active_out_connection_attempts == 1
                && pre.peers[ip].active_out_connections == 0 && pre.peers[ip].active_in_connections
                == 0 ==> post.is_clean()
        },
        pre.peers.contains_key(ip) && pre.peers[ip].active_out_connection_attempts > 0
            && post.peers.contains_key(ip) ==> {
            &&& post.peers[ip].advertised
            &&& post.peers[ip].active_out_connection_attempts
                == pre.peers[ip].active_out_connection_attempts - 1
            &&& post.peers[ip].active_out_connections == pre.peers[ip].active_out_connections
                + if pre.peers[ip].banned {
                0int
            } else {
                1int
            }
            &&& post.peers[ip].last_failure_millis == if pre.peers[ip].banned && now is Ok {
                Some(now->Ok_0)
            } else {
                pre.peers[ip].last_failure_millis
            }
            &&& post.peers[ip] == PeerInfo {
                advertised: true,
                active_out_connection_attempts: post.peers[ip].active_out_connection_attempts,
                active_out_connections: post.peers[ip].active_out_connections,
                last_failure_millis: post.peers[ip].last_failure_millis,
                ..pre.peers[ip]
            }
        },
{
    if pre.peers.contains_key(ip) {
        lemma_counted(pre, ip);
        assert(pre.peers.insert(ip, post.peers[ip]).dom() =~= pre.peers.dom());
        if pre.peers[ip].active_out_connection_attempts > 0 && pre.peers[ip].banned && now is Ok {
            let refused = PeerInfo {
                advertised: true,
                active_out_connection_attempts: (pre.peers[ip].active_out_connection_attempts
                    - 1) as usize,
                last_failure_millis: Some(now->Ok_0),
                ..pre.peers[ip]
            };
            let next = pre.with_peer(refused);
            if !refused.bootstrap && !refused.spec_is_active() {
                lemma_cleaned_subject(next, post, ip);
            }
        }
    }
}

/// An attempt fails if and only if one is under way to the peer and the clock can be read. There is
/// then one less, of the peer and in all. The peer has just failed and is otherwise as it was. It
/// stays if it is bootstrap or still active, and the peers are cleaned up otherwise. A dump is
/// requested. If the clock cannot be read, only the attempt is over.
pub proof fn law_attempt_failed(
    pre: DatabaseState,
    ip: IpAddr,
    now: Result<u64, CommunicationError>,
    post: DatabaseState,
    r: Result<(), CommunicationError>,
)
    requires
        pre.wf(),
        state::out_connection_attempt_failed(pre, ip, now, post, r),
    ensures
        r is Ok <==> pre.peers.contains_key(ip) && pre.peers[ip].active_out_connection_attempts > 0
            && now is Ok,
        pre.peers.contains_key(ip) && pre.peers[ip].active_out_connection_attempts > 0
            && now is Err ==> r == Err::<(), _>(now->Err_0),
        pre.active_out_connection_attempts == 0 || (pre.peers.contains_key(ip)
            && pre.peers[ip].active_out_connection_attempts == 0) ==> r == Err::<(), _>(
            CommunicationError::ToManyConnectionFailure(ip),
        ),
        pre.active_out_connection_attempts > 0 && !pre.peers.contains_key(ip) ==> r == Err::<(), _>(
            CommunicationError::PeerInfoNotFoundError(ip),
        ),
        !pre.peers.contains_key(ip) || pre.peers[ip].active_out_connection_attempts == 0 ==> post
            == pre,
        pre.peers.contains_key(ip) && pre.peers[ip].active_out_connection_attempts > 0 ==> {
            &&& post.active_out_connection_attempts == pre.active_out_connection_attempts - 1
            &&& post == DatabaseState {
                peers: post.peers,
                active_out_connection_attempts: post.active_out_connection_attempts,
                dump_requested: pre.dump_requested || r is Ok,
                ..pre
            }
            &&& post.peers.dom() == pre.peers.dom() || (now is Ok && !pre.peers[ip].bootstrap
                && pre.peers[ip].active_out_connection_attempts == 1
                && pre.peers[ip].active_out_connections == 0 && pre.peers[ip].active_in_connections
                == 0)
            &&& now is Ok && !pre.peers[ip].bootstrap
                && pre.peers[ip].active_out_connection_attempts == 1
                && pre.peers[ip].active_out_connections == 0 && pre.peers[ip].active_in_connections
                == 0 ==> post.is_clean()
        },
        pre.peers.contains_key(ip) && pre.peers[ip].active_out_connection_attempts > 0
            && post.peers.contains_key(ip) ==> {
            &&& post.peers[ip].active_out_connection_attempts
                == pre.peers[ip].active_out_connection_attempts - 1
            &&& post.peers[ip].last_failure_millis == if now is Ok {
                Some(now->Ok_0)
            } else {
                pre.peers[ip].last_failure_millis
            }
            &&& post.peers[ip] == PeerInfo {
                active_out_connection_attempts: post.peers[ip].active_out_connection_attempts,
                last_failure_millis: post.peers[ip].last_failure_millis,
                ..pre.peers[ip]
            }
        },
{
    if pre.peers.contains_key(ip) {
        lemma_counted(pre, ip);
        assert(pre.peers.insert(ip, post.peers[ip]).dom() =~= pre.peers.dom());
        if pre.peers[ip].active_out_connection_attempts > 0 && now is Ok {
            let failed = PeerInfo {
                active_out_connection_attempts: (pre.peers[ip].active_out_connection_attempts
                    - 1) as usize,
                last_failure_millis: Some(now->Ok_0),
                ..pre.peers[ip]
            };
            let next = pre.with_peer(failed);
            if !failed.bootstrap && !failed.spec_is_active() {
                lemma_cleaned_subject(next, post, ip);
            }
        }
    }
}

/// A peer can connect to us if and only if its address is globally reachable and not our own, one
/// more connection stays within the limits, in all and for this address, and it is not known as
/// banned. The connection counts for the peer and in all. A peer that was not known is there, not
/// advertised, with nothing known of it but its address; one that was known is otherwise as it
/// was.
pub proof fn law_in_connection(
    pre: DatabaseState,
    ip: IpAddr,
    now: Result<u64, CommunicationError>,
    post: DatabaseState,
    r: Result<bool, CommunicationError>,
)
    requires
        pre.wf(),
        state::try_new_in_connection(pre, ip, now, post, r),
    ensures
        r == Ok::<bool, CommunicationError>(true) <==> {
            &&& ip.global
            &&& pre.cfg.routable_ip != Some(ip)
            &&& pre.active_in_connections + 1 <= pre.cfg.max_in_connections
            &&& 1 <= pre.cfg.max_in_connections_per_ip
            &&& pre.peers.contains_key(ip) ==> !pre.peers[ip].banned
                && pre.peers[ip].active_in_connections + 1 <= pre.cfg.max_in_connections_per_ip
        },
        r is Err ==> now is Err && r->Err_0 == now->Err_0 && pre.peers.contains_key(ip)
            && pre.peers[ip].banned && post == pre,
        r == Ok::<bool, CommunicationError>(true) ==> {
            &&& post.peers.dom() == pre.peers.dom().insert(ip)
            &&& post.active_in_connections == pre.active_in_connections + 1
            &&& post == DatabaseState {
                peers: post.peers,
                active_in_connections: post.active_in_connections,
                dump_requested: true,
                ..pre
            }
            &&& pre.peers.contains_key(ip) ==> post.peers[ip].active_in_connections
                == pre.peers[ip].active_in_connections + 1 && post.peers[ip] == (PeerInfo {
                active_in_connections: post.peers[ip].active_in_connections,
                ..pre.peers[ip]
            })
            &&& !pre.peers.contains_key(ip) ==> {
                &&& post.peers[ip].ip == ip
                &&& !post.peers[ip].banned
                &&& !post.peers[ip].bootstrap
                &&& post.peers[ip].last_alive_millis is None
                &&& post.peers[ip].last_failure_millis is None
                &&& !post.peers[ip].advertised
                &&& post.peers[ip].active_out_connection_attempts == 0
                &&& post.peers[ip].active_out_connections == 0
                &&& post.peers[ip].active_in_connections == 1
            }
        },
        !pre.peers.contains_key(ip) && r != Ok::<bool, CommunicationError>(true) ==> post == pre,
        !ip.global || pre.cfg.routable_ip == Some(ip) || pre.active_in_connections
            >= pre.cfg.max_in_connections || pre.cfg.max_in_connections_per_ip == 0 ==> post == pre
            && r is Ok,
{
    if pre.peers.contains_key(ip) {
        lemma_counted(pre, ip);
    }
    if r == Ok::<bool, CommunicationError>(true) {
        assert(post.peers.dom() =~= pre.peers.dom().insert(ip));
    }
}

/// A known banned peer is never accepted, whatever connections there are with it. If there would
/// have been a slot, the refusal is recorded as a failure, and nothing else changes. A peer that
/// is refused for its number of connections is left as it is. Either way a dump is requested.
pub proof fn law_in_connection_refused(
    pre: DatabaseState,
    ip: IpAddr,
    now: Result<u64, CommunicationError>,
    post: DatabaseState,
    r: Result<bool, CommunicationError>,
)
    requires
        pre.wf(),
        pre.peers.contains_key(ip),
        state::try_new_in_connection(pre, ip, now, post, r),
    ensures
        pre.peers[ip].banned ==> r != Ok::<bool, CommunicationError>(true),
        pre.peers[ip].banned ==> {
            &&& post.active_out_connection_attempts == pre.active_out_connection_attempts
            &&& post.active_out_connections == pre.active_out_connections
            &&& post.active_in_connections == pre.active_in_connections
            &&& post.peers.dom() == pre.peers.dom()
            &&& post.peers[ip].active_out_connection_attempts
                == pre.peers[ip].active_out_connection_attempts
            &&& post.peers[ip].active_out_connections == pre.peers[ip].active_out_connections
            &&& post.peers[ip].active_in_connections == pre.peers[ip].active_in_connections
            &&& post.peers[ip].banned
        },
        pre.peers[ip].banned && pre.active_in_connections < pre.cfg.max_in_connections
            && pre.cfg.max_in_connections_per_ip > 0 && now is Ok ==> {
            &&& r == Ok::<bool, CommunicationError>(false)
            &&& post.peers[ip].last_failure_millis == Some(now->Ok_0)
            &&& post.peers[ip] == PeerInfo {
                last_failure_millis: Some(now->Ok_0),
                ..pre.peers[ip]
            }
            &&& post == DatabaseState { peers: post.peers, dump_requested: true, ..pre }
        },
        pre.peers[ip].banned && pre.active_in_connections < pre.cfg.max_in_connections
            && pre.cfg.max_in_connections_per_ip > 0 && now is Err ==> r == Err::<bool, _>(
            now->Err_0,
        ) && post == pre,
        !pre.peers[ip].banned && pre.active_in_connections < pre.cfg.max_in_connections
            && pre.cfg.max_in_connections_per_ip > 0 && pre.peers[ip].active_in_connections
            >= pre.cfg.max_in_connections_per_ip ==> r == Ok::<bool, CommunicationError>(false)
            && post == (DatabaseState { dump_requested: true, ..pre }),
{
    lemma_counted(pre, ip);
    assert(post.peers.dom() =~= pre.peers.dom());
}

} // verus!
