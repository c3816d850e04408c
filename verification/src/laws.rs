use vstd::prelude::*;

use crate::announcement::announced;
use crate::cleanup::{cleaned, cleanup_pool, law_cleanup_of_clean};
use crate::config::NetworkConfig;
use crate::error::CommunicationError;
use crate::ip::IpAddr;
use crate::peer_info::{PeerClass, PeerInfo};
use crate::peer_table::{by_ip, distinct_ips, lemma_lists};
use crate::preservation::{
    lemma_counted, lemma_dump_requested, lemma_in_connection_closed, lemma_loaded,
    lemma_merge_candidate_peers, lemma_new_out_connection_attempt,
    lemma_out_connection_attempt_failed, lemma_out_connection_closed, lemma_peer_alive,
    lemma_peer_banned, lemma_peer_failed, lemma_put, lemma_try_new_in_connection,
    lemma_try_out_connection_attempt_success,
};
use crate::selection::{enumerates, members, PeerFilter};
use crate::state;
use crate::state::{loaded, restored, DatabaseState};

pub mod answers;
pub mod cleanups;
pub mod files;
pub mod lists;
pub mod operations;
pub mod steps;

verus! {

/// The operations that change a database. The time is what the clock shows.
pub enum Operation {
    NewOutConnectionAttempt { ip: IpAddr },
    MergeCandidatePeers { new_peers: Seq<IpAddr> },
    PeerAlive { ip: IpAddr, now: Result<u64, CommunicationError> },
    PeerFailed { ip: IpAddr, now: Result<u64, CommunicationError> },
    PeerBanned { ip: IpAddr, now: Result<u64, CommunicationError> },
    OutConnectionClosed { ip: IpAddr },
    InConnectionClosed { ip: IpAddr },
    TryOutConnectionAttemptSuccess { ip: IpAddr, now: Result<u64, CommunicationError> },
    OutConnectionAttemptFailed { ip: IpAddr, now: Result<u64, CommunicationError> },
    TryNewInConnection { ip: IpAddr, now: Result<u64, CommunicationError> },
    TakeDumpRequest,
}

impl Operation {
    /// Whether the clock cannot be read during the operation.
    pub open spec fn clock_fails(self) -> bool {
        match self {
            Operation::PeerAlive { now, .. } => now is Err,
            Operation::PeerFailed { now, .. } => now is Err,
            Operation::PeerBanned { now, .. } => now is Err,
            Operation::TryOutConnectionAttemptSuccess { now, .. } => now is Err,
            Operation::OutConnectionAttemptFailed { now, .. } => now is Err,
            Operation::TryNewInConnection { now, .. } => now is Err,
            _ => false,
        }
    }

    /// Whether the operation ends a connection attempt.
    pub open spec fn ends_attempt(self) -> bool {
        self is TryOutConnectionAttemptSuccess || self is OutConnectionAttemptFailed
    }
}

/// An answer without what a success returns.
pub open spec fn outcome<T>(r: Result<T, CommunicationError>) -> Result<(), CommunicationError> {
    match r {
        Ok(_) => Ok(()),
        Err(e) => Err(e),
    }
}

/// Whether `op` can take a database from `pre` to `post` with the outcome `r`.
pub open spec fn step(
    pre: DatabaseState,
    op: Operation,
    post: DatabaseState,
    r: Result<(), CommunicationError>,
) -> bool {
    match op {
        Operation::NewOutConnectionAttempt { ip } => state::new_out_connection_attempt(
            pre,
            ip,
            post,
            r,
        ),
        Operation::MergeCandidatePeers { new_peers } => state::merge_candidate_peers(
            pre,
            new_peers,
            post,
            r,
        ),
        Operation::PeerAlive { ip, now } => state::peer_alive(pre, ip, now, post, r),
        Operation::PeerFailed { ip, now } => state::peer_failed(pre, ip, now, post, r),
        Operation::PeerBanned { ip, now } => state::peer_banned(pre, ip, now, post, r),
        Operation::OutConnectionClosed { ip } => state::out_connection_closed(pre, ip, post, r),
        Operation::InConnectionClosed { ip } => state::in_connection_closed(pre, ip, post, r),
        Operation::TryOutConnectionAttemptSuccess { ip, now } => {
            exists|answer: Result<bool, CommunicationError>|
                r == outcome(answer) && #[trigger] state::try_out_connection_attempt_success(
                    pre,
                    ip,
                    now,
                    post,
                    answer,
                )
        },
        Operation::OutConnectionAttemptFailed { ip, now } => state::out_connection_attempt_failed(
            pre,
            ip,
            now,
            post,
            r,
        ),
        Operation::TryNewInConnection { ip, now } => {
            exists|answer: Result<bool, CommunicationError>|
                r == outcome(answer) && #[trigger] state::try_new_in_connection(
                    pre,
                    ip,
                    now,
                    post,
                    answer,
                )
        },
        Operation::TakeDumpRequest => {
            &&& r == Ok::<(), CommunicationError>(())
            &&& exists|records: Option<Seq<PeerInfo>>| #[trigger]
                state::take_dump_request(pre, post, records)
        },
    }
}

/// Every operation keeps what holds of every database: peers stand at their addresses and are
/// admitted by the configuration, the counts are those of all peers together, and they stay
/// within the limits. And, unless it fails because the clock cannot be read, it leaves nothing to
/// clean up where there was nothing.
pub proof fn law_step_preserves(
    pre: DatabaseState,
    op: Operation,
    post: DatabaseState,
    r: Result<(), CommunicationError>,
)
    requires
        pre.wf(),
        step(pre, op, post, r),
    ensures
        post.wf(),
        pre.is_clean() && !(r is Err && op.clock_fails()) ==> post.is_clean(),
{
    match op {
        Operation::NewOutConnectionAttempt { ip } => {
            lemma_new_out_connection_attempt(pre, ip, post, r);
        },
        Operation::MergeCandidatePeers { new_peers } => {
            lemma_merge_candidate_peers(pre, new_peers, post, r);
        },
        Operation::PeerAlive { ip, now } => {
            lemma_peer_alive(pre, ip, now, post, r);
        },
        Operation::PeerFailed { ip, now } => {
            lemma_peer_failed(pre, ip, now, post, r);
        },
        Operation::PeerBanned { ip, now } => {
            lemma_peer_banned(pre, ip, now, post, r);
        },
        Operation::OutConnectionClosed { ip } => {
            lemma_out_connection_closed(pre, ip, post, r);
        },
        Operation::InConnectionClosed { ip } => {
            lemma_in_connection_closed(pre, ip, post, r);
        },
        Operation::TryOutConnectionAttemptSuccess { ip, now } => {
            let answer = choose|answer: Result<bool, CommunicationError>|
                r == outcome(answer) && #[trigger] state::try_out_connection_attempt_success(
                    pre,
                    ip,
                    now,
                    post,
                    answer,
                );
            lemma_try_out_connection_attempt_success(pre, ip, now, post, answer);
        },
        Operation::OutConnectionAttemptFailed { ip, now } => {
            lemma_out_connection_attempt_failed(pre, ip, now, post, r);
        },
        Operation::TryNewInConnection { ip, now } => {
            let answer = choose|answer: Result<bool, CommunicationError>|
                r == outcome(answer) && #[trigger] state::try_new_in_connection(
                    pre,
                    ip,
                    now,
                    post,
                    answer,
                );
            lemma_try_new_in_connection(pre, ip, now, post, answer);
        },
        Operation::TakeDumpRequest => {
            lemma_dump_requested(pre, post);
        },
    }
}

/// Whether `states` are those of a database that was loaded, and then went through `ops` with the
/// outcomes `results`.
pub open spec fn is_history(
    cfg: NetworkConfig,
    wakeup_millis: u128,
    saved: Seq<PeerInfo>,
    ops: Seq<Operation>,
    results: Seq<Result<(), CommunicationError>>,
    states: Seq<DatabaseState>,
) -> bool {
    &&& states.len() == ops.len() + 1
    &&& results.len() == ops.len()
    &&& loaded(cfg, wakeup_millis, saved, states[0])
    &&& forall|i: int|
        0 <= i < ops.len() ==> step(states[i], #[trigger] ops[i], states[i + 1], results[i])
}

/// In every state that a database comes to, the counts are those of all peers together and stay
/// within the limits of the configuration. And as long as no operation failed because the clock
/// could not be read, there is nothing to clean up: every peer is admitted and active, bootstrap,
/// banned or advertised, and neither the inactive banned peers nor the idle ones are more than
/// the configuration allows.
pub proof fn law_every_state(
    cfg: NetworkConfig,
    wakeup_millis: u128,
    saved: Seq<PeerInfo>,
    ops: Seq<Operation>,
    results: Seq<Result<(), CommunicationError>>,
    states: Seq<DatabaseState>,
    n: int,
)
    requires
        is_history(cfg, wakeup_millis, saved, ops, results, states),
        0 <= n < states.len(),
    ensures
        states[n].wf(),
        states[n].cfg == cfg,
        (forall|i: int| 0 <= i < n ==> !(results[i] is Err && (#[trigger] ops[i]).clock_fails()))
            ==> states[n].is_clean(),
    decreases n,
{
    if n == 0 {
        lemma_loaded(cfg, wakeup_millis, saved, states[0]);
    } else {
        law_every_state(cfg, wakeup_millis, saved, ops, results, states, n - 1);
        assert(step(states[n - 1], ops[n - 1], states[n], results[n - 1]));
        law_step_preserves(states[n - 1], ops[n - 1], states[n], results[n - 1]);
    }
}

/// An operation that is refused changes nothing. Only where a connection attempt has ended and the
/// clock cannot be read, the attempt is over all the same.
pub proof fn law_refusal_changes_nothing(
    pre: DatabaseState,
    op: Operation,
    post: DatabaseState,
    r: Result<(), CommunicationError>,
)
    requires
        step(pre, op, post, r),
        r is Err,
        !(op.ends_attempt() && op.clock_fails()),
    ensures
        post == pre,
{
}

/// What would be saved of `peers`.
pub open spec fn saved_peers(peers: Map<IpAddr, PeerInfo>) -> Map<IpAddr, PeerInfo> {
    Map::new(
        |ip: IpAddr| members(peers, PeerFilter::Saved).contains(ip),
        |ip: IpAddr| peers[ip].spec_restored(),
    )
}

/// Whenever an operation changes what would be saved, it requests a dump, unless it fails because
/// the clock cannot be read.
pub proof fn law_changes_are_dumped(
    pre: DatabaseState,
    op: Operation,
    post: DatabaseState,
    r: Result<(), CommunicationError>,
)
    requires
        pre.wf(),
        step(pre, op, post, r),
        !(r is Err && op.clock_fails()),
    ensures
        post.dump_requested || saved_peers(post.peers) == saved_peers(pre.peers),
{
    if !post.dump_requested {
        match op {
            Operation::NewOutConnectionAttempt { ip } => {
                if r is Ok {
                    lemma_same_saved(pre, post.peers[ip]);
                }
            },
            Operation::OutConnectionClosed { ip } => {
                if r is Ok {
                    lemma_same_saved(pre, post.peers[ip]);
                }
            },
            Operation::InConnectionClosed { ip } => {
                if r is Ok {
                    lemma_same_saved(pre, post.peers[ip]);
                }
            },
            _ => {},
        }
    }
}

/// What would be saved does not depend on the connections.
proof fn lemma_same_saved(pre: DatabaseState, peer: PeerInfo)
    requires
        pre.peers.contains_key(peer.ip),
        peer.spec_restored() == pre.peers[peer.ip].spec_restored(),
    ensures
        saved_peers(pre.peers.insert(peer.ip, peer)) == saved_peers(pre.peers),
{
    let after = pre.peers.insert(peer.ip, peer);
    let old_peer = pre.peers[peer.ip];
    assert(peer.spec_restored().banned == old_peer.spec_restored().banned);
    assert(peer.spec_restored().advertised == old_peer.spec_restored().advertised);
    assert(peer.spec_restored().bootstrap == old_peer.spec_restored().bootstrap);
    assert(saved_peers(after) =~= saved_peers(pre.peers));
}

/// A failed attempt undoes the attempt: the counts are as they were, and the peer is as it was
/// but for the time of its failure, unless the cleanup drops it.
pub proof fn law_attempt_then_failure(
    pre: DatabaseState,
    ip: IpAddr,
    attempted: DatabaseState,
    now: u64,
    post: DatabaseState,
    r: Result<(), CommunicationError>,
)
    requires
        pre.wf(),
        state::new_out_connection_attempt(pre, ip, attempted, Ok(())),
        state::out_connection_attempt_failed(attempted, ip, Ok(now), post, r),
    ensures
        r == Ok::<(), CommunicationError>(()),
        post.active_out_connection_attempts == pre.active_out_connection_attempts,
        post.active_out_connections == pre.active_out_connections,
        post.active_in_connections == pre.active_in_connections,
        ({
            let failed = PeerInfo { last_failure_millis: Some(now), ..pre.peers[ip] };
            pre.with_peer(failed).dumping().settles_to(failed, post)
        }),
{
    lemma_counted(pre, ip);
    let failed = PeerInfo { last_failure_millis: Some(now), ..pre.peers[ip] };
    assert(attempted.peers[ip].active_out_connection_attempts
        == pre.peers[ip].active_out_connection_attempts + 1);
    assert(attempted.peers.insert(ip, failed) =~= pre.peers.insert(ip, failed));
}

/// An attempt to a peer that is not banned succeeds if it is made, and closing the connection
/// brings the counts back to what they were.
pub proof fn law_attempt_then_success_then_close(
    pre: DatabaseState,
    ip: IpAddr,
    attempted: DatabaseState,
    now: Result<u64, CommunicationError>,
    connected: DatabaseState,
    answer: Result<bool, CommunicationError>,
    post: DatabaseState,
    r: Result<(), CommunicationError>,
)
    requires
        pre.wf(),
        state::new_out_connection_attempt(pre, ip, attempted, Ok(())),
        !pre.peers[ip].banned,
        state::try_out_connection_attempt_success(attempted, ip, now, connected, answer),
        state::out_connection_closed(connected, ip, post, r),
    ensures
        answer == Ok::<bool, CommunicationError>(true),
        r == Ok::<(), CommunicationError>(()),
        post.active_out_connection_attempts == pre.active_out_connection_attempts,
        post.active_out_connections == pre.active_out_connections,
        post.active_in_connections == pre.active_in_connections,
        post.peers.contains_key(ip) ==> post.peers[ip] == (PeerInfo {
            advertised: true,
            ..pre.peers[ip]
        }),
{
    lemma_counted(pre, ip);
    let peer = pre.peers[ip];
    assert(attempted.peers[ip].active_out_connection_attempts
        == peer.active_out_connection_attempts + 1);
    assert(connected.peers[ip].active_out_connections == peer.active_out_connections + 1);
    let closed = PeerInfo { advertised: true, ..peer };
    assert(closed == (PeerInfo {
        active_out_connections: (connected.peers[ip].active_out_connections - 1) as usize,
        ..connected.peers[ip]
    }));
    if closed.spec_class() != PeerClass::Kept {
        let before = connected.peers.insert(ip, closed);
        let pool = cleanup_pool(connected.cfg, before, announced(connected.cfg, None));
        assert(post.peers.contains_key(ip) ==> pool.contains_key(ip));
    }
}

/// Closing an incoming connection brings the counts back to what they were before it was
/// accepted.
pub proof fn law_in_connection_then_close(
    pre: DatabaseState,
    ip: IpAddr,
    now: Result<u64, CommunicationError>,
    connected: DatabaseState,
    post: DatabaseState,
    r: Result<(), CommunicationError>,
)
    requires
        pre.wf(),
        state::try_new_in_connection(pre, ip, now, connected, Ok(true)),
        state::in_connection_closed(connected, ip, post, r),
    ensures
        r == Ok::<(), CommunicationError>(()),
        post.active_out_connection_attempts == pre.active_out_connection_attempts,
        post.active_out_connections == pre.active_out_connections,
        post.active_in_connections == pre.active_in_connections,
        pre.peers.contains_key(ip) && post.peers.contains_key(ip) ==> post.peers[ip]
            == pre.peers[ip],
        !pre.peers.contains_key(ip) ==> !post.peers.contains_key(ip),
{
    if pre.peers.contains_key(ip) {
        lemma_counted(pre, ip);
    }
    let peer = if pre.peers.contains_key(ip) {
        pre.peers[ip]
    } else {
        PeerInfo::spec_unknown(ip, false)
    };
    assert(connected.peers[ip].active_in_connections == peer.active_in_connections + 1);
    assert(peer == (PeerInfo {
        active_in_connections: (connected.peers[ip].active_in_connections - 1) as usize,
        ..connected.peers[ip]
    }));
    if peer.spec_class() != PeerClass::Kept {
        let before = connected.peers.insert(ip, peer);
        let pool = cleanup_pool(connected.cfg, before, announced(connected.cfg, None));
        assert(post.peers.contains_key(ip) ==> pool.contains_key(ip));
        if peer.spec_class() == PeerClass::Dropped {
            assert(!members(post.peers, PeerFilter::Class(PeerClass::Dropped)).contains(ip));
        }
    }
}

/// All candidates can be tried, one after the other.
pub proof fn law_candidates_can_be_tried(
    state: DatabaseState,
    now: Result<u64, CommunicationError>,
    ips: Seq<IpAddr>,
    states: Seq<DatabaseState>,
    results: Seq<Result<(), CommunicationError>>,
    n: int,
)
    requires
        state.wf(),
        state::out_connection_candidates(state, now, Ok(ips)),
        results.len() == ips.len(),
        states.len() == ips.len() + 1,
        states[0] == state,
        forall|i: int|
            0 <= i < ips.len() ==> state::new_out_connection_attempt(
                states[i],
                #[trigger] ips[i],
                states[i + 1],
                results[i],
            ),
        0 <= n <= ips.len(),
    ensures
        forall|i: int|
            0 <= i < n ==> #[trigger] results[i] == Ok::<(), CommunicationError>(()),
        states[n].available_out_connection_attempts() == state.available_out_connection_attempts()
            - n,
        states[n].peers.dom() == state.peers.dom(),
    decreases n,
{
    if n > 0 {
        law_candidates_can_be_tried(state, now, ips, states, results, n - 1);
        let ip = ips[n - 1];
        assert(state::new_out_connection_attempt(states[n - 1], ip, states[n], results[n - 1]));
        assert(state.peers.contains_key(ip)) by {
            let filter = PeerFilter::Connectable {
                now: now->Ok_0,
                wakeup_interval: state.wakeup_interval_millis,
            };
            assert(members(state.peers, filter).contains(ips[n - 1]));
        }
        assert(states[n - 1].peers.contains_key(ip));
        lemma_attempts_wf(state, now, ips, states, results, n - 1);
        assert(states[n].peers.dom() =~= state.peers.dom());
    }
}

/// Attempts keep what holds of every database.
proof fn lemma_attempts_wf(
    state: DatabaseState,
    now: Result<u64, CommunicationError>,
    ips: Seq<IpAddr>,
    states: Seq<DatabaseState>,
    results: Seq<Result<(), CommunicationError>>,
    n: int,
)
    requires
        state.wf(),
        results.len() == ips.len(),
        states.len() == ips.len() + 1,
        states[0] == state,
        forall|i: int|
            0 <= i < ips.len() ==> state::new_out_connection_attempt(
                states[i],
                #[trigger] ips[i],
                states[i + 1],
                results[i],
            ),
        0 <= n <= ips.len(),
    ensures
        states[n].wf(),
    decreases n,
{
    if n > 0 {
        lemma_attempts_wf(state, now, ips, states, results, n - 1);
        lemma_new_out_connection_attempt(
            states[n - 1],
            ips[n - 1],
            states[n],
            results[n - 1],
        );
    }
}

/// A banned peer is neither tried nor told to others.
pub proof fn law_banned_not_offered(
    state: DatabaseState,
    ip: IpAddr,
    now: Result<u64, CommunicationError>,
    candidates: Seq<IpAddr>,
    told: Seq<IpAddr>,
)
    requires
        state.wf(),
        state.peers.contains_key(ip),
        state.peers[ip].banned,
        state::out_connection_candidates(state, now, Ok(candidates)),
        state::advertisable(state, told),
    ensures
        !candidates.contains(ip),
        !told.contains(ip),
{
    if candidates.contains(ip) {
        let i = choose|i: int| 0 <= i < candidates.len() && candidates[i] == ip;
        let filter = PeerFilter::Connectable {
            now: now->Ok_0,
            wakeup_interval: state.wakeup_interval_millis,
        };
        assert(members(state.peers, filter).contains(candidates[i]));
    }
    if told.contains(ip) {
        let i = choose|i: int| 0 <= i < told.len() && told[i] == ip;
        if state.cfg.routable_ip is Some {
            assert(state.cfg.spec_admits(ip));
            assert(i > 0);
            assert(told.skip(1)[i - 1] == ip);
            assert(members(state.peers, PeerFilter::Advertisable).contains(told.skip(1)[i - 1]));
        } else {
            assert(members(state.peers, PeerFilter::Advertisable).contains(told[i]));
        }
    }
}

/// A peer that was banned stays banned as long as it is known.
pub proof fn law_ban_lasts(
    pre: DatabaseState,
    op: Operation,
    post: DatabaseState,
    r: Result<(), CommunicationError>,
    ip: IpAddr,
)
    requires
        pre.wf(),
        pre.peers.contains_key(ip),
        pre.peers[ip].banned,
        step(pre, op, post, r),
        post.peers.contains_key(ip),
    ensures
        post.peers[ip].banned,
{
    assert forall|before: Map<IpAddr, PeerInfo>, new_peers: Option<Seq<IpAddr>>|
        before.contains_key(ip) && before[ip].banned && #[trigger] cleaned(
            pre.cfg,
            before,
            new_peers,
            post.peers,
        ) implies post.peers[ip].banned by {
        let pool = cleanup_pool(pre.cfg, before, announced(pre.cfg, new_peers));
        assert(pool.contains_key(ip));
    }
}

/// A peer that has just been banned is banned, unless the cleanup drops it.
pub proof fn law_ban_takes_effect(
    pre: DatabaseState,
    ip: IpAddr,
    now: Result<u64, CommunicationError>,
    post: DatabaseState,
)
    requires
        pre.wf(),
        state::peer_banned(pre, ip, now, post, Ok(())),
        post.peers.contains_key(ip),
    ensures
        post.peers[ip].banned,
{
    if !pre.peers[ip].spec_is_active() {
        let banned = PeerInfo {
            last_failure_millis: Some(now->Ok_0),
            banned: true,
            ..pre.peers[ip]
        };
        let next = pre.with_peer(banned);
        let pool = cleanup_pool(pre.cfg, next.peers, announced(pre.cfg, None));
        assert(pool.contains_key(ip));
    }
}

/// Banning a peer that is active, bootstrap or banned already changes nothing but that peer, if
/// there is nothing to clean up.
pub proof fn law_ban_of_kept_or_banned(
    pre: DatabaseState,
    ip: IpAddr,
    now: u64,
    post: DatabaseState,
    r: Result<(), CommunicationError>,
)
    requires
        pre.wf(),
        pre.is_clean(),
        pre.peers.contains_key(ip),
        pre.peers[ip].spec_is_active() || pre.peers[ip].bootstrap || pre.peers[ip].banned,
        state::peer_banned(pre, ip, Ok(now), post, r),
    ensures
        post == pre.with_peer(
            PeerInfo { last_failure_millis: Some(now), banned: true, ..pre.peers[ip] },
        ).dumping(),
{
    let banned = PeerInfo { last_failure_millis: Some(now), banned: true, ..pre.peers[ip] };
    let next = pre.with_peer(banned).dumping();
    lemma_counted(pre, ip);
    if !banned.spec_is_active() {
        lemma_put(pre, banned, next);
        law_cleanup_of_clean(pre.cfg, next.peers, post.peers);
    }
}

/// What is told to others is no more than the configuration allows, no address of it occurs twice,
/// and our own address, if there is one and room for it, comes first.
pub proof fn law_told_within_limit(state: DatabaseState, told: Seq<IpAddr>)
    requires
        state.wf(),
        state::advertisable(state, told),
    ensures
        told.len() <= state.cfg.max_advertise_length,
        told.no_duplicates(),
        state.cfg.routable_ip is Some && state.cfg.max_advertise_length > 0 ==> told.len() > 0
            && told[0] == state.cfg.routable_ip->0,
{
    if state.cfg.routable_ip is Some && told.len() > 0 {
        let others = told.skip(1);
        assert forall|i: int| 0 < i < told.len() implies #[trigger] told[i] != told[0] by {
            assert(told[i] == others[i - 1]);
            assert(members(state.peers, PeerFilter::Advertisable).contains(others[i - 1]));
            assert(state.cfg.spec_admits(told[i]));
        }
        assert forall|i: int, j: int|
            0 <= i < told.len() && 0 <= j < told.len() && i != j implies told[i] != told[j] by {
            if i > 0 && j > 0 {
                assert(others[i - 1] != others[j - 1]);
            }
        }
    }
}

/// What is loaded from the records that were saved is what was saved, cleaned up: every peer there
/// is one that was saved, without its connections, and every bootstrap peer is there.
pub proof fn law_reload(
    before: DatabaseState,
    saved: Seq<PeerInfo>,
    wakeup_millis: u128,
    after: DatabaseState,
)
    requires
        before.wf(),
        enumerates(saved, before.peers, PeerFilter::Saved),
        loaded(before.cfg, wakeup_millis, saved, after),
    ensures
        cleaned(before.cfg, saved_peers(before.peers), None, after.peers),
        after.peers.submap_of(saved_peers(before.peers)),
        forall|ip: IpAddr| #[trigger]
            before.peers.contains_key(ip) && before.peers[ip].bootstrap
                ==> after.peers.contains_key(ip),
{
    let records = restored(saved);
    let cfg = before.cfg;
    lemma_restored_saved(before.peers, saved);
    let pool = cleanup_pool(cfg, by_ip(records), announced(cfg, None));
    assert forall|ip: IpAddr| #[trigger] after.peers.contains_key(ip) implies saved_peers(
        before.peers,
    ).contains_key(ip) && saved_peers(before.peers)[ip] == after.peers[ip] by {
        assert(pool.contains_key(ip));
    }
    assert forall|ip: IpAddr| #[trigger]
        before.peers.contains_key(ip)
            && before.peers[ip].bootstrap implies after.peers.contains_key(ip) by {
        assert(saved_peers(before.peers).contains_key(ip));
        assert(by_ip(records).contains_key(ip));
        assert(pool.contains_key(ip));
        assert(members(pool, PeerFilter::Class(PeerClass::Kept)).contains(ip));
    }
}

/// If there are no connections and there is nothing to clean up, what is loaded from the records
/// that were saved is what was there.
pub proof fn law_reload_of_idle(
    before: DatabaseState,
    saved: Seq<PeerInfo>,
    wakeup_millis: u128,
    after: DatabaseState,
)
    requires
        before.wf(),
        before.is_clean(),
        before.active_out_connection_attempts == 0,
        before.active_out_connections == 0,
        before.active_in_connections == 0,
        enumerates(saved, before.peers, PeerFilter::Saved),
        loaded(before.cfg, wakeup_millis, saved, after),
    ensures
        after.peers == before.peers,
{
    lemma_restored_saved(before.peers, saved);
    assert forall|ip: IpAddr| #[trigger] before.peers.contains_key(ip) implies members(
        before.peers,
        PeerFilter::Saved,
    ).contains(ip) && before.peers[ip].spec_restored() == before.peers[ip] by {
        lemma_counted(before, ip);
    }
    assert(saved_peers(before.peers) =~= before.peers);
    law_cleanup_of_clean(before.cfg, before.peers, after.peers);
}

/// The saved records, without connections, are what would be saved.
proof fn lemma_restored_saved(peers: Map<IpAddr, PeerInfo>, saved: Seq<PeerInfo>)
    requires
        enumerates(saved, peers, PeerFilter::Saved),
    ensures
        by_ip(restored(saved)) == saved_peers(peers),
{
    let records = restored(saved);
    let expected = saved_peers(peers);
    assert forall|i: int| 0 <= i < records.len() implies expected.contains_key(
        (#[trigger] records[i]).ip,
    ) && expected[records[i].ip] == records[i] by {
        assert(members(peers, PeerFilter::Saved).contains(saved[i].ip));
        assert(peers[saved[i].ip] == saved[i]);
    }
    assert(distinct_ips(records)) by {
        assert forall|i: int, j: int| 0 <= i < j < records.len() implies (#[trigger] records[i]).ip
            != (#[trigger] records[j]).ip by {
            assert(saved[i].ip != saved[j].ip);
        }
    }
    assert forall|ip: IpAddr| #[trigger] expected.contains_key(ip) implies records.contains(
        expected[ip],
    ) && expected[ip].ip == ip by {
        assert(members(peers, PeerFilter::Saved).contains(ip));
        let i = choose|i: int| 0 <= i < saved.len() && saved[i] == peers[ip];
        assert(records[i] == expected[ip]);
    }
    lemma_lists(records, expected);
}

} // verus!
