use vstd::prelude::*;

use crate::announcement::announced;
use crate::cleanup::{cleaned, cleanup_pool, law_cleanup_cleans, marked};
use crate::config::NetworkConfig;
use crate::error::CommunicationError;
use crate::ip::IpAddr;
use crate::peer_info::{PeerClass, PeerInfo};
use crate::peer_table::{by_ip, lemma_by_ip};
use crate::selection::{members, PeerFilter};
use crate::state;
use crate::state::{loaded, restored, DatabaseState};
use crate::totals::{
    lemma_total_agree, lemma_total_insert, lemma_total_zero, total, ConnectionKind,
};

verus! {

/// Putting in a peer that is not of a limited class, or of the class that it was, adds nothing to
/// that class.
proof fn lemma_fewer_members(peers: Map<IpAddr, PeerInfo>, peer: PeerInfo, class: PeerClass)
    requires
        peers.dom().finite(),
        peer.spec_class() == class ==> peers.contains_key(peer.ip) && peers[peer.ip].spec_class()
            == class,
    ensures
        members(peers.insert(peer.ip, peer), PeerFilter::Class(class)).len() <= members(
            peers,
            PeerFilter::Class(class),
        ).len(),
{
    let filter = PeerFilter::Class(class);
    let after = peers.insert(peer.ip, peer);
    peers.dom().lemma_len_filter(|ip: IpAddr| filter.spec_accepts(peers[ip]));
    assert(members(after, filter).subset_of(members(peers, filter))) by {
        assert forall|ip: IpAddr| members(after, filter).contains(ip) implies members(
            peers,
            filter,
        ).contains(ip) by {
            if ip != peer.ip {
                assert(peers.contains_key(ip));
            }
        }
    }
    vstd::set_lib::lemma_len_subset(members(after, filter), members(peers, filter));
}

/// What holds of every database holds after a peer is put in, if the counts change with it and
/// stay within the limits. There is still nothing to clean up, if the peer is active or bootstrap,
/// or of the class that it was.
pub proof fn lemma_put(pre: DatabaseState, peer: PeerInfo, post: DatabaseState)
    requires
        pre.wf(),
        pre.cfg.spec_admits(peer.ip),
        post.cfg == pre.cfg,
        post.peers == pre.peers.insert(peer.ip, peer),
        forall|kind: ConnectionKind| #[trigger]
            post.counted(kind) == pre.counted(kind) - kind.count_at(pre.peers, peer.ip)
                + kind.count(peer),
        post.active_out_connection_attempts + post.active_out_connections
            <= post.cfg.target_out_connections,
        post.active_out_connection_attempts <= post.cfg.max_out_connnection_attempts,
        post.active_in_connections <= post.cfg.max_in_connections,
        peer.active_in_connections <= post.cfg.max_in_connections_per_ip,
    ensures
        post.wf(),
        pre.is_clean() && (peer.spec_class() == PeerClass::Kept || (pre.peers.contains_key(peer.ip)
            && peer.spec_class() == pre.peers[peer.ip].spec_class())) ==> post.is_clean(),
{
    if pre.is_clean() && (peer.spec_class() == PeerClass::Kept || (pre.peers.contains_key(peer.ip)
        && peer.spec_class() == pre.peers[peer.ip].spec_class())) {
        lemma_fewer_members(pre.peers, peer, PeerClass::Banned);
        lemma_fewer_members(pre.peers, peer, PeerClass::Idle);
    }
    assert forall|kind: ConnectionKind| #[trigger] post.counted(kind) == total(
        post.peers,
        kind,
    ) by {
        assert(pre.counted(kind) == total(pre.peers, kind));
        lemma_total_insert(pre.peers, kind, peer.ip, peer);
    }
}

/// No peer has more connections of a kind than are counted.
pub proof fn lemma_counted(state: DatabaseState, ip: IpAddr)
    requires
        state.wf(),
        state.peers.contains_key(ip),
    ensures
        state.peers[ip].ip == ip,
        state.cfg.spec_admits(ip),
        state.peers[ip].active_out_connection_attempts <= state.active_out_connection_attempts,
        state.peers[ip].active_out_connections <= state.active_out_connections,
        state.peers[ip].active_in_connections <= state.active_in_connections,
{
    assert forall|kind: ConnectionKind| kind.count(state.peers[ip]) <= #[trigger] state.counted(
        kind,
    ) by {
        lemma_total_insert(state.peers, kind, ip, state.peers[ip]);
    }
    assert(ConnectionKind::OutAttempt.count(state.peers[ip]) <= state.counted(
        ConnectionKind::OutAttempt,
    ));
    assert(ConnectionKind::Out.count(state.peers[ip]) <= state.counted(ConnectionKind::Out));
    assert(ConnectionKind::In.count(state.peers[ip]) <= state.counted(ConnectionKind::In));
}

/// A cleanup, with an announcement or without, keeps what holds of every database.
proof fn lemma_cleanup_wf(
    pre: DatabaseState,
    new_peers: Option<Seq<IpAddr>>,
    post: DatabaseState,
)
    requires
        pre.wf(),
        post == (DatabaseState {
            peers: post.peers,
            dump_requested: post.dump_requested,
            ..pre
        }),
        post.peers.dom().finite(),
        cleaned(pre.cfg, pre.peers, new_peers, post.peers),
    ensures
        post.wf(),
{
    let known = announced(pre.cfg, new_peers);
    let pool = cleanup_pool(pre.cfg, pre.peers, known);
    assert forall|ip: IpAddr| #[trigger] post.peers.contains_key(ip) implies {
        &&& post.peers[ip].ip == ip
        &&& post.cfg.spec_admits(ip)
        &&& post.peers[ip].active_in_connections <= post.cfg.max_in_connections_per_ip
    } by {
        assert(pool.contains_key(ip));
        if pre.peers.contains_key(ip) {
            assert(post.peers[ip] == marked(pre.peers[ip], known.contains(ip)));
        }
    }
    assert forall|kind: ConnectionKind| #[trigger] post.counted(kind) == total(
        post.peers,
        kind,
    ) by {
        assert(pre.counted(kind) == total(pre.peers, kind));
        assert forall|ip: IpAddr| #[trigger] kind.count_at(pre.peers, ip) == kind.count_at(
            post.peers,
            ip,
        ) by {
            if post.peers.contains_key(ip) {
                assert(pool.contains_key(ip));
            } else if pre.peers.contains_key(ip) {
                assert(pool.contains_key(ip));
                if pool[ip].spec_is_active() {
                    assert(members(pool, PeerFilter::Class(PeerClass::Kept)).contains(ip));
                }
            }
        }
        lemma_total_agree(pre.peers, post.peers, kind);
    }
}

/// What holds of every database holds of one that was loaded, and there is nothing to clean up.
pub proof fn lemma_loaded(
    cfg: NetworkConfig,
    wakeup_millis: u128,
    saved: Seq<PeerInfo>,
    post: DatabaseState,
)
    requires
        loaded(cfg, wakeup_millis, saved, post),
    ensures
        post.wf(),
        post.is_clean(),
{
    law_cleanup_cleans(cfg, by_ip(restored(saved)), None, post.peers);
    let before = by_ip(restored(saved));
    lemma_by_ip(restored(saved));
    let known = announced(cfg, None);
    let pool = cleanup_pool(cfg, before, known);
    assert forall|ip: IpAddr| #[trigger] post.peers.contains_key(ip) implies {
        &&& post.peers[ip].ip == ip
        &&& cfg.spec_admits(ip)
        &&& !post.peers[ip].spec_is_active()
    } by {
        assert(pool.contains_key(ip));
        assert(before.contains_key(ip));
        let i = choose|i: int| 0 <= i < saved.len() && restored(saved)[i] == before[ip];
        assert(before[ip] == saved[i].spec_restored());
    }
    assert forall|kind: ConnectionKind| #[trigger] post.counted(kind) == total(
        post.peers,
        kind,
    ) by {
        lemma_total_zero(post.peers, kind);
    }
}

/// Requesting a dump, or taking the request, changes nothing else.
pub proof fn lemma_dump_requested(pre: DatabaseState, post: DatabaseState)
    requires
        pre.wf(),
        post == (DatabaseState { dump_requested: post.dump_requested, ..pre }),
    ensures
        post.wf(),
        pre.is_clean() ==> post.is_clean(),
{
    assert forall|kind: ConnectionKind| #[trigger] post.counted(kind) == total(
        post.peers,
        kind,
    ) by {
        assert(pre.counted(kind) == total(pre.peers, kind));
    }
}

/// Settling keeps what holds of every database, and leaves nothing to clean up if there was
/// nothing, or if the peer is neither active nor bootstrap.
proof fn lemma_settles(pre: DatabaseState, peer: PeerInfo, post: DatabaseState)
    requires
        pre.wf(),
        pre.settles_to(peer, post),
    ensures
        post.wf(),
        pre.is_clean() || peer.spec_class() != PeerClass::Kept ==> post.is_clean(),
{
    if peer.spec_class() != PeerClass::Kept {
        lemma_cleanup_wf(pre, None, post);
        law_cleanup_cleans(pre.cfg, pre.peers, None, post.peers);
    }
}

/// `merge_candidate_peers` keeps what holds of every database, and leaves nothing to clean up.
pub proof fn lemma_merge_candidate_peers(
    pre: DatabaseState,
    new_peers: Seq<IpAddr>,
    post: DatabaseState,
    r: Result<(), CommunicationError>,
)
    requires
        pre.wf(),
        state::merge_candidate_peers(pre, new_peers, post, r),
    ensures
        post.wf(),
        pre.is_clean() ==> post.is_clean(),
{
    if new_peers.len() > 0 {
        lemma_cleanup_wf(pre, Some(new_peers), post);
        law_cleanup_cleans(pre.cfg, pre.peers, Some(new_peers), post.peers);
    }
}

/// `new_out_connection_attempt` keeps what holds of every database, and leaves nothing to clean up.
pub proof fn lemma_new_out_connection_attempt(
    pre: DatabaseState,
    ip: IpAddr,
    post: DatabaseState,
    r: Result<(), CommunicationError>,
)
    requires
        pre.wf(),
        state::new_out_connection_attempt(pre, ip, post, r),
    ensures
        post.wf(),
        pre.is_clean() ==> post.is_clean(),
{
    if pre.peers.contains_key(ip) {
        lemma_counted(pre, ip);
    }
    if r is Ok {
        lemma_put(pre, post.peers[ip], post);
    }
}

/// `peer_alive` keeps what holds of every database, and as long as the
/// clock can be read leaves nothing to clean up.
pub proof fn lemma_peer_alive(
    pre: DatabaseState,
    ip: IpAddr,
    now: Result<u64, CommunicationError>,
    post: DatabaseState,
    r: Result<(), CommunicationError>,
)
    requires
        pre.wf(),
        state::peer_alive(pre, ip, now, post, r),
    ensures
        post.wf(),
        pre.is_clean() && !(r is Err && now is Err) ==> post.is_clean(),
{
    if pre.peers.contains_key(ip) {
        lemma_counted(pre, ip);
    }
    if r is Ok {
        lemma_put(pre, post.peers[ip], post);
    }
}

/// `peer_failed` keeps what holds of every database, and as long as the
/// clock can be read leaves nothing to clean up.
pub proof fn lemma_peer_failed(
    pre: DatabaseState,
    ip: IpAddr,
    now: Result<u64, CommunicationError>,
    post: DatabaseState,
    r: Result<(), CommunicationError>,
)
    requires
        pre.wf(),
        state::peer_failed(pre, ip, now, post, r),
    ensures
        post.wf(),
        pre.is_clean() && !(r is Err && now is Err) ==> post.is_clean(),
{
    if pre.peers.contains_key(ip) {
        lemma_counted(pre, ip);
    }
    if r is Ok {
        lemma_put(pre, post.peers[ip], post);
    }
}

/// `peer_banned` keeps what holds of every database, and as long as the
/// clock can be read leaves nothing to clean up.
pub proof fn lemma_peer_banned(
    pre: DatabaseState,
    ip: IpAddr,
    now: Result<u64, CommunicationError>,
    post: DatabaseState,
    r: Result<(), CommunicationError>,
)
    requires
        pre.wf(),
        state::peer_banned(pre, ip, now, post, r),
    ensures
        post.wf(),
        pre.is_clean() && !(r is Err && now is Err) ==> post.is_clean(),
{
    if pre.peers.contains_key(ip) {
        lemma_counted(pre, ip);
    }
    if r is Ok {
        let banned = PeerInfo {
            last_failure_millis: Some(now->Ok_0),
            banned: true,
            ..pre.peers[ip]
        };
        let next = pre.with_peer(banned).dumping();
        lemma_put(pre, banned, next);
        if !banned.spec_is_active() {
            lemma_cleanup_wf(next, None, post);
            law_cleanup_cleans(next.cfg, next.peers, None, post.peers);
        }
    }
}

/// `out_connection_closed` keeps what holds of every database, and leaves nothing to clean up.
pub proof fn lemma_out_connection_closed(
    pre: DatabaseState,
    ip: IpAddr,
    post: DatabaseState,
    r: Result<(), CommunicationError>,
)
    requires
        pre.wf(),
        state::out_connection_closed(pre, ip, post, r),
    ensures
        post.wf(),
        pre.is_clean() ==> post.is_clean(),
{
    if pre.peers.contains_key(ip) {
        lemma_counted(pre, ip);
    }
    if r is Ok {
        let peer = pre.peers[ip];
        let closed = PeerInfo {
            active_out_connections: (peer.active_out_connections - 1) as usize,
            ..peer
        };
        let next = DatabaseState {
            active_out_connections: (pre.active_out_connections - 1) as nat,
            ..pre.with_peer(closed)
        };
        lemma_put(pre, closed, next);
        if closed.spec_class() != PeerClass::Kept {
            lemma_put(pre, closed, next.dumping());
            lemma_settles(next.dumping(), closed, post);
        }
    }
}

/// `in_connection_closed` keeps what holds of every database, and leaves nothing to clean up.
pub proof fn lemma_in_connection_closed(
    pre: DatabaseState,
    ip: IpAddr,
    post: DatabaseState,
    r: Result<(), CommunicationError>,
)
    requires
        pre.wf(),
        state::in_connection_closed(pre, ip, post, r),
    ensures
        post.wf(),
        pre.is_clean() ==> post.is_clean(),
{
    if pre.peers.contains_key(ip) {
        lemma_counted(pre, ip);
    }
    if r is Ok {
        let peer = pre.peers[ip];
        let closed = PeerInfo {
            active_in_connections: (peer.active_in_connections - 1) as usize,
            ..peer
        };
        let next = DatabaseState {
            active_in_connections: (pre.active_in_connections - 1) as nat,
            ..pre.with_peer(closed)
        };
        lemma_put(pre, closed, next);
        if closed.spec_class() != PeerClass::Kept {
            lemma_put(pre, closed, next.dumping());
            lemma_settles(next.dumping(), closed, post);
        }
    }
}

/// `try_out_connection_attempt_success` keeps what holds of every database, and as long as the
/// clock can be read leaves nothing to clean up.
pub proof fn lemma_try_out_connection_attempt_success(
    pre: DatabaseState,
    ip: IpAddr,
    now: Result<u64, CommunicationError>,
    post: DatabaseState,
    r: Result<bool, CommunicationError>,
)
    requires
        pre.wf(),
        state::try_out_connection_attempt_success(pre, ip, now, post, r),
    ensures
        post.wf(),
        pre.is_clean() && !(r is Err && now is Err) ==> post.is_clean(),
{
    if pre.peers.contains_key(ip) {
        lemma_counted(pre, ip);
    }
    if post != pre {
        let peer = pre.peers[ip];
        if peer.banned && now is Ok {
            let refused = PeerInfo {
                active_out_connection_attempts: (peer.active_out_connection_attempts
                    - 1) as usize,
                advertised: true,
                last_failure_millis: Some(now->Ok_0),
                ..peer
            };
            let next = DatabaseState {
                active_out_connection_attempts: (pre.active_out_connection_attempts - 1) as nat,
                ..pre.with_peer(refused).dumping()
            };
            lemma_put(pre, refused, next);
            lemma_settles(next, refused, post);
        } else {
            lemma_put(pre, post.peers[ip], post);
        }
    }
}

/// `out_connection_attempt_failed` keeps what holds of every database, and as long as the
/// clock can be read leaves nothing to clean up.
pub proof fn lemma_out_connection_attempt_failed(
    pre: DatabaseState,
    ip: IpAddr,
    now: Result<u64, CommunicationError>,
    post: DatabaseState,
    r: Result<(), CommunicationError>,
)
    requires
        pre.wf(),
        state::out_connection_attempt_failed(pre, ip, now, post, r),
    ensures
        post.wf(),
        pre.is_clean() && !(r is Err && now is Err) ==> post.is_clean(),
{
    if pre.peers.contains_key(ip) {
        lemma_counted(pre, ip);
    }
    if post != pre {
        let peer = pre.peers[ip];
        if now is Ok {
            let failed = PeerInfo {
                active_out_connection_attempts: (peer.active_out_connection_attempts
                    - 1) as usize,
                last_failure_millis: Some(now->Ok_0),
                ..peer
            };
            let next = DatabaseState {
                active_out_connection_attempts: (pre.active_out_connection_attempts - 1) as nat,
                ..pre.with_peer(failed).dumping()
            };
            lemma_put(pre, failed, next);
            lemma_settles(next, failed, post);
        } else {
            lemma_put(pre, post.peers[ip], post);
        }
    }
}

/// `try_new_in_connection` keeps what holds of every database, and as long as the
/// clock can be read leaves nothing to clean up.
pub proof fn lemma_try_new_in_connection(
    pre: DatabaseState,
    ip: IpAddr,
    now: Result<u64, CommunicationError>,
    post: DatabaseState,
    r: Result<bool, CommunicationError>,
)
    requires
        pre.wf(),
        state::try_new_in_connection(pre, ip, now, post, r),
    ensures
        post.wf(),
        pre.is_clean() && !(r is Err && now is Err) ==> post.is_clean(),
{
    if pre.peers.contains_key(ip) {
        lemma_counted(pre, ip);
    }
    if post.peers != pre.peers {
        lemma_put(pre, post.peers[ip], post);
    } else if post != pre {
        lemma_dump_requested(pre, post);
    }
}

} // verus!
