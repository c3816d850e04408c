use vstd::prelude::*;

use crate::clock::whole_millis;
use crate::config::NetworkConfig;
use crate::ip::IpAddr;
use crate::laws::cleanups::{
    law_cleanup_changes_no_peer, law_cleanup_drops_banned_only_over_the_limit,
    law_cleanup_drops_idle_only_over_the_limit, law_cleanup_keeps_bootstrap_and_active,
    law_cleanup_makes_up_no_peer,
};
use crate::laws::lists::{
    law_last_record_counts, law_saved_records, law_table_holds_last_records, law_timestamps,
};
use crate::peer_info::PeerInfo;
use crate::peer_table::{by_ip, lemma_by_ip};
use crate::saver::{dumps, saver_step, DumpCause, SaverAction, SaverEvent, SaverState};
use crate::selection::PeerFilter;
use crate::state::{loaded, restored, started, stopped, DatabaseState};

verus! {

/// A database that is loaded has no connections, no attempts and no dump to make. Failed peers are
/// left alone for the given time.
pub proof fn law_loaded_without_connections(
    cfg: NetworkConfig,
    wakeup_millis: u128,
    rounds: u64,
    rest: u64,
    saved: Seq<PeerInfo>,
    post: DatabaseState,
)
    requires
        loaded(cfg, wakeup_millis, saved, post),
        wakeup_millis == rounds * 0x1_0000_0000_0000_0000 + rest,
    ensures
        post.cfg == cfg,
        post.active_out_connection_attempts == 0,
        post.active_out_connections == 0,
        post.active_in_connections == 0,
        post.wakeup_interval_millis == rest,
        !post.dump_requested,
{
    law_timestamps(wakeup_millis, rounds, rest);
}

/// A new database is loaded from the saved records, and the wakeup interval is that of the
/// configuration, in whole milliseconds.
pub proof fn law_started(cfg: NetworkConfig, saved: Seq<PeerInfo>, post: DatabaseState)
    requires
        started(cfg, saved, post),
    ensures
        loaded(cfg, whole_millis(cfg.wakeup_interval), saved, post),
        whole_millis(cfg.wakeup_interval) <= u64::MAX ==> post.wakeup_interval_millis
            == whole_millis(cfg.wakeup_interval),
{
    let millis = whole_millis(cfg.wakeup_interval);
    if millis <= u64::MAX {
        law_timestamps(millis, 0, millis as u64);
    }
}

/// What is left for the last dump are the banned, the advertised and the bootstrap peers, each of
/// them once and as it is.
pub proof fn law_stopped(state: DatabaseState, records: Seq<PeerInfo>, record: PeerInfo)
    requires
        state.wf(),
        stopped(state, records),
    ensures
        records.contains(record) <==> state.peers.contains_key(record.ip) && state.peers[record.ip]
            == record && (record.banned || record.advertised || record.bootstrap),
        forall|i: int, j: int|
            0 <= i < j < records.len() ==> (#[trigger] records[i]).ip != (
            #[trigger] records[j]).ip,
{
    law_saved_records(records, state.peers);
}

/// Every peer of a database that is loaded is as the last record for its address says, without
/// connections. Its address is globally reachable and not our own, and it is bootstrap, banned or
/// advertised.
pub proof fn law_loaded_peers_are_those_saved(
    cfg: NetworkConfig,
    wakeup_millis: u128,
    saved: Seq<PeerInfo>,
    post: DatabaseState,
    ip: IpAddr,
) -> (i: int)
    requires
        loaded(cfg, wakeup_millis, saved, post),
        post.peers.contains_key(ip),
    ensures
        0 <= i < saved.len(),
        saved[i].ip == ip,
        forall|j: int| i < j < saved.len() ==> (#[trigger] saved[j]).ip != ip,
        post.peers[ip].ip == ip,
        post.peers[ip].banned == saved[i].banned,
        post.peers[ip].bootstrap == saved[i].bootstrap,
        post.peers[ip].last_alive_millis == saved[i].last_alive_millis,
        post.peers[ip].last_failure_millis == saved[i].last_failure_millis,
        post.peers[ip].advertised == saved[i].advertised,
        post.peers[ip].active_out_connection_attempts == 0,
        post.peers[ip].active_out_connections == 0,
        post.peers[ip].active_in_connections == 0,
        ip.global,
        cfg.routable_ip != Some(ip),
        saved[i].bootstrap || saved[i].banned || saved[i].advertised,
{
    let records = restored(saved);
    let before = by_ip(records);
    law_cleanup_makes_up_no_peer(cfg, before, None, post.peers, ip);
    law_cleanup_changes_no_peer(cfg, before, None, post.peers, ip);
    let i = law_table_holds_last_records(records, ip);
    assert forall|j: int| i < j < saved.len() implies (#[trigger] saved[j]).ip != ip by {
        assert(records[j].ip != ip);
    }
    i
}

/// A record that is the last for its address is loaded, if the address is globally reachable and
/// not our own, and if the record is that of a bootstrap peer, or of a banned or advertised one
/// that there is room for.
pub proof fn law_saved_peers_are_loaded(
    cfg: NetworkConfig,
    wakeup_millis: u128,
    saved: Seq<PeerInfo>,
    post: DatabaseState,
    i: int,
)
    requires
        loaded(cfg, wakeup_millis, saved, post),
        0 <= i < saved.len(),
        forall|j: int| i < j < saved.len() ==> (#[trigger] saved[j]).ip != saved[i].ip,
        saved[i].ip.global,
        cfg.routable_ip != Some(saved[i].ip),
        !post.peers.contains_key(saved[i].ip),
    ensures
        !saved[i].bootstrap,
        saved[i].banned ==> post.peers.dom().filter(
            |ip: IpAddr|
                !post.peers[ip].bootstrap && post.peers[ip].active_out_connection_attempts == 0
                    && post.peers[ip].active_out_connections == 0
                    && post.peers[ip].active_in_connections == 0 && post.peers[ip].banned,
        ).len() == cfg.max_banned_peers,
        !saved[i].banned && saved[i].advertised ==> post.peers.dom().filter(
            |ip: IpAddr|
                !post.peers[ip].bootstrap && post.peers[ip].active_out_connection_attempts == 0
                    && post.peers[ip].active_out_connections == 0
                    && post.peers[ip].active_in_connections == 0 && !post.peers[ip].banned,
        ).len() == cfg.max_idle_peers,
        forall|a: IpAddr| #[trigger]
            post.peers.contains_key(a) && !post.peers[a].bootstrap && post.peers[a].banned
                && saved[i].banned && saved[i].last_failure_millis is Some
                ==> post.peers[a].last_failure_millis is Some && saved[i].last_failure_millis->0
                <= post.peers[a].last_failure_millis->0,
        forall|a: IpAddr| #[trigger]
            post.peers.contains_key(a) && !post.peers[a].bootstrap && !post.peers[a].banned
                && !saved[i].banned && saved[i].advertised && saved[i].last_alive_millis is Some
                ==> post.peers[a].last_alive_millis is Some && saved[i].last_alive_millis->0
                <= post.peers[a].last_alive_millis->0,
{
    let records = restored(saved);
    let before = by_ip(records);
    let ip = saved[i].ip;
    lemma_by_ip(records);
    assert forall|j: int| i < j < records.len() implies (#[trigger] records[j]).ip
        != records[i].ip by {
        assert(saved[j].ip != saved[i].ip);
    }
    law_last_record_counts(records, i);
    assert(before[ip] == saved[i].spec_restored());
    if saved[i].bootstrap {
        law_cleanup_keeps_bootstrap_and_active(cfg, before, None, post.peers, ip);
    }
    assert forall|a: IpAddr| #[trigger] post.peers.contains_key(
        a,
    ) implies post.peers[a].active_out_connection_attempts == 0
        && post.peers[a].active_out_connections == 0 && post.peers[a].active_in_connections
        == 0 by {
        let k = law_loaded_peers_are_those_saved(cfg, wakeup_millis, saved, post, a);
    }
    if saved[i].banned {
        law_cleanup_drops_banned_only_over_the_limit(cfg, before, None, post.peers, ip);
    } else if saved[i].advertised {
        law_cleanup_drops_idle_only_over_the_limit(
            cfg,
            before,
            None,
            post.peers,
            ip,
            saved[i].last_alive_millis,
            saved[i].last_failure_millis,
        );
    }
}

/// What is asked to be written are the records of banned, advertised and bootstrap peers, each as
/// it is, and all of them.
pub proof fn law_dumped_records(action: SaverAction, peers: Seq<PeerInfo>, record: PeerInfo)
    requires
        dumps(action, peers),
    ensures
        action is Dump,
        action->Dump_0@.len() <= peers.len(),
        action->Dump_0@.contains(record) <==> peers.contains(record) && (record.banned
            || record.advertised || record.bootstrap),
{
    let p = PeerFilter::Saved.predicate();
    broadcast use {Seq::lemma_filter_len, Seq::lemma_filter_pred, Seq::lemma_filter_contains};

    let written = peers.filter(p);
    lemma_filter_members(peers, p);
    if written.contains(record) {
        let i = choose|i: int| 0 <= i < written.len() && written[i] == record;
        assert(p(written[i]));
    }
    if peers.contains(record) && (record.banned || record.advertised || record.bootstrap) {
        let i = choose|i: int| 0 <= i < peers.len() && peers[i] == record;
        assert(p(peers[i]));
        assert(written.contains(peers[i]));
    }
}

/// What is left by a filter was there before.
proof fn lemma_filter_members(s: Seq<PeerInfo>, p: spec_fn(PeerInfo) -> bool)
    ensures
        forall|x: PeerInfo| #[trigger] s.filter(p).contains(x) ==> s.contains(x),
    decreases s.len(),
{
    reveal(Seq::filter);
    if s.len() > 0 {
        let init = s.drop_last();
        lemma_filter_members(init, p);
        assert forall|x: PeerInfo| #[trigger] s.filter(p).contains(x) implies s.contains(x) by {
            let i = choose|i: int| 0 <= i < s.filter(p).len() && s.filter(p)[i] == x;
            if i < init.filter(p).len() {
                assert(init.filter(p)[i] == x);
                assert(init.filter(p).contains(x));
                let k = choose|k: int| 0 <= k < init.len() && init[k] == x;
                assert(s[k] == x);
            } else {
                assert(s[s.len() - 1] == x);
            }
        }
    }
}

/// The saver can always go on: after a dump it is told how the dump went, and otherwise whatever
/// happens next.
pub proof fn law_saver_goes_on(
    pre: SaverState,
    event: SaverEvent,
    post: SaverState,
    action: SaverAction,
    next: SaverEvent,
)
    requires
        pre.accepts(event),
        saver_step(pre, event, post, action),
        action is Dump ==> next is Dumped,
        !(action is Dump) ==> next is Changed || next is DelayElapsed || next is Closed,
    ensures
        post.accepts(next),
{
}

/// When the saver writes: what has changed is written at once if the delay is over, and kept until
/// then if it is not. When the delay is over, what is pending is written, and nothing if nothing
/// is. A dump that succeeds leaves nothing pending, one that fails leaves pending what was. The
/// delay starts anew after a dump for a change, whether it succeeded or not, and only then. The
/// saver stops when there are no more changes, and only then.
pub proof fn law_when_the_saver_writes(
    pre: SaverState,
    event: SaverEvent,
    post: SaverState,
    action: SaverAction,
)
    requires
        pre.accepts(event),
        saver_step(pre, event, post, action),
    ensures
        action is Dump <==> (event is Changed && event->delay_elapsed) || (event is DelayElapsed
            && pre.pending is Some),
        action is Stop <==> event is Closed,
        action is RestartDelay <==> event is Dumped && pre.dumping == Some(DumpCause::Change),
        event is Changed ==> post.pending == Some(event->peers@),
        event is DelayElapsed || event is Closed ==> post.pending == pre.pending,
        event is Dumped && event->succeeded ==> post.pending is None,
        event is Dumped && !event->succeeded ==> post.pending == pre.pending,
        event is Changed && event->delay_elapsed ==> post.dumping == Some(DumpCause::Change)
            && dumps(action, event->peers@),
        event is DelayElapsed && pre.pending is Some ==> post.dumping == Some(DumpCause::Delay)
            && dumps(action, pre.pending->0),
        !(action is Dump) ==> post.dumping is None,
{
}

} // verus!
