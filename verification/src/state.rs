use vstd::prelude::*;

use crate::cleanup::{clean_peers, cleaned};
use crate::clock::{spec_low_bits, whole_millis};
use crate::config::NetworkConfig;
use crate::error::CommunicationError;
use crate::ip::IpAddr;
use crate::order::PeerOrder;
use crate::peer_info::{PeerClass, PeerInfo};
use crate::peer_table::{by_ip, lists, well_keyed};
use crate::selection::{best_first, enumerates, min, PeerFilter};
use crate::totals::{total, ConnectionKind};

verus! {

/// What a peer database holds.
#[verifier::ext_equal]
pub struct DatabaseState {
    pub cfg: NetworkConfig,
    /// The known peers by their address.
    pub peers: Map<IpAddr, PeerInfo>,
    pub active_out_connection_attempts: nat,
    pub active_out_connections: nat,
    pub active_in_connections: nat,
    pub wakeup_interval_millis: u64,
    /// Whether the peers are to be saved.
    pub dump_requested: bool,
}

impl DatabaseState {
    /// How many connections of a kind are counted.
    pub open spec fn counted(self, kind: ConnectionKind) -> nat {
        match kind {
            ConnectionKind::OutAttempt => self.active_out_connection_attempts,
            ConnectionKind::Out => self.active_out_connections,
            ConnectionKind::In => self.active_in_connections,
        }
    }

    /// Whether the counts stay within the limits of the configuration.
    pub open spec fn within_limits(self) -> bool {
        &&& self.active_out_connection_attempts + self.active_out_connections
            <= self.cfg.target_out_connections
        &&& self.active_out_connection_attempts <= self.cfg.max_out_connnection_attempts
        &&& self.active_in_connections <= self.cfg.max_in_connections
        &&& forall|ip: IpAddr| #[trigger]
            self.peers.contains_key(ip) ==> self.peers[ip].active_in_connections
                <= self.cfg.max_in_connections_per_ip
    }

    /// What holds of every database: its peers stand at their addresses and are admitted by the
    /// configuration, the counts are those of all peers together, and they stay within the
    /// limits.
    pub open spec fn wf(self) -> bool {
        &&& well_keyed(self.peers)
        &&& forall|ip: IpAddr| #[trigger]
            self.peers.contains_key(ip) ==> self.cfg.spec_admits(ip)
        &&& forall|kind: ConnectionKind| #[trigger] self.counted(kind) == total(self.peers, kind)
        &&& self.within_limits()
    }

    /// The state with `peer` at its address.
    pub open spec fn with_peer(self, peer: PeerInfo) -> DatabaseState {
        DatabaseState { peers: self.peers.insert(peer.ip, peer), ..self }
    }

    /// The state in which the peers are to be saved.
    pub open spec fn dumping(self) -> DatabaseState {
        DatabaseState { dump_requested: true, ..self }
    }

    /// How many more outgoing connection attempts may be made: as many as there are connections
    /// missing that no attempt is under way for, but no more attempts at once than the
    /// configuration allows.
    pub open spec fn available_out_connection_attempts(self) -> nat {
        let (attempts, connections) = (
            self.active_out_connection_attempts as int,
            self.active_out_connections as int,
        );
        let missing = self.cfg.target_out_connections - attempts - connections;
        let allowed = self.cfg.max_out_connnection_attempts - attempts;
        if missing <= 0 || allowed <= 0 {
            0
        } else {
            min(missing as nat, allowed as nat)
        }
    }

    /// Whether the state is this one after a cleanup.
    pub open spec fn cleans_to(self, after: DatabaseState) -> bool {
        &&& after == DatabaseState { peers: after.peers, ..self }
        &&& after.peers.dom().finite()
        &&& cleaned(self.cfg, self.peers, None, after.peers)
    }

    /// Whether the state is this one after a cleanup, if `peer` is neither active nor bootstrap,
    /// and this one otherwise.
    pub open spec fn settles_to(self, peer: PeerInfo, after: DatabaseState) -> bool {
        if peer.spec_class() == PeerClass::Kept {
            after == self
        } else {
            self.cleans_to(after)
        }
    }

    /// Whether a cleanup has nothing to do.
    pub open spec fn is_clean(self) -> bool {
        clean_peers(self.cfg, self.peers)
    }
}

/// The records as they come back from a file.
pub open spec fn restored(records: Seq<PeerInfo>) -> Seq<PeerInfo> {
    records.map_values(|peer: PeerInfo| peer.spec_restored())
}

/// Whether `post` is the database made from saved records: those, cleaned up, without
/// connections. A failed peer is left alone for `wakeup_millis` milliseconds.
pub open spec fn loaded(
    cfg: NetworkConfig,
    wakeup_millis: u128,
    saved: Seq<PeerInfo>,
    post: DatabaseState,
) -> bool {
    &&& post == DatabaseState {
        cfg,
        peers: post.peers,
        active_out_connection_attempts: 0,
        active_out_connections: 0,
        active_in_connections: 0,
        wakeup_interval_millis: spec_low_bits(wakeup_millis),
        dump_requested: false,
    }
    &&& post.peers.dom().finite()
    &&& cleaned(cfg, by_ip(restored(saved)), None, post.peers)
}

/// What `new` makes of saved records: the wakeup interval is that of the configuration, in whole
/// milliseconds.
pub open spec fn started(cfg: NetworkConfig, saved: Seq<PeerInfo>, post: DatabaseState) -> bool {
    loaded(cfg, whole_millis(cfg.wakeup_interval), saved, post)
}

/// What `stop` returns: the records of the peers that are saved.
pub open spec fn stopped(state: DatabaseState, records: Seq<PeerInfo>) -> bool {
    enumerates(records, state.peers, PeerFilter::Saved)
}

/// What `take_dump_request` does: the peers are returned if they are to be saved, and they are no
/// longer to be.
pub open spec fn take_dump_request(
    pre: DatabaseState,
    post: DatabaseState,
    r: Option<Seq<PeerInfo>>,
) -> bool {
    &&& post == DatabaseState { dump_requested: false, ..pre }
    &&& match r {
        Some(records) => pre.dump_requested && lists(records, pre.peers),
        None => !pre.dump_requested,
    }
}

/// What `get_out_connection_candidate_ips` answers at time `now`: as many peers as may be tried,
/// of those that can be, earliest failure first, then latest sign of life first.
pub open spec fn out_connection_candidates(
    state: DatabaseState,
    now: Result<u64, CommunicationError>,
    r: Result<Seq<IpAddr>, CommunicationError>,
) -> bool {
    let available = state.available_out_connection_attempts();
    if available == 0 {
        r == Ok::<Seq<IpAddr>, CommunicationError>(Seq::empty())
    } else {
        match now {
            Ok(millis) => {
                let filter = PeerFilter::Connectable {
                    now: millis,
                    wakeup_interval: state.wakeup_interval_millis,
                };
                &&& r is Ok
                &&& best_first(state.peers, filter, PeerOrder::EarliestFailure, available, r->Ok_0)
            },
            Err(e) => r == Err::<Seq<IpAddr>, CommunicationError>(e),
        }
    }
}

/// What `get_advertisable_peer_ips` answers: our own address, if there is one, and then the
/// peers that may be told to others, earliest failure first, then latest sign of life first; no
/// more addresses in all than the configuration allows.
pub open spec fn advertisable(state: DatabaseState, ips: Seq<IpAddr>) -> bool {
    let limit = state.cfg.max_advertise_length as nat;
    let filter = PeerFilter::Advertisable;
    let order = PeerOrder::EarliestFailure;
    match state.cfg.routable_ip {
        Some(our_ip) => if limit == 0 {
            ips == Seq::<IpAddr>::empty()
        } else {
            &&& ips.len() > 0
            &&& ips[0] == our_ip
            &&& best_first(state.peers, filter, order, (limit - 1) as nat, ips.skip(1))
        },
        None => best_first(state.peers, filter, order, limit, ips),
    }
}

/// What `new_out_connection_attempt` does.
pub open spec fn new_out_connection_attempt(
    pre: DatabaseState,
    ip: IpAddr,
    post: DatabaseState,
    r: Result<(), CommunicationError>,
) -> bool {
    if !ip.global {
        post == pre && r == Err::<(), _>(CommunicationError::TargetIpIsNotGLobal(ip))
    } else if pre.available_out_connection_attempts() == 0 {
        post == pre && r == Err::<(), _>(CommunicationError::ToManyConnectionAttempt(ip))
    } else if !pre.peers.contains_key(ip) {
        post == pre && r == Err::<(), _>(CommunicationError::PeerInfoNotFoundError(ip))
    } else {
        let peer = pre.peers[ip];
        let attempted = PeerInfo {
            active_out_connection_attempts: (peer.active_out_connection_attempts + 1) as usize,
            ..peer
        };
        &&& post == DatabaseState {
            active_out_connection_attempts: pre.active_out_connection_attempts + 1,
            ..pre.with_peer(attempted)
        }
        &&& r == Ok::<(), CommunicationError>(())
    }
}

/// What `merge_candidate_peers` does.
pub open spec fn merge_candidate_peers(
    pre: DatabaseState,
    new_peers: Seq<IpAddr>,
    post: DatabaseState,
    r: Result<(), CommunicationError>,
) -> bool {
    &&& r == Ok::<(), CommunicationError>(())
    &&& if new_peers.len() == 0 {
        post == pre
    } else {
        &&& post == DatabaseState { peers: post.peers, ..pre.dumping() }
        &&& post.peers.dom().finite()
        &&& cleaned(pre.cfg, pre.peers, Some(new_peers), post.peers)
    }
}

/// What `peer_alive` does at time `now`. The clock is read before the peer is looked up.
pub open spec fn peer_alive(
    pre: DatabaseState,
    ip: IpAddr,
    now: Result<u64, CommunicationError>,
    post: DatabaseState,
    r: Result<(), CommunicationError>,
) -> bool {
    match now {
        Err(e) => post == pre && r == Err::<(), _>(e),
        Ok(millis) => if !pre.peers.contains_key(ip) {
            post == pre && r == Err::<(), _>(CommunicationError::PeerInfoNotFoundError(ip))
        } else {
            let alive = PeerInfo { last_alive_millis: Some(millis), ..pre.peers[ip] };
            post == pre.with_peer(alive).dumping() && r == Ok::<(), CommunicationError>(())
        },
    }
}

/// What `peer_failed` does at time `now`. The clock is read before the peer is looked up.
pub open spec fn peer_failed(
    pre: DatabaseState,
    ip: IpAddr,
    now: Result<u64, CommunicationError>,
    post: DatabaseState,
    r: Result<(), CommunicationError>,
) -> bool {
    match now {
        Err(e) => post == pre && r == Err::<(), _>(e),
        Ok(millis) => if !pre.peers.contains_key(ip) {
            post == pre && r == Err::<(), _>(CommunicationError::PeerInfoNotFoundError(ip))
        } else {
            let failed = PeerInfo { last_failure_millis: Some(millis), ..pre.peers[ip] };
            post == pre.with_peer(failed).dumping() && r == Ok::<(), CommunicationError>(())
        },
    }
}

/// What `peer_banned` does at time `now`. If the peer is not active, the peers are cleaned up.
pub open spec fn peer_banned(
    pre: DatabaseState,
    ip: IpAddr,
    now: Result<u64, CommunicationError>,
    post: DatabaseState,
    r: Result<(), CommunicationError>,
) -> bool {
    if !pre.peers.contains_key(ip) {
        post == pre && r == Err::<(), _>(CommunicationError::PeerInfoNotFoundError(ip))
    } else {
        match now {
            Err(e) => post == pre && r == Err::<(), _>(e),
            Ok(millis) => {
                let banned = PeerInfo {
                    last_failure_millis: Some(millis),
                    banned: true,
                    ..pre.peers[ip]
                };
                let next = pre.with_peer(banned).dumping();
                &&& r == Ok::<(), CommunicationError>(())
                &&& if banned.spec_is_active() {
                    post == next
                } else {
                    next.cleans_to(post)
                }
            },
        }
    }
}

/// What `out_connection_closed` does.
pub open spec fn out_connection_closed(
    pre: DatabaseState,
    ip: IpAddr,
    post: DatabaseState,
    r: Result<(), CommunicationError>,
) -> bool {
    if pre.active_out_connections == 0 {
        post == pre && r == Err::<(), _>(CommunicationError::ToManyActiveConnectionClosed(ip))
    } else if !pre.peers.contains_key(ip) {
        post == pre && r == Err::<(), _>(CommunicationError::PeerInfoNotFoundError(ip))
    } else if pre.peers[ip].active_out_connections == 0 {
        post == pre && r == Err::<(), _>(CommunicationError::ToManyActiveConnectionClosed(ip))
    } else {
        let peer = pre.peers[ip];
        let closed = PeerInfo {
            active_out_connections: (peer.active_out_connections - 1) as usize,
            ..peer
        };
        let next = DatabaseState {
            active_out_connections: (pre.active_out_connections - 1) as nat,
            ..pre.with_peer(closed)
        };
        &&& r == Ok::<(), CommunicationError>(())
        &&& if closed.spec_class() == PeerClass::Kept {
            post == next
        } else {
            next.dumping().cleans_to(post)
        }
    }
}

/// What `in_connection_closed` does.
pub open spec fn in_connection_closed(
    pre: DatabaseState,
    ip: IpAddr,
    post: DatabaseState,
    r: Result<(), CommunicationError>,
) -> bool {
    if pre.active_in_connections == 0 {
        post == pre && r == Err::<(), _>(CommunicationError::ToManyActiveConnectionClosed(ip))
    } else if !pre.peers.contains_key(ip) {
        post == pre && r == Err::<(), _>(CommunicationError::PeerInfoNotFoundError(ip))
    } else if pre.peers[ip].active_in_connections == 0 {
        post == pre && r == Err::<(), _>(CommunicationError::ToManyActiveConnectionClosed(ip))
    } else {
        let peer = pre.peers[ip];
        let closed = PeerInfo {
            active_in_connections: (peer.active_in_connections - 1) as usize,
            ..peer
        };
        let next = DatabaseState {
            active_in_connections: (pre.active_in_connections - 1) as nat,
            ..pre.with_peer(closed)
        };
        &&& r == Ok::<(), CommunicationError>(())
        &&& if closed.spec_class() == PeerClass::Kept {
            post == next
        } else {
            next.dumping().cleans_to(post)
        }
    }
}

/// What `try_out_connection_attempt_success` does at time `now`. If the peer is banned and the
/// clock cannot be read, the attempt is over all the same.
pub open spec fn try_out_connection_attempt_success(
    pre: DatabaseState,
    ip: IpAddr,
    now: Result<u64, CommunicationError>,
    post: DatabaseState,
    r: Result<bool, CommunicationError>,
) -> bool {
    if pre.active_out_connection_attempts == 0 {
        post == pre && r == Err::<bool, _>(CommunicationError::ToManyConnectionAttempt(ip))
    } else if pre.active_out_connections >= pre.cfg.target_out_connections {
        post == pre && r == Ok::<bool, CommunicationError>(false)
    } else if !pre.peers.contains_key(ip) {
        post == pre && r == Err::<bool, _>(CommunicationError::PeerInfoNotFoundError(ip))
    } else if pre.peers[ip].active_out_connection_attempts == 0 {
        post == pre && r == Err::<bool, _>(CommunicationError::ToManyConnectionAttempt(ip))
    } else {
        let peer = pre.peers[ip];
        let reached = PeerInfo {
            active_out_connection_attempts: (peer.active_out_connection_attempts - 1) as usize,
            advertised: true,
            ..peer
        };
        let next = DatabaseState {
            active_out_connection_attempts: (pre.active_out_connection_attempts - 1) as nat,
            ..pre
        };
        if peer.banned {
            match now {
                Err(e) => post == next.with_peer(reached) && r == Err::<bool, _>(e),
                Ok(millis) => {
                    let refused = PeerInfo { last_failure_millis: Some(millis), ..reached };
                    &&& r == Ok::<bool, CommunicationError>(false)
                    &&& next.with_peer(refused).dumping().settles_to(refused, post)
                },
            }
        } else {
            let connected = PeerInfo {
                active_out_connections: (peer.active_out_connections + 1) as usize,
                ..reached
            };
            &&& post == DatabaseState {
                active_out_connections: pre.active_out_connections + 1,
                ..next.with_peer(connected).dumping()
            }
            &&& r == Ok::<bool, CommunicationError>(true)
        }
    }
}

/// What `out_connection_attempt_failed` does at time `now`. If the clock cannot be read, the
/// attempt is over all the same.
pub open spec fn out_connection_attempt_failed(
    pre: DatabaseState,
    ip: IpAddr,
    now: Result<u64, CommunicationError>,
    post: DatabaseState,
    r: Result<(), CommunicationError>,
) -> bool {
    if pre.active_out_connection_attempts == 0 {
        post == pre && r == Err::<(), _>(CommunicationError::ToManyConnectionFailure(ip))
    } else if !pre.peers.contains_key(ip) {
        post == pre && r == Err::<(), _>(CommunicationError::PeerInfoNotFoundError(ip))
    } else if pre.peers[ip].active_out_connection_attempts == 0 {
        post == pre && r == Err::<(), _>(CommunicationError::ToManyConnectionFailure(ip))
    } else {
        let peer = pre.peers[ip];
        let over = PeerInfo {
            active_out_connection_attempts: (peer.active_out_connection_attempts - 1) as usize,
            ..peer
        };
        let next = DatabaseState {
            active_out_connection_attempts: (pre.active_out_connection_attempts - 1) as nat,
            ..pre
        };
        match now {
            Err(e) => post == next.with_peer(over) && r == Err::<(), _>(e),
            Ok(millis) => {
                let failed = PeerInfo { last_failure_millis: Some(millis), ..over };
                &&& r == Ok::<(), CommunicationError>(())
                &&& next.with_peer(failed).dumping().settles_to(failed, post)
            },
        }
    }
}

/// What `try_new_in_connection` does at time `now`.
pub open spec fn try_new_in_connection(
    pre: DatabaseState,
    ip: IpAddr,
    now: Result<u64, CommunicationError>,
    post: DatabaseState,
    r: Result<bool, CommunicationError>,
) -> bool {
    if !pre.cfg.spec_admits(ip) || pre.active_in_connections >= pre.cfg.max_in_connections
        || pre.cfg.max_in_connections_per_ip == 0 {
        post == pre && r == Ok::<bool, CommunicationError>(false)
    } else {
        let peer = if pre.peers.contains_key(ip) {
            pre.peers[ip]
        } else {
            PeerInfo::spec_unknown(ip, false)
        };
        if peer.banned {
            match now {
                Err(e) => post == pre && r == Err::<bool, _>(e),
                Ok(millis) => {
                    let refused = PeerInfo { last_failure_millis: Some(millis), ..peer };
                    post == pre.with_peer(refused).dumping() && r == Ok::<
                        bool,
                        CommunicationError,
                    >(false)
                },
            }
        } else if peer.active_in_connections >= pre.cfg.max_in_connections_per_ip {
            post == pre.dumping() && r == Ok::<bool, CommunicationError>(false)
        } else {
            let connected = PeerInfo {
                active_in_connections: (peer.active_in_connections + 1) as usize,
                ..peer
            };
            &&& post == DatabaseState {
                active_in_connections: pre.active_in_connections + 1,
                ..pre.with_peer(connected).dumping()
            }
            &&& r == Ok::<bool, CommunicationError>(true)
        }
    }
}

} // verus!
