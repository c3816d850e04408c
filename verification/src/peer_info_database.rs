use vstd::prelude::*;

use crate::cleanup::cleanup_peers;
use crate::clock::{duration_as_millis, is_clock_reading, low_bits, now_as_millis};
use crate::config::NetworkConfig;
use crate::error::CommunicationError;
use crate::ip::IpAddr;
use crate::order::PeerOrder;
use crate::peer_info::PeerInfo;
use crate::peer_table::{lists, PeerTable};
use crate::preservation::{
    lemma_counted, lemma_dump_requested, lemma_in_connection_closed, lemma_loaded,
    lemma_merge_candidate_peers, lemma_new_out_connection_attempt,
    lemma_out_connection_attempt_failed, lemma_out_connection_closed, lemma_peer_alive,
    lemma_peer_banned, lemma_peer_failed, lemma_try_new_in_connection,
    lemma_try_out_connection_attempt_success,
};
use crate::selection::{
    best_first, best_ips, lemma_filter_enumerates, members, min, select, PeerFilter,
};
use crate::state;
use crate::state::DatabaseState;

verus! {

/// The peers that a node knows, and how many connections it has with them.
pub struct PeerInfoDatabase {
    cfg: NetworkConfig,
    peers: PeerTable,
    active_out_connection_attempts: usize,
    active_out_connections: usize,
    active_in_connections: usize,
    wakeup_interval_millis: u64,
    dump_requested: bool,
}

impl View for PeerInfoDatabase {
    type V = DatabaseState;

    closed spec fn view(&self) -> DatabaseState {
        DatabaseState {
            cfg: self.cfg,
            peers: self.peers@,
            active_out_connection_attempts: self.active_out_connection_attempts as nat,
            active_out_connections: self.active_out_connections as nat,
            active_in_connections: self.active_in_connections as nat,
            wakeup_interval_millis: self.wakeup_interval_millis,
            dump_requested: self.dump_requested,
        }
    }
}

impl PeerInfoDatabase {
    /// What holds of every database.
    pub closed spec fn wf(&self) -> bool {
        self.peers.wf() && self@.wf()
    }

    /// What holds of every database holds of what it shows.
    pub proof fn lemma_wf(&self)
        requires
            self.wf(),
        ensures
            self@.wf(),
    {
    }

    /// Creates a database from the records of a file of peers, which are cleaned up. Where an
    /// address occurs more than once, the last record counts. Connections are not saved, so the
    /// database starts with none.
    pub fn new(cfg: &NetworkConfig, saved: &Vec<PeerInfo>) -> (db: PeerInfoDatabase)
        ensures
            db.wf(),
            state::started(*cfg, saved@, db@),
    {
        let wakeup_millis: u128 = duration_as_millis(cfg.wakeup_interval);
        PeerInfoDatabase::with_wakeup_millis(cfg, wakeup_millis, saved)
    }

    /// `new`, where a failed peer is left alone for `wakeup_millis` milliseconds whatever the
    /// configuration says.
    pub fn with_wakeup_millis(
        cfg: &NetworkConfig,
        wakeup_millis: u128,
        saved: &Vec<PeerInfo>,
    ) -> (db: PeerInfoDatabase)
        ensures
            db.wf(),
            state::loaded(*cfg, wakeup_millis, saved@, db@),
    {
        let wakeup_interval_millis: u64 = low_bits(wakeup_millis);
        let mut records: Vec<PeerInfo> = Vec::new();
        for i in 0..saved.len()
            invariant
                records@.len() == i,
                forall|k: int| 0 <= k < i ==> #[trigger] records@[k] == saved@[k].spec_restored(),
        {
            records.push(saved[i].restored());
        }
        assert(records@ =~= state::restored(saved@));
        let mut peers = PeerTable::from_records(&records);
        cleanup_peers(cfg, &mut peers, None);
        let db = PeerInfoDatabase {
            cfg: *cfg,
            peers,
            active_out_connection_attempts: 0,
            active_out_connections: 0,
            active_in_connections: 0,
            wakeup_interval_millis,
            dump_requested: false,
        };
        proof {
            db.peers.lemma_well_keyed();
            lemma_loaded(*cfg, wakeup_millis, saved@, db@);
        }
        db
    }

    /// Closes the database. Returns the records for one last dump.
    pub fn stop(self) -> (r: Vec<PeerInfo>)
        requires
            self.wf(),
        ensures
            state::stopped(self@, r@),
    {
        let records = self.peers.records();
        proof {
            lemma_filter_enumerates(records@, PeerFilter::Saved);
        }
        select(&records, PeerFilter::Saved)
    }

    /// Requests that the peers are saved.
    fn request_dump(&mut self)
        requires
            old(self).peers.wf(),
        ensures
            final(self).peers.wf(),
            final(self)@ == old(self)@.dumping(),
    {
        self.dump_requested = true;
    }

    /// If a dump was requested since the last call, returns the peers as they are now.
    pub fn take_dump_request(&mut self) -> (r: Option<Vec<PeerInfo>>)
        requires
            old(self).wf(),
        ensures
            final(self).wf(),
            state::take_dump_request(old(self)@, final(self)@, dumped(r)),
    {
        let requested = self.dump_requested;
        self.dump_requested = false;
        proof {
            lemma_dump_requested(old(self)@, self@);
        }
        if requested {
            Some(self.peers.records())
        } else {
            None
        }
    }

    /// The known peers, in no particular order.
    pub fn peers(&self) -> (r: Vec<PeerInfo>)
        requires
            self.wf(),
        ensures
            lists(r@, self@.peers),
    {
        self.peers.records()
    }

    /// Cleans up the peers.
    fn clean_up(&mut self)
        requires
            old(self).peers.wf(),
        ensures
            final(self).peers.wf(),
            old(self)@.cleans_to(final(self)@),
    {
        let cfg = self.cfg;
        cleanup_peers(&cfg, &mut self.peers, None);
        proof {
            self.peers.lemma_well_keyed();
        }
    }

    /// Cleans up the peers if `peer`, which is one of them, is neither active nor bootstrap.
    fn settle(&mut self, peer: &PeerInfo)
        requires
            old(self).peers.wf(),
        ensures
            final(self).peers.wf(),
            old(self)@.settles_to(*peer, final(self)@),
    {
        if !peer.is_active() && !peer.bootstrap {
            self.clean_up();
        }
    }

    /// The number of outgoing connection attempts that may still be made, by the configuration
    /// and the current connections and connection attempts.
    pub fn get_available_out_connection_attempts(&self) -> (r: usize)
        ensures
            r == self@.available_out_connection_attempts(),
    {
        let missing: usize = self.cfg.target_out_connections.saturating_sub(
            self.active_out_connection_attempts,
        ).saturating_sub(self.active_out_connections);
        let allowed: usize = self.cfg.max_out_connnection_attempts.saturating_sub(
            self.active_out_connection_attempts,
        );
        if missing < allowed {
            missing
        } else {
            allowed
        }
    }

    /// Sorts the peers that can be tried by (last failure, latest sign of life first), and
    /// returns as many as there are slots for outgoing connection attempts.
    pub fn get_out_connection_candidate_ips(&self) -> (r: Result<Vec<IpAddr>, CommunicationError>)
        requires
            self.wf(),
        ensures
            exists|now: Result<u64, CommunicationError>|
                is_clock_reading(now) && #[trigger] state::out_connection_candidates(
                    self@,
                    now,
                    listed(r),
                ),
    {
        let now = now_as_millis();
        self.get_out_connection_candidate_ips_at(now)
    }

    /// `get_out_connection_candidate_ips` at the time `now`.
    pub fn get_out_connection_candidate_ips_at(
        &self,
        now: Result<u64, CommunicationError>,
    ) -> (r: Result<Vec<IpAddr>, CommunicationError>)
        requires
            self.wf(),
        ensures
            state::out_connection_candidates(self@, now, listed(r)),
    {
        let available_slots: usize = self.get_available_out_connection_attempts();
        if available_slots == 0 {
            let none: Vec<IpAddr> = Vec::new();
            assert(none@ =~= Seq::empty());
            return Ok(none);
        }
        match now {
            Ok(now) => {
                let filter = PeerFilter::Connectable {
                    now,
                    wakeup_interval: self.wakeup_interval_millis,
                };
                let records = self.peers.records();
                Ok(best_ips(&records, filter, PeerOrder::EarliestFailure, available_slots))
            },
            Err(e) => Err(e),
        }
    }

    /// The addresses to tell to others, sorted by (last failure, latest sign of life first), our
    /// own address first.
    pub fn get_advertisable_peer_ips(&self) -> (r: Vec<IpAddr>)
        requires
            self.wf(),
        ensures
            state::advertisable(self@, r@),
    {
        let records = self.peers.records();
        let filter = PeerFilter::Advertisable;
        let order = PeerOrder::EarliestFailure;
        let limit: usize = self.cfg.max_advertise_length;
        let mut sorted_ips = best_ips(&records, filter, order, limit);
        if let Some(our_ip) = self.cfg.routable_ip {
            let ghost others = sorted_ips@;
            sorted_ips.insert(0, our_ip);
            sorted_ips.truncate(limit);
            proof {
                if limit == 0 {
                    assert(sorted_ips@ =~= Seq::empty());
                } else {
                    let shorter = others.take(min((limit - 1) as nat, others.len()) as int);
                    assert(sorted_ips@.skip(1) =~= shorter);
                    lemma_best_first_shorter(self@.peers, filter, order, limit as nat, others);
                }
            }
        }
        sorted_ips
    }

    /// Acknowledges a new outgoing connection attempt to `ip`.
    ///
    /// Refused if the address is not globally reachable, if there are too many connection
    /// attempts, or if the address is not that of a known peer.
    pub fn new_out_connection_attempt(&mut self, ip: &IpAddr) -> (r: Result<(), CommunicationError>)
        requires
            old(self).wf(),
        ensures
            final(self).wf(),
            state::new_out_connection_attempt(old(self)@, *ip, final(self)@, r),
    {
        if !ip.is_global() {
            return Err(CommunicationError::TargetIpIsNotGLobal(*ip));
        }
        if self.get_available_out_connection_attempts() == 0 {
            return Err(CommunicationError::ToManyConnectionAttempt(*ip));
        }
        let mut peer = match self.peers.get(ip) {
            Some(peer) => peer,
            None => {
                return Err(CommunicationError::PeerInfoNotFoundError(*ip));
            },
        };
        proof {
            lemma_counted(old(self)@, *ip);
        }
        peer.active_out_connection_attempts += 1;
        self.active_out_connection_attempts += 1;
        self.peers.insert(peer);
        proof {
            lemma_new_out_connection_attempt(old(self)@, *ip, self@, Ok(()));
        }
        Ok(())
    }

    /// Merges announced peers with those that are known. A dump is requested.
    pub fn merge_candidate_peers(&mut self, new_peers: &Vec<IpAddr>) -> (r: Result<
        (),
        CommunicationError,
    >)
        requires
            old(self).wf(),
        ensures
            final(self).wf(),
            state::merge_candidate_peers(old(self)@, new_peers@, final(self)@, r),
    {
        if new_peers.is_empty() {
            return Ok(());
        }
        let cfg = self.cfg;
        cleanup_peers(&cfg, &mut self.peers, Some(new_peers));
        self.request_dump();
        proof {
            self.peers.lemma_well_keyed();
            lemma_merge_candidate_peers(old(self)@, new_peers@, self@, Ok(()));
        }
        Ok(())
    }

    /// Sets that the peer is alive now. A dump is requested.
    pub fn peer_alive(&mut self, ip: &IpAddr) -> (r: Result<(), CommunicationError>)
        requires
            old(self).wf(),
        ensures
            final(self).wf(),
            exists|now: Result<u64, CommunicationError>|
                is_clock_reading(now) && #[trigger] state::peer_alive(
                    old(self)@,
                    *ip,
                    now,
                    final(self)@,
                    r,
                ),
    {
        let now = now_as_millis();
        self.peer_alive_at(ip, now)
    }

    /// `peer_alive` at the time `now`.
    pub fn peer_alive_at(
        &mut self,
        ip: &IpAddr,
        now: Result<u64, CommunicationError>,
    ) -> (r: Result<(), CommunicationError>)
        requires
            old(self).wf(),
        ensures
            final(self).wf(),
            state::peer_alive(old(self)@, *ip, now, final(self)@, r),
    {
        let millis: u64 = match now {
            Ok(millis) => millis,
            Err(e) => {
                return Err(e);
            },
        };
        let mut peer = match self.peers.get(ip) {
            Some(peer) => peer,
            None => {
                return Err(CommunicationError::PeerInfoNotFoundError(*ip));
            },
        };
        peer.last_alive_millis = Some(millis);
        self.peers.insert(peer);
        self.request_dump();
        proof {
            lemma_peer_alive(old(self)@, *ip, now, self@, Ok(()));
        }
        Ok(())
    }

    /// Sets that the peer failed now. A dump is requested.
    pub fn peer_failed(&mut self, ip: &IpAddr) -> (r: Result<(), CommunicationError>)
        requires
            old(self).wf(),
        ensures
            final(self).wf(),
            exists|now: Result<u64, CommunicationError>|
                is_clock_reading(now) && #[trigger] state::peer_failed(
                    old(self)@,
                    *ip,
                    now,
                    final(self)@,
                    r,
                ),
    {
        let now = now_as_millis();
        self.peer_failed_at(ip, now)
    }

    /// `peer_failed` at the time `now`.
    pub fn peer_failed_at(
        &mut self,
        ip: &IpAddr,
        now: Result<u64, CommunicationError>,
    ) -> (r: Result<(), CommunicationError>)
        requires
            old(self).wf(),
        ensures
            final(self).wf(),
            state::peer_failed(old(self)@, *ip, now, final(self)@, r),
    {
        let millis: u64 = match now {
            Ok(millis) => millis,
            Err(e) => {
                return Err(e);
            },
        };
        let mut peer = match self.peers.get(ip) {
            Some(peer) => peer,
            None => {
                return Err(CommunicationError::PeerInfoNotFoundError(*ip));
            },
        };
        peer.last_failure_millis = Some(millis);
        self.peers.insert(peer);
        self.request_dump();
        proof {
            lemma_peer_failed(old(self)@, *ip, now, self@, Ok(()));
        }
        Ok(())
    }

    /// Sets that the peer is banned from now on. If it is not active, the database is cleaned
    /// up. A dump is requested.
    pub fn peer_banned(&mut self, ip: &IpAddr) -> (r: Result<(), CommunicationError>)
        requires
            old(self).wf(),
        ensures
            final(self).wf(),
            exists|now: Result<u64, CommunicationError>|
                is_clock_reading(now) && #[trigger] state::peer_banned(
                    old(self)@,
                    *ip,
                    now,
                    final(self)@,
                    r,
                ),
    {
        let now = now_as_millis();
        self.peer_banned_at(ip, now)
    }

    /// `peer_banned` at the time `now`.
    pub fn peer_banned_at(
        &mut self,
        ip: &IpAddr,
        now: Result<u64, CommunicationError>,
    ) -> (r: Result<(), CommunicationError>)
        requires
            old(self).wf(),
        ensures
            final(self).wf(),
            state::peer_banned(old(self)@, *ip, now, final(self)@, r),
    {
        let mut peer = match self.peers.get(ip) {
            Some(peer) => peer,
            None => {
                return Err(CommunicationError::PeerInfoNotFoundError(*ip));
            },
        };
        let millis: u64 = match now {
            Ok(millis) => millis,
            Err(e) => {
                return Err(e);
            },
        };
        peer.last_failure_millis = Some(millis);
        peer.banned = true;
        self.peers.insert(peer);
        self.request_dump();
        if !peer.is_active() {
            self.clean_up();
        }
        proof {
            lemma_peer_banned(old(self)@, *ip, now, self@, Ok(()));
        }
        Ok(())
    }

    /// Notifies of a closed outgoing connection.
    ///
    /// Refused if there is no such connection, with any peer or with this one, or if the peer is
    /// not known. If the peer is then neither active nor bootstrap, the peers are cleaned up and
    /// a dump is requested.
    pub fn out_connection_closed(&mut self, ip: &IpAddr) -> (r: Result<(), CommunicationError>)
        requires
            old(self).wf(),
        ensures
            final(self).wf(),
            state::out_connection_closed(old(self)@, *ip, final(self)@, r),
    {
        if self.active_out_connections == 0 {
            return Err(CommunicationError::ToManyActiveConnectionClosed(*ip));
        }
        let mut peer = match self.peers.get(ip) {
            Some(peer) => peer,
            None => {
                return Err(CommunicationError::PeerInfoNotFoundError(*ip));
            },
        };
        if peer.active_out_connections == 0 {
            return Err(CommunicationError::ToManyActiveConnectionClosed(*ip));
        }
        self.active_out_connections -= 1;
        peer.active_out_connections -= 1;
        self.peers.insert(peer);
        if !peer.is_active() && !peer.bootstrap {
            self.request_dump();
            self.clean_up();
        }
        proof {
            lemma_out_connection_closed(old(self)@, *ip, self@, Ok(()));
        }
        Ok(())
    }

    /// Notifies of a closed incoming connection.
    ///
    /// Refused if there is no such connection, with any peer or with this one, or if the peer is
    /// not known. If the peer is then neither active nor bootstrap, the peers are cleaned up and
    /// a dump is requested.
    pub fn in_connection_closed(&mut self, ip: &IpAddr) -> (r: Result<(), CommunicationError>)
        requires
            old(self).wf(),
        ensures
            final(self).wf(),
            state::in_connection_closed(old(self)@, *ip, final(self)@, r),
    {
        if self.active_in_connections == 0 {
            return Err(CommunicationError::ToManyActiveConnectionClosed(*ip));
        }
        let mut peer = match self.peers.get(ip) {
            Some(peer) => peer,
            None => {
                return Err(CommunicationError::PeerInfoNotFoundError(*ip));
            },
        };
        if peer.active_in_connections == 0 {
            return Err(CommunicationError::ToManyActiveConnectionClosed(*ip));
        }
        self.active_in_connections -= 1;
        peer.active_in_connections -= 1;
        self.peers.insert(peer);
        if !peer.is_active() && !peer.bootstrap {
            self.request_dump();
            self.clean_up();
        }
        proof {
            lemma_in_connection_closed(old(self)@, *ip, self@, Ok(()));
        }
        Ok(())
    }

    /// An outgoing connection attempt succeeded. Returns false if there is no slot left for the
    /// connection, or if the peer is banned. The peer is set to advertised.
    ///
    /// Refused if no attempt is under way, to any peer or to this one, or if the peer is not
    /// known. Unless there is no slot, a dump is requested.
    pub fn try_out_connection_attempt_success(&mut self, ip: &IpAddr) -> (r: Result<
        bool,
        CommunicationError,
    >)
        requires
            old(self).wf(),
        ensures
            final(self).wf(),
            exists|now: Result<u64, CommunicationError>|
                is_clock_reading(now) && #[trigger] state::try_out_connection_attempt_success(
                    old(self)@,
                    *ip,
                    now,
                    final(self)@,
                    r,
                ),
    {
        let now = now_as_millis();
        self.try_out_connection_attempt_success_at(ip, now)
    }

    /// `try_out_connection_attempt_success` at the time `now`.
    pub fn try_out_connection_attempt_success_at(
        &mut self,
        ip: &IpAddr,
        now: Result<u64, CommunicationError>,
    ) -> (r: Result<bool, CommunicationError>)
        requires
            old(self).wf(),
        ensures
            final(self).wf(),
            state::try_out_connection_attempt_success(old(self)@, *ip, now, final(self)@, r),
    {
        if self.active_out_connection_attempts == 0 {
            return Err(CommunicationError::ToManyConnectionAttempt(*ip));
        }
        if self.active_out_connections >= self.cfg.target_out_connections {
            return Ok(false);
        }
        let mut peer = match self.peers.get(ip) {
            Some(peer) => peer,
            None => {
                return Err(CommunicationError::PeerInfoNotFoundError(*ip));
            },
        };
        if peer.active_out_connection_attempts == 0 {
            return Err(CommunicationError::ToManyConnectionAttempt(*ip));
        }
        proof {
            lemma_counted(old(self)@, *ip);
        }
        self.active_out_connection_attempts -= 1;
        peer.active_out_connection_attempts -= 1;
        peer.advertised = true;  // we just connected to it
        if peer.banned {
            let millis: u64 = match now {
                Ok(millis) => millis,
                Err(e) => {
                    self.peers.insert(peer);
                    proof {
                        lemma_try_out_connection_attempt_success(
                            old(self)@,
                            *ip,
                            now,
                            self@,
                            Err(e),
                        );
                    }
                    return Err(e);
                },
            };
            peer.last_failure_millis = Some(millis);
            self.peers.insert(peer);
            self.request_dump();
            self.settle(&peer);
            proof {
                lemma_try_out_connection_attempt_success(old(self)@, *ip, now, self@, Ok(false));
            }
            return Ok(false);
        }
        self.active_out_connections += 1;
        peer.active_out_connections += 1;
        self.peers.insert(peer);
        self.request_dump();
        proof {
            lemma_try_out_connection_attempt_success(old(self)@, *ip, now, self@, Ok(true));
        }
        Ok(true)
    }

    /// An outgoing connection attempt failed. If the peer is then neither active nor bootstrap,
    /// the peers are cleaned up. A dump is requested.
    ///
    /// Refused if no attempt is under way, to any peer or to this one, or if the peer is not
    /// known.
    pub fn out_connection_attempt_failed(&mut self, ip: &IpAddr) -> (r: Result<
        (),
        CommunicationError,
    >)
        requires
            old(self).wf(),
        ensures
            final(self).wf(),
            exists|now: Result<u64, CommunicationError>|
                is_clock_reading(now) && #[trigger] state::out_connection_attempt_failed(
                    old(self)@,
                    *ip,
                    now,
                    final(self)@,
                    r,
                ),
    {
        let now = now_as_millis();
        self.out_connection_attempt_failed_at(ip, now)
    }

    /// `out_connection_attempt_failed` at the time `now`.
    pub fn out_connection_attempt_failed_at(
        &mut self,
        ip: &IpAddr,
        now: Result<u64, CommunicationError>,
    ) -> (r: Result<(), CommunicationError>)
        requires
            old(self).wf(),
        ensures
            final(self).wf(),
            state::out_connection_attempt_failed(old(self)@, *ip, now, final(self)@, r),
    {
        if self.active_out_connection_attempts == 0 {
            return Err(CommunicationError::ToManyConnectionFailure(*ip));
        }
        let mut peer = match self.peers.get(ip) {
            Some(peer) => peer,
            None => {
                return Err(CommunicationError::PeerInfoNotFoundError(*ip));
            },
        };
        if peer.active_out_connection_attempts == 0 {
            return Err(CommunicationError::ToManyConnectionFailure(*ip));
        }
        self.active_out_connection_attempts -= 1;
        peer.active_out_connection_attempts -= 1;
        let millis: u64 = match now {
            Ok(millis) => millis,
            Err(e) => {
                self.peers.insert(peer);
                proof {
                    lemma_out_connection_attempt_failed(old(self)@, *ip, now, self@, Err(e));
                }
                return Err(e);
            },
        };
        peer.last_failure_millis = Some(millis);
        self.peers.insert(peer);
        self.request_dump();
        self.settle(&peer);
        proof {
            lemma_out_connection_attempt_failed(old(self)@, *ip, now, self@, Ok(()));
        }
        Ok(())
    }

    /// A peer has connected to us. Returns true if there is a slot left for the connection and the
    /// peer is not banned. If the peer is known it is updated, otherwise it is created, not
    /// advertised. A dump is requested, unless there is no slot for anybody, or the address is
    /// not admitted.
    pub fn try_new_in_connection(&mut self, ip: &IpAddr) -> (r: Result<bool, CommunicationError>)
        requires
            old(self).wf(),
        ensures
            final(self).wf(),
            exists|now: Result<u64, CommunicationError>|
                is_clock_reading(now) && #[trigger] state::try_new_in_connection(
                    old(self)@,
                    *ip,
                    now,
                    final(self)@,
                    r,
                ),
    {
        let now = now_as_millis();
        self.try_new_in_connection_at(ip, now)
    }

    /// `try_new_in_connection` at the time `now`.
    pub fn try_new_in_connection_at(
        &mut self,
        ip: &IpAddr,
        now: Result<u64, CommunicationError>,
    ) -> (r: Result<bool, CommunicationError>)
        requires
            old(self).wf(),
        ensures
            final(self).wf(),
            state::try_new_in_connection(old(self)@, *ip, now, final(self)@, r),
    {
        if !self.cfg.admits(ip) || self.active_in_connections >= self.cfg.max_in_connections
            || self.cfg.max_in_connections_per_ip == 0 {
            return Ok(false);
        }
        let mut peer = match self.peers.get(ip) {
            Some(peer) => peer,
            None => PeerInfo::unknown(*ip, false),
        };
        proof {
            if old(self)@.peers.contains_key(*ip) {
                lemma_counted(old(self)@, *ip);
            }
        }
        if peer.banned {
            let millis: u64 = match now {
                Ok(millis) => millis,
                Err(e) => {
                    return Err(e);
                },
            };
            peer.last_failure_millis = Some(millis);
            self.peers.insert(peer);
            self.request_dump();
            proof {
                lemma_try_new_in_connection(old(self)@, *ip, now, self@, Ok(false));
            }
            return Ok(false);
        }
        if peer.active_in_connections >= self.cfg.max_in_connections_per_ip {
            self.request_dump();
            proof {
                lemma_try_new_in_connection(old(self)@, *ip, now, self@, Ok(false));
            }
            return Ok(false);
        }
        self.active_in_connections += 1;
        peer.active_in_connections += 1;
        self.peers.insert(peer);
        self.request_dump();
        proof {
            lemma_try_new_in_connection(old(self)@, *ip, now, self@, Ok(true));
        }
        Ok(true)
    }
}

/// The addresses of an answer.
pub open spec fn listed(r: Result<Vec<IpAddr>, CommunicationError>) -> Result<
    Seq<IpAddr>,
    CommunicationError,
> {
    match r {
        Ok(ips) => Ok(ips@),
        Err(e) => Err(e),
    }
}

/// The records of a dump request, if there is one.
pub open spec fn dumped(r: Option<Vec<PeerInfo>>) -> Option<Seq<PeerInfo>> {
    match r {
        Some(records) => Some(records@),
        None => None,
    }
}

/// A shorter limit cuts off the end.
proof fn lemma_best_first_shorter(
    peers: Map<IpAddr, PeerInfo>,
    filter: PeerFilter,
    order: PeerOrder,
    limit: nat,
    ips: Seq<IpAddr>,
)
    requires
        limit > 0,
        best_first(peers, filter, order, limit, ips),
    ensures
        best_first(
            peers,
            filter,
            order,
            (limit - 1) as nat,
            ips.take(min((limit - 1) as nat, ips.len()) as int),
        ),
{
    let shorter = ips.take(min((limit - 1) as nat, ips.len()) as int);
    assert forall|i: int, ip: IpAddr|
        0 <= i < shorter.len() && #[trigger] members(peers, filter).contains(ip)
            && !shorter.contains(ip) implies order.le(peers[#[trigger] shorter[i]], peers[ip]) by {
        if ips.contains(ip) {
            let j = choose|j: int| 0 <= j < ips.len() && ips[j] == ip;
            if j < shorter.len() {
                assert(shorter[j] == ip);
            }
            assert(order.le(peers[ips[i]], peers[ips[j]]));
        } else {
            assert(order.le(peers[ips[i]], peers[ip]));
        }
    }
    assert forall|i: int| 0 <= i < shorter.len() implies members(peers, filter).contains(
        #[trigger] shorter[i],
    ) by {
        assert(shorter[i] == ips[i]);
    }
}

} // verus!
