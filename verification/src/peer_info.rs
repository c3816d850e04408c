use vstd::prelude::*;

use crate::ip::IpAddr;

verus! {

/// What the database knows of one peer.
#[derive(Clone, Copy, Debug, PartialEq, Eq)]
pub struct PeerInfo {
    pub ip: IpAddr,
    pub banned: bool,
    pub bootstrap: bool,
    /// When the peer was last seen alive, in milliseconds since the Unix epoch.
    pub last_alive_millis: Option<u64>,
    /// When the peer last failed, in milliseconds since the Unix epoch.
    pub last_failure_millis: Option<u64>,
    /// Whether the peer may be told to others.
    pub advertised: bool,
    pub active_out_connection_attempts: usize,
    pub active_out_connections: usize,
    pub active_in_connections: usize,
}

/// How a peer is treated when the database is cleaned up.
#[derive(Clone, Copy, Debug, PartialEq, Eq, Structural)]
pub enum PeerClass {
    /// Active or bootstrap: stays whatever the limits are.
    Kept,
    /// Inactive and banned: counts against the limit on banned peers.
    Banned,
    /// Inactive, not banned, advertised: counts against the limit on idle peers.
    Idle,
    /// Anything else: is forgotten.
    Dropped,
}

impl PeerInfo {
    /// Whether there is a connection attempt to this peer, or a connection in either direction.
    pub open spec fn spec_is_active(self) -> bool {
        self.active_out_connection_attempts > 0 || self.active_out_connections > 0
            || self.active_in_connections > 0
    }

    /// True if there is at least one connection attempt to this peer, or one active connection
    /// with it in either direction.
    pub fn is_active(&self) -> (r: bool)
        ensures
            r == self.spec_is_active(),
    {
        self.active_out_connection_attempts > 0 || self.active_out_connections > 0
            || self.active_in_connections > 0
    }

    /// How the peer is treated when the database is cleaned up.
    pub open spec fn spec_class(self) -> PeerClass {
        if self.bootstrap || self.spec_is_active() {
            PeerClass::Kept
        } else if self.banned {
            PeerClass::Banned
        } else if self.advertised {
            PeerClass::Idle
        } else {
            PeerClass::Dropped
        }
    }

    /// How the peer is treated when the database is cleaned up.
    pub fn class(&self) -> (r: PeerClass)
        ensures
            r == self.spec_class(),
    {
        if self.bootstrap || self.is_active() {
            PeerClass::Kept
        } else if self.banned {
            PeerClass::Banned
        } else if self.advertised {
            PeerClass::Idle
        } else {
            PeerClass::Dropped
        }
    }

    /// A peer of which nothing but its address is known.
    pub open spec fn spec_unknown(ip: IpAddr, advertised: bool) -> PeerInfo {
        PeerInfo {
            ip,
            banned: false,
            bootstrap: false,
            last_alive_millis: None,
            last_failure_millis: None,
            advertised,
            active_out_connection_attempts: 0,
            active_out_connections: 0,
            active_in_connections: 0,
        }
    }

    /// A peer of which nothing but its address is known.
    pub fn unknown(ip: IpAddr, advertised: bool) -> (r: PeerInfo)
        ensures
            r == Self::spec_unknown(ip, advertised),
    {
        PeerInfo {
            ip,
            banned: false,
            bootstrap: false,
            last_alive_millis: None,
            last_failure_millis: None,
            advertised,
            active_out_connection_attempts: 0,
            active_out_connections: 0,
            active_in_connections: 0,
        }
    }

    /// The record as it comes back from a file: connections are not saved, so it starts with
    /// none.
    pub open spec fn spec_restored(self) -> PeerInfo {
        PeerInfo {
            active_out_connection_attempts: 0,
            active_out_connections: 0,
            active_in_connections: 0,
            ..self
        }
    }

    /// The record as it comes back from a file, without connections.
    pub fn restored(&self) -> (r: PeerInfo)
        ensures
            r == self.spec_restored(),
    {
        PeerInfo {
            active_out_connection_attempts: 0,
            active_out_connections: 0,
            active_in_connections: 0,
            ..*self
        }
    }

    /// Whether the peer can be tried at time `now`: it is advertised, neither banned nor active,
    /// and its last failure, if it has not been seen alive since, is more than `wakeup_interval`
    /// milliseconds ago.
    pub open spec fn spec_is_connectable(self, now: u64, wakeup_interval: u64) -> bool {
        &&& self.advertised
        &&& !self.banned
        &&& !self.spec_is_active()
        &&& match self.last_failure_millis {
            Some(failure) => {
                ||| (self.last_alive_millis is Some && self.last_alive_millis->0 > failure)
                ||| now > failure + wakeup_interval
            },
            None => true,
        }
    }

    /// Whether the peer can be tried at time `now`.
    pub fn is_connectable(&self, now: u64, wakeup_interval: u64) -> (r: bool)
        ensures
            r == self.spec_is_connectable(now, wakeup_interval),
    {
        if !(self.advertised && !self.banned && !self.is_active()) {
            return false;
        }
        match self.last_failure_millis {
            Some(last_failure) => {
                if let Some(last_alive) = self.last_alive_millis {
                    if last_alive > last_failure {
                        return true;
                    }
                }
                // the sum may lie beyond any time that `now` can be
                match last_failure.checked_add(wakeup_interval) {
                    Some(wakeup) => now > wakeup,
                    None => false,
                }
            },
            None => true,
        }
    }
}

} // verus!
