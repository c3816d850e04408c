use std::time::Duration;
use vstd::prelude::*;

use crate::ip::IpAddr;

verus! {

/// The settings that the peer database works by.
#[derive(Clone, Copy, Debug)]
pub struct NetworkConfig {
    /// The address under which other nodes reach us, if there is one.
    pub routable_ip: Option<IpAddr>,
    /// How long a peer is left alone after a failure.
    pub wakeup_interval: Duration,
    /// How many outgoing connections to aim for.
    pub target_out_connections: usize,
    /// How many incoming connections to accept in all.
    pub max_in_connections: usize,
    /// How many incoming connections to accept from one address.
    pub max_in_connections_per_ip: usize,
    /// How many outgoing connection attempts may be under way at once.
    pub max_out_connnection_attempts: usize,
    /// How many idle peers to remember.
    pub max_idle_peers: usize,
    /// How many inactive banned peers to remember.
    pub max_banned_peers: usize,
    /// How many addresses to send or to take in at once.
    pub max_advertise_length: usize,
}

impl NetworkConfig {
    /// Whether a peer at `ip` may be in the database: the address is globally reachable, and it
    /// is not our own.
    pub open spec fn spec_admits(self, ip: IpAddr) -> bool {
        ip.global && self.routable_ip != Some(ip)
    }

    /// Whether a peer at `ip` may be in the database.
    pub fn admits(&self, ip: &IpAddr) -> (r: bool)
        ensures
            r == self.spec_admits(*ip),
    {
        if !ip.is_global() {
            return false;
        }
        match self.routable_ip {
            Some(our_ip) => *ip != our_ip,
            None => true,
        }
    }
}

} // verus!
