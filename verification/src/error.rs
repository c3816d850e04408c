use vstd::prelude::*;

use crate::ip::IpAddr;

verus! {

/// Why an operation on the peer database was refused.
#[derive(Clone, Copy, Debug, PartialEq, Eq)]
pub enum CommunicationError {
    /// The target of a connection attempt is not globally reachable.
    TargetIpIsNotGLobal(IpAddr),
    /// There is no slot left for a connection attempt, or no attempt is under way that could
    /// have succeeded.
    ToManyConnectionAttempt(IpAddr),
    /// No attempt is under way that could have failed.
    ToManyConnectionFailure(IpAddr),
    /// No connection is open that could have been closed.
    ToManyActiveConnectionClosed(IpAddr),
    /// The address does not belong to a known peer.
    PeerInfoNotFoundError(IpAddr),
    /// The system clock stands before the Unix epoch.
    TimeError,
}

} // verus!
