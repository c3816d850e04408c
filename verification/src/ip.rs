use vstd::prelude::*;

verus! {

/// The bits of an IPv4 or IPv6 address, most significant octet first.
#[derive(Clone, Copy, Debug, PartialEq, Eq, Hash, Structural)]
pub enum Address {
    V4(u32),
    V6(u128),
}

/// An IP address together with its classification.
///
/// Whether an address is globally reachable is decided where the address enters the program.
/// The same address is always given the same classification, so two values are equal exactly
/// when their addresses are.
#[derive(Clone, Copy, Debug, PartialEq, Eq, Hash, Structural)]
pub struct IpAddr {
    pub address: Address,
    /// Whether the address is globally reachable.
    pub global: bool,
}

impl IpAddr {
    /// Whether the address is globally reachable.
    pub fn is_global(&self) -> (r: bool)
        ensures
            r == self.global,
    {
        self.global
    }
}

} // verus!
