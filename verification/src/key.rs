//! The five-tuple that identifies a flow.

use crate::ip::{IpAddress, IpProtocol};
use vstd::prelude::*;

verus! {

/// A flow's five-tuple, seen from the local machine.
#[derive(Clone, Copy, Debug, PartialEq, Eq, Structural)]
pub struct Key {
    pub protocol: IpProtocol,
    pub local_address: IpAddress,
    pub local_port: u16,
    pub remote_address: IpAddress,
    pub remote_port: u16,
}

impl Key {
    /// The protocol and local port.
    pub open spec fn spec_small(self) -> (IpProtocol, u16) {
        (self.protocol, self.local_port)
    }

    /// The tuple belongs to IPv6.
    pub open spec fn spec_is_ipv6(self) -> bool {
        self.local_address is Ipv6
    }

    /// The local address is a loopback address.
    pub open spec fn spec_is_loopback(self) -> bool {
        self.local_address.loopback()
    }

    /// Loopback traffic, or a local address routed back to itself.
    pub open spec fn spec_is_loopback_like(self) -> bool {
        self.spec_is_loopback() || self.local_address == self.remote_address
    }

    /// The same flow seen from the other end.
    pub open spec fn spec_reverse(self) -> Key {
        Key {
            protocol: self.protocol,
            local_address: self.remote_address,
            local_port: self.remote_port,
            remote_address: self.local_address,
            remote_port: self.local_port,
        }
    }

    /// Returns the protocol and port as a tuple.
    pub fn small(&self) -> (r: (IpProtocol, u16))
        ensures
            r == self.spec_small(),
    {
        (self.protocol, self.local_port)
    }

    /// Returns true if the local address is an IPv6 address.
    pub fn is_ipv6(&self) -> (r: bool)
        ensures
            r == self.spec_is_ipv6(),
    {
        match self.local_address {
            IpAddress::Ipv4(_) => false,
            IpAddress::Ipv6(_) => true,
        }
    }

    /// Returns true if the local address is a loopback address.
    pub fn is_loopback(&self) -> (r: bool)
        ensures
            r == self.spec_is_loopback(),
    {
        self.local_address.is_loopback()
    }

    /// Returns true for actual loopback traffic and for a local address routed
    /// back to itself. WFP can expose the latter with the same reversed-packet
    /// behavior while leaving the IP address outside the loopback range.
    pub fn is_loopback_like(&self) -> (r: bool)
        ensures
            r == self.spec_is_loopback_like(),
    {
        self.is_loopback() || self.local_address == self.remote_address
    }

    /// Returns a new key with the local and remote addresses and ports reversed.
    pub fn reverse(&self) -> (r: Key)
        ensures
            r == self.spec_reverse(),
    {
        Key {
            protocol: self.protocol,
            local_address: self.remote_address,
            local_port: self.remote_port,
            remote_address: self.local_address,
            remote_port: self.local_port,
        }
    }
}

/// Reversing a tuple twice gives the tuple back.
pub proof fn reverse_is_an_involution(key: Key)
    ensures
        key.spec_reverse().spec_reverse() == key,
{
}

} // verus!
