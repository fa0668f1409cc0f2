//! Network-layer identities: addresses and transport protocols.

use crate::bytes::{
    be_bytes, be_decode_of_encode, be_encode_of_decode, be_value, lemma_be_bytes_len,
    lemma_byte_ranges, push_be, read_be,
};
use vstd::prelude::*;

verus! {

/// An IPv4 address; the field is its four octets read as one big-endian number.
#[derive(Clone, Copy, Debug, PartialEq, Eq, Structural)]
pub struct Ipv4Address(pub u32);

impl Ipv4Address {
    /// The address 127.0.0.1.
    pub open spec fn spec_localhost() -> Ipv4Address {
        Ipv4Address(0x7f00_0001)
    }

    /// The address 127.0.0.1.
    pub fn localhost() -> (address: Ipv4Address)
        ensures
            address == Ipv4Address::spec_localhost(),
    {
        Ipv4Address(0x7f00_0001)
    }

    /// The four octets in network order.
    pub open spec fn octets(self) -> Seq<u8> {
        be_bytes(self.0 as nat, 4)
    }

    /// The address falls into 127.0.0.0/8.
    pub open spec fn loopback(self) -> bool {
        self.0 / 0x100_0000 == 127
    }

    /// There are four octets, and they hold the address.
    pub proof fn lemma_octets(self)
        ensures
            self.octets().len() == 4,
            be_value(self.octets()) == self.0,
    {
        lemma_byte_ranges();
        lemma_be_bytes_len(self.0 as nat, 4);
        be_decode_of_encode(self.0 as nat, 4);
    }

    /// Builds an address from its four octets.
    pub fn new(a0: u8, a1: u8, a2: u8, a3: u8) -> (address: Ipv4Address)
        ensures
            address.0 == a0 * 0x100_0000 + a1 * 0x1_0000 + a2 * 0x100 + a3,
            address.octets() == seq![a0, a1, a2, a3],
    {
        let value: u32 = a0 as u32 * 0x100_0000 + a1 as u32 * 0x1_0000 + a2 as u32 * 0x100
            + a3 as u32;
        proof {
            reveal_with_fuel(be_bytes, 5);
            assert(value / 256 == a0 * 0x1_0000 + a1 * 0x100 + a2);
            assert(value / 256 / 256 == a0 * 0x100 + a1);
            assert(be_bytes(value as nat, 4) =~= seq![a0, a1, a2, a3]);
        }
        Ipv4Address(value)
    }

    /// Reads an address from exactly four octets in network order.
    pub fn from_bytes(data: &[u8]) -> (address: Ipv4Address)
        requires
            data@.len() == 4,
        ensures
            address.0 == be_value(data@),
            address.octets() == data@,
    {
        proof {
            lemma_byte_ranges();
            be_encode_of_decode(data@);
            assert(data@.subrange(0, 4) =~= data@);
        }
        Ipv4Address(read_be(data, 0, 4) as u32)
    }

    /// Appends the four octets in network order.
    pub fn push_to(self, out: &mut Vec<u8>)
        ensures
            final(out)@ == old(out)@ + self.octets(),
    {
        push_be(out, self.0 as u64, 4);
    }

    /// Whether the address falls into the loopback range 127.0.0.0/8.
    pub fn is_loopback(self) -> (r: bool)
        ensures
            r == self.loopback(),
    {
        self.0 / 0x100_0000 == 127
    }
}

/// An IPv6 address as two big-endian words.
#[derive(Clone, Copy, Debug, PartialEq, Eq, Structural)]
pub struct Ipv6Address {
    pub high: u64,
    pub low: u64,
}

impl Ipv6Address {
    /// The address ::1.
    pub open spec fn spec_localhost() -> Ipv6Address {
        Ipv6Address { high: 0, low: 1 }
    }

    /// The address ::1.
    pub fn localhost() -> (address: Ipv6Address)
        ensures
            address == Ipv6Address::spec_localhost(),
    {
        Ipv6Address { high: 0, low: 1 }
    }

    /// The sixteen octets in network order.
    pub open spec fn octets(self) -> Seq<u8> {
        be_bytes(self.high as nat, 8) + be_bytes(self.low as nat, 8)
    }

    /// There are sixteen octets.
    pub proof fn lemma_octets(self)
        ensures
            self.octets().len() == 16,
    {
        lemma_be_bytes_len(self.high as nat, 8);
        lemma_be_bytes_len(self.low as nat, 8);
    }

    /// The address is ::1.
    pub open spec fn loopback(self) -> bool {
        self.high == 0 && self.low == 1
    }

    /// Builds an address from its eight groups.
    pub fn new(a0: u16, a1: u16, a2: u16, a3: u16, a4: u16, a5: u16, a6: u16, a7: u16) -> (address:
        Ipv6Address)
        ensures
            address.high == a0 * 0x1_0000_0000_0000 + a1 * 0x1_0000_0000 + a2 * 0x1_0000 + a3,
            address.low == a4 * 0x1_0000_0000_0000 + a5 * 0x1_0000_0000 + a6 * 0x1_0000 + a7,
    {
        Ipv6Address {
            high: a0 as u64 * 0x1_0000_0000_0000 + a1 as u64 * 0x1_0000_0000 + a2 as u64 * 0x1_0000
                + a3 as u64,
            low: a4 as u64 * 0x1_0000_0000_0000 + a5 as u64 * 0x1_0000_0000 + a6 as u64 * 0x1_0000
                + a7 as u64,
        }
    }

    /// Reads an address from exactly sixteen octets in network order.
    pub fn from_bytes(data: &[u8]) -> (address: Ipv6Address)
        requires
            data@.len() == 16,
        ensures
            address.high == be_value(data@.subrange(0, 8)),
            address.low == be_value(data@.subrange(8, 16)),
            address.octets() == data@,
    {
        proof {
            be_encode_of_decode(data@.subrange(0, 8));
            be_encode_of_decode(data@.subrange(8, 16));
            assert(data@ =~= data@.subrange(0, 8) + data@.subrange(8, 16));
        }
        Ipv6Address { high: read_be(data, 0, 8), low: read_be(data, 8, 8) }
    }

    /// Appends the sixteen octets in network order.
    pub fn push_to(self, out: &mut Vec<u8>)
        ensures
            final(out)@ == old(out)@ + self.octets(),
    {
        push_be(out, self.high, 8);
        push_be(out, self.low, 8);
        assert(out@ =~= old(out)@ + self.octets());
    }

    /// Whether this is the loopback address ::1.
    pub fn is_loopback(self) -> (r: bool)
        ensures
            r == self.loopback(),
    {
        self.high == 0 && self.low == 1
    }
}

/// An address of either family.
#[derive(Clone, Copy, Debug, PartialEq, Eq, Structural)]
pub enum IpAddress {
    Ipv4(Ipv4Address),
    Ipv6(Ipv6Address),
}

impl IpAddress {
    /// The address is a loopback address of its family.
    pub open spec fn loopback(self) -> bool {
        match self {
            IpAddress::Ipv4(ip) => ip.loopback(),
            IpAddress::Ipv6(ip) => ip.loopback(),
        }
    }

    /// Whether the address is a loopback address of its family.
    pub fn is_loopback(self) -> (r: bool)
        ensures
            r == self.loopback(),
    {
        match self {
            IpAddress::Ipv4(ip) => ip.is_loopback(),
            IpAddress::Ipv6(ip) => ip.is_loopback(),
        }
    }
}

/// The protocol carried by an IP datagram.
#[derive(Clone, Copy, Debug, PartialEq, Eq, Structural)]
pub enum IpProtocol {
    HopByHop,
    Icmp,
    Igmp,
    Tcp,
    Udp,
    Ipv6Route,
    Ipv6Frag,
    Icmpv6,
    Ipv6NoNxt,
    Ipv6Opts,
    Unknown(u8),
}

impl IpProtocol {
    /// The IANA protocol number.
    pub open spec fn spec_number(self) -> u8 {
        match self {
            IpProtocol::HopByHop => 0x00,
            IpProtocol::Icmp => 0x01,
            IpProtocol::Igmp => 0x02,
            IpProtocol::Tcp => 0x06,
            IpProtocol::Udp => 0x11,
            IpProtocol::Ipv6Route => 0x2b,
            IpProtocol::Ipv6Frag => 0x2c,
            IpProtocol::Icmpv6 => 0x3a,
            IpProtocol::Ipv6NoNxt => 0x3b,
            IpProtocol::Ipv6Opts => 0x3c,
            IpProtocol::Unknown(other) => other,
        }
    }

    /// The protocol with a given IANA number.
    pub open spec fn spec_from_number(number: u8) -> IpProtocol {
        match number {
            0x00 => IpProtocol::HopByHop,
            0x01 => IpProtocol::Icmp,
            0x02 => IpProtocol::Igmp,
            0x06 => IpProtocol::Tcp,
            0x11 => IpProtocol::Udp,
            0x2b => IpProtocol::Ipv6Route,
            0x2c => IpProtocol::Ipv6Frag,
            0x3a => IpProtocol::Icmpv6,
            0x3b => IpProtocol::Ipv6NoNxt,
            0x3c => IpProtocol::Ipv6Opts,
            other => IpProtocol::Unknown(other),
        }
    }

    /// Position in the protocol order: the known protocols by number, then the
    /// unknown ones by number.
    pub open spec fn spec_rank(self) -> u16 {
        match self {
            IpProtocol::Unknown(other) => (256 + other) as u16,
            known => known.spec_number() as u16,
        }
    }

    /// The IANA protocol number.
    pub fn number(self) -> (number: u8)
        ensures
            number == self.spec_number(),
    {
        match self {
            IpProtocol::HopByHop => 0x00,
            IpProtocol::Icmp => 0x01,
            IpProtocol::Igmp => 0x02,
            IpProtocol::Tcp => 0x06,
            IpProtocol::Udp => 0x11,
            IpProtocol::Ipv6Route => 0x2b,
            IpProtocol::Ipv6Frag => 0x2c,
            IpProtocol::Icmpv6 => 0x3a,
            IpProtocol::Ipv6NoNxt => 0x3b,
            IpProtocol::Ipv6Opts => 0x3c,
            IpProtocol::Unknown(other) => other,
        }
    }

    /// Position in the protocol order.
    pub fn rank(self) -> (rank: u16)
        ensures
            rank == self.spec_rank(),
    {
        match self {
            IpProtocol::Unknown(other) => 256 + other as u16,
            known => known.number() as u16,
        }
    }
}

impl From<u8> for IpProtocol {
    fn from(number: u8) -> (protocol: IpProtocol) {
        match number {
            0x00 => IpProtocol::HopByHop,
            0x01 => IpProtocol::Icmp,
            0x02 => IpProtocol::Igmp,
            0x06 => IpProtocol::Tcp,
            0x11 => IpProtocol::Udp,
            0x2b => IpProtocol::Ipv6Route,
            0x2c => IpProtocol::Ipv6Frag,
            0x3a => IpProtocol::Icmpv6,
            0x3b => IpProtocol::Ipv6NoNxt,
            0x3c => IpProtocol::Ipv6Opts,
            other => IpProtocol::Unknown(other),
        }
    }
}

impl vstd::std_specs::convert::FromSpecImpl<u8> for IpProtocol {
    open spec fn obeys_from_spec() -> bool {
        true
    }

    open spec fn from_spec(number: u8) -> IpProtocol {
        IpProtocol::spec_from_number(number)
    }
}

/// Reading a protocol number back from the protocol it names gives the same number.
pub proof fn protocol_number_round_trip(number: u8)
    ensures
        IpProtocol::spec_from_number(number).spec_number() == number,
{
}

/// The protocol order tells every two protocols apart.
pub proof fn protocol_rank_is_injective(a: IpProtocol, b: IpProtocol)
    ensures
        a.spec_rank() == b.spec_rank() ==> a == b,
{
}

} // verus!
