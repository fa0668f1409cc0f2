//! Recognition of ICMP port-unreachable messages.

use crate::ip::IpProtocol;
use crate::ipv6_packet::{spec_walk, walk_ipv6_headers};
use crate::packet_metadata::{is_port_unreachable, spec_port_unreachable};
use crate::wire::{
    ip_version, ipv4_header_len, ipv4_protocol, ipv4_total_len, ipv6_total_len, read_ip_version,
    read_ipv4_header_len, read_ipv4_total_len, read_ipv6_total_len, IPV4_HEADER_LEN,
    IPV6_HEADER_LEN,
};
use vstd::prelude::*;

verus! {

/// The packet is a complete ICMPv4 port-unreachable message.
pub open spec fn icmpv4_port_unreachable(packet: Seq<u8>) -> bool {
    &&& packet.len() >= 20
    &&& ip_version(packet) == 4
    &&& ipv4_protocol(packet) is Icmp
    &&& ipv4_header_len(packet) >= 20
    &&& spec_port_unreachable(
        packet,
        ipv4_header_len(packet),
        ipv4_total_len(packet),
        false,
    )
}

/// The packet is a complete ICMPv6 port-unreachable message behind a resolved chain of
/// extension headers.
pub open spec fn icmpv6_port_unreachable(packet: Seq<u8>) -> bool {
    let headers = spec_walk(packet);
    &&& packet.len() >= 40
    &&& ip_version(packet) == 6
    &&& headers.resolved
    &&& headers.protocol is Icmpv6
    &&& spec_port_unreachable(
        packet,
        headers.start(),
        ipv6_total_len(packet),
        true,
    )
}

/// Returns true for an ICMP Destination Unreachable / Port Unreachable packet.
///
/// `packet` starts at the IP header. IPv4 options and IPv6 extension headers are
/// followed before the ICMP type and code are inspected. Short, malformed and
/// unresolved packets are not accepted by this fast path.
pub fn is_icmp_port_unreachable(packet: &[u8], ipv6: bool) -> (r: bool)
    ensures
        r == if ipv6 {
            icmpv6_port_unreachable(packet@)
        } else {
            icmpv4_port_unreachable(packet@)
        },
{
    if ipv6 {
        return is_icmpv6_port_unreachable(packet);
    }
    is_icmpv4_port_unreachable(packet)
}

fn is_icmpv4_port_unreachable(packet: &[u8]) -> (r: bool)
    ensures
        r == icmpv4_port_unreachable(packet@),
{
    if packet.len() < IPV4_HEADER_LEN {
        return false;
    }
    if read_ip_version(packet) != 4 || IpProtocol::from(packet[9]) != IpProtocol::Icmp {
        return false;
    }
    let transport_offset: usize = read_ipv4_header_len(packet);
    if transport_offset < IPV4_HEADER_LEN {
        return false;
    }
    is_port_unreachable(packet, transport_offset, read_ipv4_total_len(packet), false)
}

fn is_icmpv6_port_unreachable(packet: &[u8]) -> (r: bool)
    ensures
        r == icmpv6_port_unreachable(packet@),
{
    if packet.len() < IPV6_HEADER_LEN {
        return false;
    }
    if read_ip_version(packet) != 6 {
        return false;
    }
    let headers = walk_ipv6_headers(packet);
    if !headers.resolved || headers.protocol != IpProtocol::Icmpv6 {
        return false;
    }
    let total_len: usize = read_ipv6_total_len(packet);
    is_port_unreachable(packet, headers.transport_offset, total_len, true)
}

} // verus!
