//! What the packet callouts need to know of a packet, parsed from one bounded prefix.

use crate::checksum::be16;
use crate::common::{
    ICMPV4_CODE_DU_PORT_UNREACHABLE, ICMPV4_TYPE_DESTINATION_UNREACHABLE,
    ICMPV6_CODE_DU_PORT_UNREACHABLE, ICMPV6_TYPE_DESTINATION_UNREACHABLE,
};
use crate::connection::Direction;
use crate::ip::{IpAddress, IpProtocol};
use crate::ipv6_packet::{spec_walk, walk_ipv6_headers};
use crate::key::Key;
use crate::transport::has_ports;
use crate::wire::{
    ip_version, ipv4_address, ipv4_fragment, ipv4_header_len, ipv4_protocol, ipv4_total_len,
    ipv6_address, ipv6_total_len, read_be16, read_ip_version, read_ipv4_address,
    read_ipv4_header_len, read_ipv4_total_len, read_ipv6_address, read_ipv6_total_len,
    IPV4_HEADER_LEN, IPV6_HEADER_LEN,
};
use vstd::prelude::*;
use vstd::slice::slice_subrange;

verus! {

/// Prefix large enough for the IPv6 base header, the bounded extension-header
/// chain and every transport field inspected by the packet callout.
pub const MAX_PACKET_INSPECT_LEN: usize = 128;

/// Longest IPv4 header.
pub const IPV4_MAX_HEADER_LEN: usize = 60;

/// Length of an ICMP header.
pub const ICMP_HEADER_LEN: usize = 8;

/// Offset of the flags in a TCP header.
pub const TCP_FLAGS_OFFSET: usize = 13;

/// The RST flag of a TCP header.
pub const TCP_RST_FLAG: u8 = 0x04;

/// Why a packet has no metadata.
#[derive(Clone, Copy, Debug, PartialEq, Eq, Structural)]
pub enum PacketMetadataError {
    UnreadablePacket,
    UnresolvedIpv6Headers,
}

impl PacketMetadataError {
    /// Describes the error.
    pub open spec fn spec_message(self) -> &'static str {
        match self {
            PacketMetadataError::UnreadablePacket => "failed to get net_buffer data",
            PacketMetadataError::UnresolvedIpv6Headers => "IPv6 extension header chain did not resolve",
        }
    }

    /// Describes the error.
    pub fn message(self) -> (message: &'static str)
        ensures
            message == self.spec_message(),
    {
        match self {
            PacketMetadataError::UnreadablePacket => "failed to get net_buffer data",
            PacketMetadataError::UnresolvedIpv6Headers => "IPv6 extension header chain did not resolve",
        }
    }
}

/// An ICMP echo request or reply.
#[derive(Clone, Copy, Debug, PartialEq, Eq, Structural)]
pub struct IcmpEcho {
    pub is_request: bool,
    pub identifier: u16,
}

/// What the callouts need to know of a packet.
#[derive(Clone, Copy, Debug, PartialEq, Eq, Structural)]
pub struct PacketMetadata {
    pub key: Key,
    pub icmp_echo: Option<IcmpEcho>,
    pub is_icmp_port_unreachable: bool,
    pub is_tcp_reset: bool,
}

/// Fragment state and metadata of a packet.
#[derive(Clone, Copy, Debug, PartialEq, Eq)]
pub struct PacketInspection {
    pub is_fragment: bool,
    pub metadata: Result<PacketMetadata, PacketMetadataError>,
}

impl PacketInspection {
    /// The inspection of a packet that could not be read.
    pub open spec fn spec_unreadable() -> PacketInspection {
        PacketInspection {
            is_fragment: false,
            metadata: Err(PacketMetadataError::UnreadablePacket),
        }
    }

    /// The inspection of a packet that could not be read.
    pub fn unreadable() -> (inspection: PacketInspection)
        ensures
            inspection == PacketInspection::spec_unreadable(),
    {
        PacketInspection {
            is_fragment: false,
            metadata: Err(PacketMetadataError::UnreadablePacket),
        }
    }
}

/// The bytes from `offset` on, none if the packet is shorter.
pub open spec fn tail(packet: Seq<u8>, offset: int) -> Seq<u8> {
    if offset <= packet.len() {
        packet.subrange(offset, packet.len() as int)
    } else {
        Seq::empty()
    }
}

/// The big-endian 16-bit field at `at`.
pub open spec fn field16(s: Seq<u8>, at: int) -> u16 {
    be16(s, at) as u16
}

/// Source and destination port, zero for a protocol without ports or a short segment.
pub open spec fn spec_ports(transport: Seq<u8>, protocol: IpProtocol) -> (u16, u16) {
    if has_ports(protocol) && transport.len() >= 4 {
        (field16(transport, 0), field16(transport, 2))
    } else {
        (0, 0)
    }
}

/// The tuple of a packet, seen from the local machine.
pub open spec fn spec_build_key(
    direction: Direction,
    protocol: IpProtocol,
    source_address: IpAddress,
    destination_address: IpAddress,
    ports: (u16, u16),
) -> Key {
    let outbound = Key {
        protocol,
        local_address: source_address,
        local_port: ports.0,
        remote_address: destination_address,
        remote_port: ports.1,
    };
    if direction is Outbound {
        outbound
    } else {
        outbound.spec_reverse()
    }
}

/// The message type of an echo request.
pub open spec fn echo_request(ipv6: bool) -> u8 {
    if ipv6 {
        128
    } else {
        8
    }
}

/// The message type of an echo reply.
pub open spec fn echo_reply(ipv6: bool) -> u8 {
    if ipv6 {
        129
    } else {
        0
    }
}

/// The echo message that an ICMP header announces.
pub open spec fn spec_icmp_echo(transport: Seq<u8>, ipv6: bool) -> Option<IcmpEcho> {
    if transport.len() >= 6 && (transport[0] == echo_request(ipv6) || transport[0] == echo_reply(
        ipv6,
    )) {
        Some(
            IcmpEcho {
                is_request: transport[0] == echo_request(ipv6),
                identifier: field16(transport, 4),
            },
        )
    } else {
        None
    }
}

/// The TCP header at `offset` has the RST flag.
pub open spec fn spec_tcp_reset(packet: Seq<u8>, offset: int) -> bool {
    offset + 13 < packet.len() && packet[offset + 13] / 4 % 2 == 1
}

/// The message type and code of a port-unreachable message.
pub open spec fn unreachable_numbers(ipv6: bool) -> (u8, u8) {
    if ipv6 {
        (1, 4)
    } else {
        (3, 3)
    }
}

/// The ICMP header at `offset` lies within the packet and its stated length, and says
/// that a port is unreachable.
pub open spec fn spec_port_unreachable(
    packet: Seq<u8>,
    offset: int,
    total_len: int,
    ipv6: bool,
) -> bool {
    &&& offset + 8 <= total_len
    &&& offset + 8 <= packet.len()
    &&& (packet[offset], packet[offset + 1]) == unreachable_numbers(ipv6)
}

/// The inspection of an IPv4 packet.
pub open spec fn spec_inspect_ipv4(packet: Seq<u8>, direction: Direction) -> PacketInspection {
    if packet.len() < 20 {
        PacketInspection::spec_unreadable()
    } else if packet.len() < 24 {
        PacketInspection {
            is_fragment: ipv4_fragment(packet),
            metadata: Err(PacketMetadataError::UnreadablePacket),
        }
    } else {
        let protocol = ipv4_protocol(packet);
        let offset = ipv4_header_len(packet);
        let transport = tail(
            packet,
            if offset < 20 {
                20
            } else {
                offset
            },
        );
        PacketInspection {
            is_fragment: ipv4_fragment(packet),
            metadata: Ok(
                PacketMetadata {
                    key: spec_build_key(
                        direction,
                        protocol,
                        IpAddress::Ipv4(ipv4_address(packet, 12)),
                        IpAddress::Ipv4(ipv4_address(packet, 16)),
                        spec_ports(transport, protocol),
                    ),
                    icmp_echo: if protocol is Icmp && transport.len() >= 8 {
                        spec_icmp_echo(transport, false)
                    } else {
                        None
                    },
                    is_icmp_port_unreachable: {
                        &&& direction is Outbound
                        &&& protocol is Icmp
                        &&& ip_version(packet) == 4
                        &&& offset >= 20
                        &&& spec_port_unreachable(
                            packet,
                            offset,
                            ipv4_total_len(packet),
                            false,
                        )
                    },
                    is_tcp_reset: {
                        &&& direction is Outbound
                        &&& protocol is Tcp
                        &&& offset >= 20
                        &&& spec_tcp_reset(packet, offset)
                    },
                },
            ),
        }
    }
}

/// The inspection of an IPv6 packet.
pub open spec fn spec_inspect_ipv6(packet: Seq<u8>, direction: Direction) -> PacketInspection {
    let headers = spec_walk(packet);
    if packet.len() < 40 {
        PacketInspection::spec_unreadable()
    } else if !headers.resolved {
        PacketInspection {
            is_fragment: headers.is_fragment,
            metadata: Err(PacketMetadataError::UnresolvedIpv6Headers),
        }
    } else {
        let protocol = headers.protocol;
        let offset = headers.start();
        let transport = tail(packet, offset);
        PacketInspection {
            is_fragment: headers.is_fragment,
            metadata: Ok(
                PacketMetadata {
                    key: spec_build_key(
                        direction,
                        protocol,
                        IpAddress::Ipv6(ipv6_address(packet, 8)),
                        IpAddress::Ipv6(ipv6_address(packet, 24)),
                        spec_ports(transport, protocol),
                    ),
                    icmp_echo: if protocol is Icmpv6 {
                        spec_icmp_echo(transport, true)
                    } else {
                        None
                    },
                    is_icmp_port_unreachable: {
                        &&& direction is Outbound
                        &&& protocol is Icmpv6
                        &&& ip_version(packet) == 6
                        &&& offset <= 128
                        &&& spec_port_unreachable(
                            packet,
                            offset,
                            ipv6_total_len(packet),
                            true,
                        )
                    },
                    is_tcp_reset: {
                        &&& direction is Outbound
                        &&& protocol is Tcp
                        &&& spec_tcp_reset(packet, offset)
                    },
                },
            ),
        }
    }
}

/// The inspection of a packet.
pub open spec fn spec_inspect(packet: Seq<u8>, ipv6: bool, direction: Direction) -> PacketInspection {
    if ipv6 {
        spec_inspect_ipv6(packet, direction)
    } else {
        spec_inspect_ipv4(packet, direction)
    }
}

/// Parses every field needed by the packet callout from one bounded prefix.
///
/// Fragment state is returned independently from the remaining metadata. This
/// preserves the packet-layer rule that an identifiable individual fragment is
/// permitted even when it is too short to produce a connection key.
pub fn inspect_packet(packet: &[u8], ipv6: bool, direction: Direction) -> (inspection:
    PacketInspection)
    ensures
        inspection == spec_inspect(packet@, ipv6, direction),
{
    if ipv6 {
        inspect_ipv6_packet(packet, direction)
    } else {
        inspect_ipv4_packet(packet, direction)
    }
}

fn bytes_from(packet: &[u8], offset: usize) -> (bytes: &[u8])
    ensures
        bytes@ == tail(packet@, offset as int),
{
    if offset <= packet.len() {
        slice_subrange(packet, offset, packet.len())
    } else {
        let none: &[u8] = &[];
        assert(none@ =~= Seq::empty());
        none
    }
}

fn inspect_ipv4_packet(packet: &[u8], direction: Direction) -> (inspection: PacketInspection)
    ensures
        inspection == spec_inspect_ipv4(packet@, direction),
{
    if packet.len() < IPV4_HEADER_LEN {
        return PacketInspection::unreadable();
    }
    let is_fragment: bool = read_be16(packet, 6) % 0x4000 != 0;
    // Four bytes beyond the base header must be readable even for a protocol that does
    // not use ports.
    if packet.len() < IPV4_HEADER_LEN + 4 {
        return PacketInspection {
            is_fragment,
            metadata: Err(PacketMetadataError::UnreadablePacket),
        };
    }
    let protocol = IpProtocol::from(packet[9]);
    let raw_transport_offset: usize = read_ipv4_header_len(packet);
    let transport_offset: usize = if raw_transport_offset < IPV4_HEADER_LEN {
        IPV4_HEADER_LEN
    } else {
        raw_transport_offset
    };
    let transport = bytes_from(packet, transport_offset);
    let key = build_key(
        direction,
        protocol,
        IpAddress::Ipv4(read_ipv4_address(packet, 12)),
        IpAddress::Ipv4(read_ipv4_address(packet, 16)),
        get_ports(transport, protocol),
    );
    // The complete ICMP header is required, though the identifier ends at byte six.
    let icmp_echo = if protocol == IpProtocol::Icmp && transport.len() >= ICMP_HEADER_LEN {
        get_icmp_echo(transport, false)
    } else {
        None
    };
    let outbound: bool = direction == Direction::Outbound;
    let is_icmp_port_unreachable: bool = outbound && protocol == IpProtocol::Icmp
        && read_ip_version(packet) == 4 && raw_transport_offset >= IPV4_HEADER_LEN
        && is_port_unreachable(
        packet,
        raw_transport_offset,
        read_ipv4_total_len(packet),
        false,
    );
    let is_tcp_reset: bool = outbound && protocol == IpProtocol::Tcp && raw_transport_offset
        >= IPV4_HEADER_LEN && has_tcp_reset(packet, raw_transport_offset);
    PacketInspection {
        is_fragment,
        metadata: Ok(PacketMetadata { key, icmp_echo, is_icmp_port_unreachable, is_tcp_reset }),
    }
}

fn inspect_ipv6_packet(packet: &[u8], direction: Direction) -> (inspection: PacketInspection)
    ensures
        inspection == spec_inspect_ipv6(packet@, direction),
{
    if packet.len() < IPV6_HEADER_LEN {
        return PacketInspection::unreadable();
    }
    let headers = walk_ipv6_headers(packet);
    if !headers.resolved {
        return PacketInspection {
            is_fragment: headers.is_fragment,
            metadata: Err(PacketMetadataError::UnresolvedIpv6Headers),
        };
    }
    let transport = bytes_from(packet, headers.transport_offset);
    let key = build_key(
        direction,
        headers.protocol,
        IpAddress::Ipv6(read_ipv6_address(packet, 8)),
        IpAddress::Ipv6(read_ipv6_address(packet, 24)),
        get_ports(transport, headers.protocol),
    );
    let icmp_echo = if headers.protocol == IpProtocol::Icmpv6 {
        get_icmp_echo(transport, true)
    } else {
        None
    };
    let outbound: bool = direction == Direction::Outbound;
    let total_len: usize = read_ipv6_total_len(packet);
    let is_icmp_port_unreachable: bool = outbound && headers.protocol == IpProtocol::Icmpv6
        && read_ip_version(packet) == 6 && headers.transport_offset <= MAX_PACKET_INSPECT_LEN
        && is_port_unreachable(packet, headers.transport_offset, total_len, true);
    let is_tcp_reset: bool = outbound && headers.protocol == IpProtocol::Tcp && has_tcp_reset(
        packet,
        headers.transport_offset,
    );
    PacketInspection {
        is_fragment: headers.is_fragment,
        metadata: Ok(PacketMetadata { key, icmp_echo, is_icmp_port_unreachable, is_tcp_reset }),
    }
}

/// Builds the tuple of a packet, seen from the local machine.
pub fn build_key(
    direction: Direction,
    protocol: IpProtocol,
    source_address: IpAddress,
    destination_address: IpAddress,
    ports: (u16, u16),
) -> (key: Key)
    ensures
        key == spec_build_key(direction, protocol, source_address, destination_address, ports),
{
    let (source_port, destination_port) = ports;
    match direction {
        Direction::Outbound => Key {
            protocol,
            local_address: source_address,
            local_port: source_port,
            remote_address: destination_address,
            remote_port: destination_port,
        },
        Direction::Inbound => Key {
            protocol,
            local_address: destination_address,
            local_port: destination_port,
            remote_address: source_address,
            remote_port: source_port,
        },
    }
}

/// Reads source and destination port of a transport segment.
pub fn get_ports(transport: &[u8], protocol: IpProtocol) -> (ports: (u16, u16))
    ensures
        ports == spec_ports(transport@, protocol),
{
    let with_ports: bool = match protocol {
        IpProtocol::Tcp | IpProtocol::Udp => true,
        _ => false,
    };
    if !with_ports || transport.len() < 4 {
        return (0, 0);
    }
    (read_be16(transport, 0), read_be16(transport, 2))
}

/// Reads an ICMP echo header.
pub fn get_icmp_echo(transport: &[u8], ipv6: bool) -> (echo: Option<IcmpEcho>)
    ensures
        echo == spec_icmp_echo(transport@, ipv6),
{
    if transport.len() < 6 {
        return None;
    }
    let message_type: u8 = transport[0];
    let is_request: bool = if ipv6 {
        message_type == 128
    } else {
        message_type == 8
    };
    let is_reply: bool = if ipv6 {
        message_type == 129
    } else {
        message_type == 0
    };
    if !is_request && !is_reply {
        return None;
    }
    Some(IcmpEcho { is_request, identifier: read_be16(transport, 4) })
}

/// Whether the TCP header at `transport_offset` has the RST flag.
pub fn has_tcp_reset(packet: &[u8], transport_offset: usize) -> (r: bool)
    ensures
        r == spec_tcp_reset(packet@, transport_offset as int),
{
    if packet.len() < TCP_FLAGS_OFFSET || transport_offset >= packet.len() - TCP_FLAGS_OFFSET {
        return false;
    }
    packet[transport_offset + TCP_FLAGS_OFFSET] / TCP_RST_FLAG % 2 == 1
}

/// Whether the ICMP header at `transport_offset` says that a port is unreachable.
pub fn is_port_unreachable(
    packet: &[u8],
    transport_offset: usize,
    total_len: usize,
    ipv6: bool,
) -> (r: bool)
    ensures
        r == spec_port_unreachable(packet@, transport_offset as int, total_len as int, ipv6),
{
    if packet.len() < ICMP_HEADER_LEN || transport_offset > packet.len() - ICMP_HEADER_LEN {
        return false;
    }
    if total_len < transport_offset + ICMP_HEADER_LEN {
        return false;
    }
    let (message_type, code): (u8, u8) = if ipv6 {
        (ICMPV6_TYPE_DESTINATION_UNREACHABLE, ICMPV6_CODE_DU_PORT_UNREACHABLE)
    } else {
        (ICMPV4_TYPE_DESTINATION_UNREACHABLE, ICMPV4_CODE_DU_PORT_UNREACHABLE)
    };
    packet[transport_offset] == message_type && packet[transport_offset + 1] == code
}

/// A reply to an outbound packet, inspected inbound, has the tuple of the outbound one.
pub proof fn both_directions_share_the_key(
    protocol: IpProtocol,
    source_address: IpAddress,
    destination_address: IpAddress,
    ports: (u16, u16),
)
    ensures
        spec_build_key(
            Direction::Inbound,
            protocol,
            destination_address,
            source_address,
            (ports.1, ports.0),
        ) == spec_build_key(
            Direction::Outbound,
            protocol,
            source_address,
            destination_address,
            ports,
        ),
{
}

} // verus!
