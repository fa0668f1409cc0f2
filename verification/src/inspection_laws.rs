//! What the inspection of a packet reads from its bytes.

use crate::bytes::{lemma_byte_ranges, lemma_value_range};
use crate::connection::Direction;
use crate::ip::{IpAddress, IpProtocol};
use crate::ipv6_packet::{follow, marks_fragment, marks_routing, spec_walk};
use crate::key::Key;
use crate::packet_metadata::{spec_inspect, PacketMetadata};
use crate::record_laws::{holds_ipv4, holds_ipv6};
use crate::wire::{ipv4_address, ipv6_address};
use vstd::prelude::*;

verus! {

/// The two bytes at `at` as a number in network order.
pub open spec fn word(packet: Seq<u8>, at: int) -> int {
    packet[at] * 256 + packet[at + 1]
}

/// The protocol is the one that the number names.
pub open spec fn named_by(protocol: IpProtocol, number: u8) -> bool {
    &&& protocol is Tcp <==> number == 6
    &&& protocol is Udp <==> number == 17
    &&& protocol is Icmp <==> number == 1
    &&& protocol is Icmpv6 <==> number == 58
    &&& protocol is HopByHop <==> number == 0
    &&& protocol is Ipv6Route <==> number == 43
    &&& protocol is Ipv6Frag <==> number == 44
    &&& protocol is Ipv6Opts <==> number == 60
}

/// Every number names its protocol, and every protocol is written as its number.
pub proof fn protocols_have_their_numbers(number: u8, protocol: IpProtocol)
    ensures
        named_by(IpProtocol::spec_from_number(number), number),
        IpProtocol::spec_from_number(number).spec_number() == number,
        !(protocol is Unknown) ==> named_by(protocol, protocol.spec_number())
            && IpProtocol::spec_from_number(protocol.spec_number()) == protocol,
{
}

/// The ports of a tuple are those of the segment at `start`: the source port is the local one
/// of a packet that leaves, and the remote one of a packet that comes in. A protocol without
/// ports, or a segment too short for them, has none.
pub open spec fn takes_ports(packet: Seq<u8>, key: Key, direction: Direction, start: int) -> bool {
    if (key.protocol is Tcp || key.protocol is Udp) && start + 4 <= packet.len() {
        match direction {
            Direction::Outbound => key.local_port == word(packet, start) && key.remote_port
                == word(packet, start + 2),
            Direction::Inbound => key.remote_port == word(packet, start) && key.local_port
                == word(packet, start + 2),
        }
    } else {
        key.local_port == 0 && key.remote_port == 0
    }
}

/// What is read of the messages that need no connection: echoes are told by their type, and
/// carry their identifier; resets and unreachable ports count only where this machine sends
/// them.
pub open spec fn takes_messages(
    packet: Seq<u8>,
    m: PacketMetadata,
    direction: Direction,
    start: int,
    stated_len: int,
    ipv6: bool,
) -> bool {
    let carries_errors = if ipv6 {
        m.key.protocol is Icmpv6
    } else {
        m.key.protocol is Icmp
    };
    let (request, reply): (u8, u8) = if ipv6 {
        (128, 129)
    } else {
        (8, 0)
    };
    let unreachable: (u8, u8) = if ipv6 {
        (1, 4)
    } else {
        (3, 3)
    };
    &&& m.is_tcp_reset <==> direction is Outbound && m.key.protocol is Tcp && start + 14
        <= packet.len() && packet[start + 13] / 4 % 2 == 1
    &&& m.is_icmp_port_unreachable <==> direction is Outbound && carries_errors && start + 8
        <= packet.len() && start + 8 <= stated_len && (packet[start], packet[start + 1])
        == unreachable
    &&& start + 8 <= packet.len() ==> (m.icmp_echo is Some <==> carries_errors && (packet[start]
        == request || packet[start] == reply))
    &&& m.icmp_echo matches Some(echo) ==> carries_errors && start + 6 <= packet.len()
        && echo.is_request == (packet[start] == request) && echo.identifier == word(
        packet,
        start + 4,
    )
}

/// The address that is read at `at` is the one whose octets stand there.
pub proof fn lemma_ipv4_at(packet: Seq<u8>, at: int)
    requires
        0 <= at <= at + 4 <= packet.len(),
    ensures
        holds_ipv4(packet.subrange(at, at + 4), ipv4_address(packet, at)),
{
    lemma_byte_ranges();
    lemma_value_range(packet.subrange(at, at + 4));
}

/// The address that is read at `at` is the one whose octets stand there.
pub proof fn lemma_ipv6_at(packet: Seq<u8>, at: int)
    requires
        0 <= at <= at + 16 <= packet.len(),
    ensures
        holds_ipv6(packet.subrange(at, at + 16), ipv6_address(packet, at)),
{
    lemma_byte_ranges();
    lemma_value_range(packet.subrange(at, at + 8));
    lemma_value_range(packet.subrange(at + 8, at + 16));
    let field = packet.subrange(at, at + 16);
    assert(field.subrange(0, 8) =~= packet.subrange(at, at + 8));
    assert(field.subrange(8, 16) =~= packet.subrange(at + 8, at + 16));
}

/// An IPv4 packet is told by its own header: the source address and port are the local ones
/// of a packet that leaves and the remote ones of a packet that comes in. Its transport header
/// stands behind the options. A fragment is told by its offset or by more that follow it.
pub proof fn ipv4_inspection_reads_the_header(packet: Seq<u8>, direction: Direction)
    requires
        packet.len() >= 24,
        4 * (packet[0] % 16) >= 20,
        packet[0] / 16 == 4,
    ensures
        ({
            let inspection = spec_inspect(packet, false, direction);
            let start = 4 * (packet[0] % 16);
            &&& inspection.is_fragment <==> packet[6] % 64 != 0 || packet[7] != 0
            &&& inspection.metadata matches Ok(m) && {
                &&& named_by(m.key.protocol, packet[9])
                &&& (match (m.key.local_address, m.key.remote_address) {
                    (IpAddress::Ipv4(local), IpAddress::Ipv4(remote)) => match direction {
                        Direction::Outbound => holds_ipv4(packet.subrange(12, 16), local)
                            && holds_ipv4(packet.subrange(16, 20), remote),
                        Direction::Inbound => holds_ipv4(packet.subrange(12, 16), remote)
                            && holds_ipv4(packet.subrange(16, 20), local),
                    },
                    _ => false,
                })
                &&& takes_ports(packet, m.key, direction, start)
                &&& takes_messages(packet, m, direction, start, word(packet, 2), false)
            }
        }),
{
    lemma_ipv4_at(packet, 12);
    lemma_ipv4_at(packet, 16);
    let start = 4 * (packet[0] % 16);
    if start <= packet.len() {
        let transport = packet.subrange(start, packet.len() as int);
        assert(forall|i: int| 0 <= i < transport.len() ==> #[trigger] transport[i] == packet[start
            + i]);
    }
}

/// A packet that is too short for its header has no tuple, and is not taken for a fragment.
pub proof fn short_packet_has_no_tuple(packet: Seq<u8>, direction: Direction)
    ensures
        packet.len() < 24 ==> spec_inspect(packet, false, direction).metadata is Err,
        packet.len() < 20 ==> !spec_inspect(packet, false, direction).is_fragment,
        packet.len() < 40 ==> spec_inspect(packet, true, direction).metadata is Err
            && !spec_inspect(packet, true, direction).is_fragment,
{
}

/// The numbers of the headers behind which another header stands.
pub open spec fn extends(number: u8) -> bool {
    number == 0 || number == 43 || number == 44 || number == 60
}

/// The length of the extension header at `offset`: a fragment header has eight bytes, any
/// other states its length in units of eight bytes, the first not counted.
pub open spec fn extension_size(packet: Seq<u8>, number: u8, offset: int) -> int {
    if number == 44 {
        8
    } else {
        8 * (packet[offset + 1] + 1)
    }
}

/// From the header `number` at `offset`, `count` complete extension headers lead to the
/// upper-layer header `last` at `end`.
pub open spec fn leads_to(
    packet: Seq<u8>,
    number: u8,
    offset: int,
    count: nat,
    last: u8,
    end: int,
) -> bool
    decreases count,
{
    if count == 0 {
        !extends(number) && last == number && end == offset
    } else {
        &&& extends(number)
        &&& offset + 8 <= packet.len()
        &&& offset + extension_size(packet, number, offset) <= packet.len()
        &&& leads_to(
            packet,
            packet[offset],
            offset + extension_size(packet, number, offset),
            (count - 1) as nat,
            last,
            end,
        )
    }
}

/// Among `count` extension headers from `offset` on is one of a fragment: its offset is not
/// zero, or more fragments follow.
pub open spec fn fragmented(packet: Seq<u8>, number: u8, offset: int, count: nat) -> bool
    decreases count,
{
    count > 0 && ((number == 44 && (packet[offset + 2] != 0 || packet[offset + 3] / 8 != 0
        || packet[offset + 3] % 2 == 1)) || fragmented(
        packet,
        packet[offset],
        offset + extension_size(packet, number, offset),
        (count - 1) as nat,
    ))
}

/// Among `count` extension headers from `offset` on is one that routes the packet further.
pub open spec fn routed(packet: Seq<u8>, number: u8, offset: int, count: nat) -> bool
    decreases count,
{
    count > 0 && ((number == 43 && packet[offset + 3] != 0) || routed(
        packet,
        packet[offset],
        offset + extension_size(packet, number, offset),
        (count - 1) as nat,
    ))
}

proof fn lemma_follow_leads(
    packet: Seq<u8>,
    number: u8,
    offset: int,
    count: nat,
    left: nat,
    last: u8,
    end: int,
    fragment: bool,
    routing: bool,
)
    requires
        leads_to(packet, number, offset, count, last, end),
        0 <= offset <= packet.len() <= usize::MAX,
        count <= left,
    ensures
        ({
            let walk = follow(
                packet,
                IpProtocol::spec_from_number(number),
                offset,
                left,
                fragment,
                routing,
            );
            &&& walk.resolved
            &&& walk.protocol == IpProtocol::spec_from_number(last)
            &&& walk.transport_offset == end
            &&& walk.is_fragment == (fragment || fragmented(packet, number, offset, count))
            &&& walk.active_routing_header == (routing || routed(packet, number, offset, count))
        }),
        offset <= end <= packet.len(),
    decreases count,
{
    if count > 0 {
        let protocol = IpProtocol::spec_from_number(number);
        let tail = packet.subrange(offset, packet.len() as int);
        assert(tail[1] == packet[offset + 1]);
        lemma_follow_leads(
            packet,
            packet[offset],
            offset + extension_size(packet, number, offset),
            (count - 1) as nat,
            (left - 1) as nat,
            last,
            end,
            fragment || marks_fragment(packet, protocol, offset),
            routing || marks_routing(packet, protocol, offset),
        );
    }
}

/// The walk over at most eight extension headers ends at the upper-layer header behind them,
/// and tells whether the packet is a fragment and whether it is routed further.
pub proof fn walk_finds_the_upper_layer(packet: Seq<u8>, count: nat, last: u8, end: int)
    requires
        40 <= packet.len() <= usize::MAX,
        count <= 8,
        leads_to(packet, packet[6], 40, count, last, end),
    ensures
        ({
            let walk = spec_walk(packet);
            &&& walk.resolved
            &&& named_by(walk.protocol, last)
            &&& walk.transport_offset == end
            &&& walk.is_fragment <==> fragmented(packet, packet[6], 40, count)
            &&& walk.active_routing_header <==> routed(packet, packet[6], 40, count)
        }),
        40 <= end <= packet.len(),
{
    lemma_follow_leads(packet, packet[6], 40, count, 8, last, end, false, false);
}

/// An IPv6 packet is told by its base header and by the upper-layer header behind its
/// extension headers: the source address and port are the local ones of a packet that leaves
/// and the remote ones of a packet that comes in.
pub proof fn ipv6_inspection_reads_the_headers(
    packet: Seq<u8>,
    direction: Direction,
    count: nat,
    last: u8,
    start: int,
)
    requires
        40 <= packet.len() <= usize::MAX,
        packet[0] / 16 == 6,
        count <= 8,
        leads_to(packet, packet[6], 40, count, last, start),
        start <= 128,
    ensures
        ({
            let inspection = spec_inspect(packet, true, direction);
            &&& inspection.is_fragment <==> fragmented(packet, packet[6], 40, count)
            &&& inspection.metadata matches Ok(m) && {
                &&& named_by(m.key.protocol, last)
                &&& (match (m.key.local_address, m.key.remote_address) {
                    (IpAddress::Ipv6(local), IpAddress::Ipv6(remote)) => match direction {
                        Direction::Outbound => holds_ipv6(packet.subrange(8, 24), local)
                            && holds_ipv6(packet.subrange(24, 40), remote),
                        Direction::Inbound => holds_ipv6(packet.subrange(8, 24), remote)
                            && holds_ipv6(packet.subrange(24, 40), local),
                    },
                    _ => false,
                })
                &&& takes_ports(packet, m.key, direction, start)
                &&& takes_messages(packet, m, direction, start, 40 + word(packet, 4), true)
            }
        }),
{
    walk_finds_the_upper_layer(packet, count, last, start);
    lemma_follow_leads(packet, packet[6], 40, count, 8, last, start, false, false);
    lemma_ipv6_at(packet, 8);
    lemma_ipv6_at(packet, 24);
    let transport = packet.subrange(start, packet.len() as int);
    assert(forall|i: int|
        0 <= i < transport.len() ==> #[trigger] transport[i] == packet[start + i]);
}

/// A tuple is one of this machine alone where its local address is a loopback address, or
/// where both addresses are the same.
pub proof fn loopback_is_told_by_the_addresses(key: Key)
    ensures
        key.spec_is_loopback() <==> (match key.local_address {
            IpAddress::Ipv4(ip) => 0x7f00_0000 <= ip.0 < 0x8000_0000,
            IpAddress::Ipv6(ip) => ip.high == 0 && ip.low == 1,
        }),
        key.spec_is_loopback_like() <==> key.spec_is_loopback() || key.local_address
            == key.remote_address,
        key.spec_is_ipv6() <==> key.local_address is Ipv6,
        ({
            let other = key.spec_reverse();
            &&& other.protocol == key.protocol
            &&& (other.local_address, other.local_port) == (key.remote_address, key.remote_port)
            &&& (other.remote_address, other.remote_port) == (key.local_address, key.local_port)
        }),
{
}

} // verus!
