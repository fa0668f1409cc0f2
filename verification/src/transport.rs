//! Rewriting the transport part of a packet.

use crate::checksum::{
    be16, be16_bytes, complement_completes_the_sum, folded, lemma_word_sum_splice,
    pseudo_header_sum, splice, word_sum,
};
use crate::ip::{IpAddress, IpProtocol};
use crate::wire::{
    address_octets, fill_tcp_checksum, fill_udp_checksum, same_family, set_tcp_destination_port,
    set_tcp_source_port, set_udp_destination_port, set_udp_source_port, tcp_checksum, tcp_sum,
    tcp_valid, udp_checksum, udp_sum, udp_valid,
};
use vstd::prelude::*;

verus! {

/// The port that a rewrite replaces, and its new value.
#[derive(Debug, Clone, Copy, PartialEq, Eq, Structural)]
pub enum PortRewrite {
    Source(u16),
    Destination(u16),
}

/// A protocol whose ports and checksum are rewritten.
pub open spec fn has_ports(protocol: IpProtocol) -> bool {
    protocol is Tcp || protocol is Udp
}

/// The transport header of the segment is complete and consistent.
pub open spec fn segment_valid(protocol: IpProtocol, segment: Seq<u8>) -> bool {
    match protocol {
        IpProtocol::Udp => udp_valid(segment),
        IpProtocol::Tcp => tcp_valid(segment),
        _ => false,
    }
}

/// `packet` with one port of the transport header at `start` replaced.
pub open spec fn with_port(packet: Seq<u8>, start: int, port: PortRewrite) -> Seq<u8> {
    match port {
        PortRewrite::Source(value) => splice(packet, start, be16_bytes(value as nat)),
        PortRewrite::Destination(value) => splice(packet, start + 2, be16_bytes(value as nat)),
    }
}

/// `packet` with the checksum of the transport segment between `start` and `end` filled
/// in for the given addresses.
pub open spec fn with_checksum(
    packet: Seq<u8>,
    protocol: IpProtocol,
    start: int,
    end: int,
    source: Seq<u8>,
    destination: Seq<u8>,
) -> Seq<u8> {
    let segment = packet.subrange(start, end);
    match protocol {
        IpProtocol::Udp => splice(
            packet,
            start + 6,
            be16_bytes(udp_checksum(segment, source, destination)),
        ),
        IpProtocol::Tcp => splice(
            packet,
            start + 16,
            be16_bytes(tcp_checksum(segment, source, destination)),
        ),
        _ => packet,
    }
}

/// A receiver that knows the two addresses accepts the checksum of the segment.
pub open spec fn checksum_verifies(
    protocol: IpProtocol,
    segment: Seq<u8>,
    source: Seq<u8>,
    destination: Seq<u8>,
) -> bool {
    match protocol {
        IpProtocol::Udp => folded(
            pseudo_header_sum(source, destination, 0x11, be16(segment, 4) as nat) + word_sum(
                segment.subrange(0, be16(segment, 4)),
            ),
        ) == 0xffff,
        IpProtocol::Tcp => folded(
            pseudo_header_sum(source, destination, 0x06, segment.len()) + word_sum(segment),
        ) == 0xffff,
        _ => false,
    }
}

/// A receiver accepts every checksum that is filled in.
pub proof fn filled_checksum_verifies(
    packet: Seq<u8>,
    protocol: IpProtocol,
    start: int,
    end: int,
    source: Seq<u8>,
    destination: Seq<u8>,
)
    requires
        0 <= start <= end <= packet.len(),
        segment_valid(protocol, packet.subrange(start, end)),
    ensures
        checksum_verifies(
            protocol,
            with_checksum(packet, protocol, start, end, source, destination).subrange(start, end),
            source,
            destination,
        ),
{
    let segment = packet.subrange(start, end);
    let filled = with_checksum(packet, protocol, start, end, source, destination).subrange(
        start,
        end,
    );
    if protocol is Udp {
        let sum = udp_sum(segment, source, destination);
        let value = udp_checksum(segment, source, destination);
        let length = be16(segment, 4);
        let covered = splice(segment, 6, be16_bytes(0)).subrange(0, length);
        assert(filled =~= splice(segment, 6, be16_bytes(value)));
        assert(filled.subrange(0, length) =~= splice(covered, 6, be16_bytes(value)));
        lemma_word_sum_splice(covered, 6, value);
        complement_completes_the_sum(sum);
    } else {
        let sum = tcp_sum(segment, source, destination);
        let value = tcp_checksum(segment, source, destination);
        let covered = splice(segment, 16, be16_bytes(0));
        assert(filled =~= splice(covered, 16, be16_bytes(value)));
        lemma_word_sum_splice(covered, 16, value);
        complement_completes_the_sum(sum);
    }
}

/// Replaces one port of the transport header at `start`.
pub(crate) fn set_port(
    packet: &mut [u8],
    protocol: IpProtocol,
    start: usize,
    end: usize,
    port: PortRewrite,
)
    requires
        start <= end <= old(packet)@.len(),
        segment_valid(protocol, old(packet)@.subrange(start as int, end as int)),
    ensures
        final(packet)@ == with_port(old(packet)@, start as int, port),
        segment_valid(protocol, final(packet)@.subrange(start as int, end as int)),
{
    let ghost before = packet@.subrange(start as int, end as int);
    match port {
        PortRewrite::Source(value) => {
            if protocol == IpProtocol::Udp {
                set_udp_source_port(packet, start, value);
            } else {
                set_tcp_source_port(packet, start, value);
            }
        },
        PortRewrite::Destination(value) => {
            if protocol == IpProtocol::Udp {
                set_udp_destination_port(packet, start, value);
            } else {
                set_tcp_destination_port(packet, start, value);
            }
        },
    }
    proof {
        let after = packet@.subrange(start as int, end as int);
        assert(forall|i: int| 4 <= i < end - start ==> after[i] == before[i]);
    }
}

/// Computes the checksum of the transport segment between `start` and `end`.
pub(crate) fn fill_transport_checksum(
    packet: &mut [u8],
    protocol: IpProtocol,
    start: usize,
    end: usize,
    source: IpAddress,
    destination: IpAddress,
)
    requires
        start <= end <= old(packet)@.len(),
        end - start <= 0xffff,
        segment_valid(protocol, old(packet)@.subrange(start as int, end as int)),
        same_family(source, destination),
    ensures
        final(packet)@ == with_checksum(
            old(packet)@,
            protocol,
            start as int,
            end as int,
            address_octets(source),
            address_octets(destination),
        ),
{
    if protocol == IpProtocol::Udp {
        fill_udp_checksum(packet, start, end, source, destination);
    } else {
        fill_tcp_checksum(packet, start, end, source, destination);
    }
}

} // verus!
