//! IP and transport headers as byte ranges.
//!
//! Single fields are read here. What smoltcp validates, sets and computes is called
//! through the small functions at the end of the file; each says of the bytes exactly
//! what the call does to them.

use crate::bytes::be_value;
use crate::checksum::{be16, be16_bytes, complemented, pseudo_header_sum, splice, word_sum};
use crate::ip::{IpAddress, IpProtocol, Ipv4Address, Ipv6Address};
use smoltcp::wire as smol;
use vstd::prelude::*;
use vstd::slice::slice_subrange;

verus! {

/// Length of an IPv4 header without options.
pub const IPV4_HEADER_LEN: usize = 20;

/// Length of the IPv6 base header.
pub const IPV6_HEADER_LEN: usize = 40;

/// Version of an IP packet.
pub open spec fn ip_version(packet: Seq<u8>) -> int {
    packet[0] as int / 16
}

/// Header length that an IPv4 packet states, options included.
pub open spec fn ipv4_header_len(packet: Seq<u8>) -> int {
    (packet[0] % 16) * 4
}

/// Packet length that an IPv4 packet states.
pub open spec fn ipv4_total_len(packet: Seq<u8>) -> int {
    be16(packet, 2)
}

/// The packet is one fragment of several: More Fragments is set or the offset is not
/// zero.
pub open spec fn ipv4_fragment(packet: Seq<u8>) -> bool {
    be16(packet, 6) % 0x4000 != 0
}

/// Protocol that an IPv4 packet carries.
pub open spec fn ipv4_protocol(packet: Seq<u8>) -> IpProtocol {
    IpProtocol::spec_from_number(packet[9])
}

/// The lengths in the packet are consistent with each other and with its size.
pub open spec fn ipv4_valid(packet: Seq<u8>) -> bool {
    &&& packet.len() >= 20
    &&& ipv4_header_len(packet) <= ipv4_total_len(packet) <= packet.len()
}

/// Payload length that an IPv6 packet states.
pub open spec fn ipv6_payload_len(packet: Seq<u8>) -> int {
    be16(packet, 4)
}

/// Packet length that an IPv6 packet states.
pub open spec fn ipv6_total_len(packet: Seq<u8>) -> int {
    40 + ipv6_payload_len(packet)
}

/// The base header is complete and the stated payload is there.
pub open spec fn ipv6_valid(packet: Seq<u8>) -> bool {
    packet.len() >= 40 && ipv6_total_len(packet) <= packet.len()
}

/// The IPv4 address whose octets stand at `at`.
pub open spec fn ipv4_address(packet: Seq<u8>, at: int) -> Ipv4Address {
    Ipv4Address(be_value(packet.subrange(at, at + 4)) as u32)
}

/// The IPv6 address whose octets stand at `at`.
pub open spec fn ipv6_address(packet: Seq<u8>, at: int) -> Ipv6Address {
    Ipv6Address {
        high: be_value(packet.subrange(at, at + 8)) as u64,
        low: be_value(packet.subrange(at + 8, at + 16)) as u64,
    }
}

/// The octets of `address` stand at `at`.
pub open spec fn ipv4_address_at(packet: Seq<u8>, at: int, address: Ipv4Address) -> bool {
    address.octets() == packet.subrange(at, at + 4)
}

/// The octets of `address` stand at `at`.
pub open spec fn ipv6_address_at(packet: Seq<u8>, at: int, address: Ipv6Address) -> bool {
    address.octets() == packet.subrange(at, at + 16)
}

/// Octets of an address of either family.
pub open spec fn address_octets(address: IpAddress) -> Seq<u8> {
    match address {
        IpAddress::Ipv4(ip) => ip.octets(),
        IpAddress::Ipv6(ip) => ip.octets(),
    }
}

/// The addresses belong to one family.
pub open spec fn same_family(a: IpAddress, b: IpAddress) -> bool {
    a is Ipv4 <==> b is Ipv4
}

/// An extension header in its general form is complete.
pub open spec fn extension_valid(data: Seq<u8>) -> bool {
    data.len() >= 8 && (data[1] + 1) * 8 <= data.len()
}

/// A UDP datagram states a length that covers its header and fits the segment.
pub open spec fn udp_valid(segment: Seq<u8>) -> bool {
    segment.len() >= 8 && 8 <= be16(segment, 4) <= segment.len()
}

/// A TCP segment states a header length that covers the fixed part and fits.
pub open spec fn tcp_valid(segment: Seq<u8>) -> bool {
    segment.len() >= 20 && 20 <= (segment[12] as nat / 16) * 4 <= segment.len()
}

/// The checksum of an IPv4 header: the header's words with a zero checksum field.
pub open spec fn ipv4_checksum(packet: Seq<u8>) -> nat {
    complemented(
        word_sum(
            splice(packet, 10, be16_bytes(0)).subrange(0, ipv4_header_len(packet)),
        ),
    )
}

/// The words that a UDP checksum covers, with a zero checksum field.
pub open spec fn udp_sum(segment: Seq<u8>, source: Seq<u8>, destination: Seq<u8>) -> nat {
    let length = be16(segment, 4);
    pseudo_header_sum(source, destination, 0x11, length as nat) + word_sum(
        splice(segment, 6, be16_bytes(0)).subrange(0, length),
    )
}

/// The checksum of a UDP datagram. Zero would mean that there is none, so all ones stand
/// for it.
pub open spec fn udp_checksum(segment: Seq<u8>, source: Seq<u8>, destination: Seq<u8>) -> nat {
    let checksum = complemented(udp_sum(segment, source, destination));
    if checksum == 0 {
        0xffff
    } else {
        checksum
    }
}

/// The words that a TCP checksum covers, with a zero checksum field.
pub open spec fn tcp_sum(segment: Seq<u8>, source: Seq<u8>, destination: Seq<u8>) -> nat {
    pseudo_header_sum(source, destination, 0x06, segment.len()) + word_sum(
        splice(segment, 16, be16_bytes(0)),
    )
}

/// The checksum of a TCP segment.
pub open spec fn tcp_checksum(segment: Seq<u8>, source: Seq<u8>, destination: Seq<u8>) -> nat {
    complemented(tcp_sum(segment, source, destination))
}

/// Reads the big-endian 16-bit number at `at`.
pub fn read_be16(data: &[u8], at: usize) -> (value: u16)
    requires
        at + 2 <= data@.len(),
    ensures
        value == be16(data@, at as int),
{
    data[at] as u16 * 256 + data[at + 1] as u16
}

/// Reads the version of an IP packet.
pub fn read_ip_version(packet: &[u8]) -> (version: u8)
    requires
        packet@.len() >= 1,
    ensures
        version == ip_version(packet@),
{
    packet[0] / 16
}

/// Reads the header length of an IPv4 packet.
pub fn read_ipv4_header_len(packet: &[u8]) -> (length: usize)
    requires
        packet@.len() >= 1,
    ensures
        length == ipv4_header_len(packet@),
        length <= 60,
{
    (packet[0] % 16) as usize * 4
}

/// Reads the packet length that an IPv4 packet states.
pub fn read_ipv4_total_len(packet: &[u8]) -> (length: usize)
    requires
        packet@.len() >= 4,
    ensures
        length == ipv4_total_len(packet@),
        length <= 0xffff,
{
    read_be16(packet, 2) as usize
}

/// Reads the packet length that an IPv6 packet states.
pub fn read_ipv6_total_len(packet: &[u8]) -> (length: usize)
    requires
        packet@.len() >= 6,
    ensures
        length == ipv6_total_len(packet@),
        40 <= length <= 40 + 0xffff,
{
    IPV6_HEADER_LEN + read_be16(packet, 4) as usize
}

/// Reads the four octets at `at` as an address.
pub fn read_ipv4_address(packet: &[u8], at: usize) -> (address: Ipv4Address)
    requires
        at + 4 <= packet@.len(),
    ensures
        address == ipv4_address(packet@, at as int),
        ipv4_address_at(packet@, at as int, address),
{
    assert(at + 4 <= packet.len());
    Ipv4Address::from_bytes(slice_subrange(packet, at, at + 4))
}

/// Reads the sixteen octets at `at` as an address.
pub fn read_ipv6_address(packet: &[u8], at: usize) -> (address: Ipv6Address)
    requires
        at + 16 <= packet@.len(),
    ensures
        address == ipv6_address(packet@, at as int),
        ipv6_address_at(packet@, at as int, address),
{
    assert(at + 16 <= packet.len());
    let octets = slice_subrange(packet, at, at + 16);
    proof {
        assert(octets@.subrange(0, 8) =~= packet@.subrange(at as int, at + 8));
        assert(octets@.subrange(8, 16) =~= packet@.subrange(at + 8, at + 16));
    }
    Ipv6Address::from_bytes(octets)
}

/// Calls smoltcp's `Ipv4Packet::new_checked`, which succeeds exactly if the buffer holds
/// the fixed header and the stated header length, total length and buffer length ascend.
#[verifier::external_body]
pub(crate) fn check_ipv4(packet: &[u8]) -> (valid: bool)
    ensures
        valid == ipv4_valid(packet@),
{
    smol::Ipv4Packet::new_checked(packet).is_ok()
}

/// Calls smoltcp's `Ipv4Packet::set_src_addr`, which overwrites the four octets of the
/// source address.
#[verifier::external_body]
pub(crate) fn set_ipv4_source(packet: &mut [u8], address: Ipv4Address)
    requires
        old(packet)@.len() >= 20,
    ensures
        final(packet)@ == splice(old(packet)@, 12, address.octets()),
{
    smol::Ipv4Packet::new_unchecked(packet).set_src_addr(
        smol::Ipv4Address(address.0.to_be_bytes()),
    );
}

/// Calls smoltcp's `Ipv4Packet::set_dst_addr`, which overwrites the four octets of the
/// destination address.
#[verifier::external_body]
pub(crate) fn set_ipv4_destination(packet: &mut [u8], address: Ipv4Address)
    requires
        old(packet)@.len() >= 20,
    ensures
        final(packet)@ == splice(old(packet)@, 16, address.octets()),
{
    smol::Ipv4Packet::new_unchecked(packet).set_dst_addr(
        smol::Ipv4Address(address.0.to_be_bytes()),
    );
}

/// Calls smoltcp's `Ipv4Packet::fill_checksum`, which stores the Internet checksum of the
/// header in the header's checksum field.
#[verifier::external_body]
pub(crate) fn fill_ipv4_checksum(packet: &mut [u8])
    requires
        ipv4_valid(old(packet)@),
    ensures
        final(packet)@ == splice(old(packet)@, 10, be16_bytes(ipv4_checksum(old(packet)@))),
{
    smol::Ipv4Packet::new_unchecked(packet).fill_checksum();
}

/// Calls smoltcp's `Ipv6Packet::new_checked`, which succeeds exactly if the buffer holds
/// the base header and the stated payload.
#[verifier::external_body]
pub(crate) fn check_ipv6(packet: &[u8]) -> (valid: bool)
    ensures
        valid == ipv6_valid(packet@),
{
    smol::Ipv6Packet::new_checked(packet).is_ok()
}

/// Calls smoltcp's `Ipv6Packet::set_src_addr`, which overwrites the sixteen octets of the
/// source address.
#[verifier::external_body]
pub(crate) fn set_ipv6_source(packet: &mut [u8], address: Ipv6Address)
    requires
        old(packet)@.len() >= 40,
    ensures
        final(packet)@ == splice(old(packet)@, 8, address.octets()),
{
    let octets = [address.high.to_be_bytes(), address.low.to_be_bytes()].concat();
    smol::Ipv6Packet::new_unchecked(packet).set_src_addr(
        smol::Ipv6Address::from_bytes(&octets),
    );
}

/// Calls smoltcp's `Ipv6Packet::set_dst_addr`, which overwrites the sixteen octets of the
/// destination address.
#[verifier::external_body]
pub(crate) fn set_ipv6_destination(packet: &mut [u8], address: Ipv6Address)
    requires
        old(packet)@.len() >= 40,
    ensures
        final(packet)@ == splice(old(packet)@, 24, address.octets()),
{
    let octets = [address.high.to_be_bytes(), address.low.to_be_bytes()].concat();
    smol::Ipv6Packet::new_unchecked(packet).set_dst_addr(
        smol::Ipv6Address::from_bytes(&octets),
    );
}

/// Calls smoltcp's `Ipv6ExtHeader::new_checked`, which succeeds exactly if the buffer
/// holds eight bytes and as many further eight-byte units as the second byte counts.
#[verifier::external_body]
pub(crate) fn check_extension(data: &[u8]) -> (valid: bool)
    ensures
        valid == extension_valid(data@),
{
    smol::Ipv6ExtHeader::new_checked(data).is_ok()
}

/// Calls smoltcp's `UdpPacket::new_checked`, which succeeds exactly if the stated length
/// covers the header and fits the buffer.
#[verifier::external_body]
pub(crate) fn check_udp(segment: &[u8]) -> (valid: bool)
    ensures
        valid == udp_valid(segment@),
{
    smol::UdpPacket::new_checked(segment).is_ok()
}

/// Calls smoltcp's `UdpPacket::set_src_port` on the bytes from `start` on, which
/// overwrites the first two of them.
#[verifier::external_body]
pub(crate) fn set_udp_source_port(packet: &mut [u8], start: usize, port: u16)
    requires
        start + 8 <= old(packet)@.len(),
    ensures
        final(packet)@ == splice(old(packet)@, start as int, be16_bytes(port as nat)),
{
    smol::UdpPacket::new_unchecked(&mut packet[start..]).set_src_port(port);
}

/// Calls smoltcp's `UdpPacket::set_dst_port` on the bytes from `start` on, which
/// overwrites the third and fourth of them.
#[verifier::external_body]
pub(crate) fn set_udp_destination_port(packet: &mut [u8], start: usize, port: u16)
    requires
        start + 8 <= old(packet)@.len(),
    ensures
        final(packet)@ == splice(old(packet)@, start + 2, be16_bytes(port as nat)),
{
    smol::UdpPacket::new_unchecked(&mut packet[start..]).set_dst_port(port);
}

/// Calls smoltcp's `UdpPacket::fill_checksum` on the bytes from `start` to `end`, which
/// stores the Internet checksum of the pseudo-header and the datagram.
#[verifier::external_body]
pub(crate) fn fill_udp_checksum(
    packet: &mut [u8],
    start: usize,
    end: usize,
    source: IpAddress,
    destination: IpAddress,
)
    requires
        start <= end <= old(packet)@.len(),
        udp_valid(old(packet)@.subrange(start as int, end as int)),
        same_family(source, destination),
    ensures
        final(packet)@ == splice(
            old(packet)@,
            start + 6,
            be16_bytes(
                udp_checksum(
                    old(packet)@.subrange(start as int, end as int),
                    address_octets(source),
                    address_octets(destination),
                ),
            ),
        ),
{
    let mut segment = smol::UdpPacket::new_unchecked(&mut packet[start..end]);
    match (source, destination) {
        (IpAddress::Ipv4(a), IpAddress::Ipv4(b)) => segment.fill_checksum(
            &smol::Ipv4Address(a.0.to_be_bytes()).into(),
            &smol::Ipv4Address(b.0.to_be_bytes()).into(),
        ),
        (IpAddress::Ipv6(a), IpAddress::Ipv6(b)) => segment.fill_checksum(
            &smol::Ipv6Address::from_bytes(&[a.high.to_be_bytes(), a.low.to_be_bytes()].concat())
                .into(),
            &smol::Ipv6Address::from_bytes(&[b.high.to_be_bytes(), b.low.to_be_bytes()].concat())
                .into(),
        ),
        _ => {},
    }
}

/// Calls smoltcp's `TcpPacket::new_checked`, which succeeds exactly if the stated header
/// length covers the fixed header and fits the buffer.
#[verifier::external_body]
pub(crate) fn check_tcp(segment: &[u8]) -> (valid: bool)
    ensures
        valid == tcp_valid(segment@),
{
    smol::TcpPacket::new_checked(segment).is_ok()
}

/// Calls smoltcp's `TcpPacket::set_src_port` on the bytes from `start` on, which
/// overwrites the first two of them.
#[verifier::external_body]
pub(crate) fn set_tcp_source_port(packet: &mut [u8], start: usize, port: u16)
    requires
        start + 20 <= old(packet)@.len(),
    ensures
        final(packet)@ == splice(old(packet)@, start as int, be16_bytes(port as nat)),
{
    smol::TcpPacket::new_unchecked(&mut packet[start..]).set_src_port(port);
}

/// Calls smoltcp's `TcpPacket::set_dst_port` on the bytes from `start` on, which
/// overwrites the third and fourth of them.
#[verifier::external_body]
pub(crate) fn set_tcp_destination_port(packet: &mut [u8], start: usize, port: u16)
    requires
        start + 20 <= old(packet)@.len(),
    ensures
        final(packet)@ == splice(old(packet)@, start + 2, be16_bytes(port as nat)),
{
    smol::TcpPacket::new_unchecked(&mut packet[start..]).set_dst_port(port);
}

/// Calls smoltcp's `TcpPacket::fill_checksum` on the bytes from `start` to `end`, which
/// stores the Internet checksum of the pseudo-header and the segment. The segment is no
/// longer than an IP length field can state, so that no sum overflows.
#[verifier::external_body]
pub(crate) fn fill_tcp_checksum(
    packet: &mut [u8],
    start: usize,
    end: usize,
    source: IpAddress,
    destination: IpAddress,
)
    requires
        start <= end <= old(packet)@.len(),
        end - start <= 0xffff,
        tcp_valid(old(packet)@.subrange(start as int, end as int)),
        same_family(source, destination),
    ensures
        final(packet)@ == splice(
            old(packet)@,
            start + 16,
            be16_bytes(
                tcp_checksum(
                    old(packet)@.subrange(start as int, end as int),
                    address_octets(source),
                    address_octets(destination),
                ),
            ),
        ),
{
    let mut segment = smol::TcpPacket::new_unchecked(&mut packet[start..end]);
    match (source, destination) {
        (IpAddress::Ipv4(a), IpAddress::Ipv4(b)) => segment.fill_checksum(
            &smol::Ipv4Address(a.0.to_be_bytes()).into(),
            &smol::Ipv4Address(b.0.to_be_bytes()).into(),
        ),
        (IpAddress::Ipv6(a), IpAddress::Ipv6(b)) => segment.fill_checksum(
            &smol::Ipv6Address::from_bytes(&[a.high.to_be_bytes(), a.low.to_be_bytes()].concat())
                .into(),
            &smol::Ipv6Address::from_bytes(&[b.high.to_be_bytes(), b.low.to_be_bytes()].concat())
                .into(),
        ),
        _ => {},
    }
}

} // verus!
