//! Rewriting TCP and UDP behind IPv6 extension headers.

use portmaster_kext::ip::{IpProtocol, Ipv6Address};
use portmaster_kext::ipv6_packet::{
    recalculate_ipv6_transport_checksum, rewrite_ipv6_tcp_udp, walk_ipv6_headers,
    Ipv6TransportError, MAX_IPV6_EXT_HEADERS,
};
use portmaster_kext::transport::PortRewrite;
use portmaster_kext::wire::IPV6_HEADER_LEN;
use smoltcp::wire;

fn wire_address(address: Ipv6Address) -> wire::Ipv6Address {
    let mut bytes = Vec::new();
    address.push_to(&mut bytes);
    wire::Ipv6Address::from_bytes(&bytes)
}

fn source_address() -> Ipv6Address {
    Ipv6Address::new(0x2001, 0xdb8, 1, 2, 3, 4, 5, 6)
}

fn destination_address() -> Ipv6Address {
    Ipv6Address::new(0x2001, 0xdb8, 7, 8, 9, 10, 11, 12)
}

fn initialize_ipv6(
    packet: &mut [u8],
    next_header: IpProtocol,
    source: Ipv6Address,
    destination: Ipv6Address,
) {
    let payload_len = packet.len() - IPV6_HEADER_LEN;
    let mut ip_packet = wire::Ipv6Packet::new_unchecked(packet);
    ip_packet.set_version(6);
    ip_packet.set_payload_len(payload_len as u16);
    ip_packet.set_next_header(wire::IpProtocol::from(next_header.number()));
    ip_packet.set_hop_limit(64);
    ip_packet.set_src_addr(wire_address(source));
    ip_packet.set_dst_addr(wire_address(destination));
}

fn initialize_udp(
    packet: &mut [u8],
    offset: usize,
    source: Ipv6Address,
    destination: Ipv6Address,
    source_port: u16,
    destination_port: u16,
) {
    let length = packet.len() - offset;
    let mut udp_packet = wire::UdpPacket::new_unchecked(&mut packet[offset..]);
    udp_packet.set_src_port(source_port);
    udp_packet.set_dst_port(destination_port);
    udp_packet.set_len(length as u16);
    udp_packet.fill_checksum(
        &wire::IpAddress::Ipv6(wire_address(source)),
        &wire::IpAddress::Ipv6(wire_address(destination)),
    );
}

fn initialize_tcp(
    packet: &mut [u8],
    offset: usize,
    source: Ipv6Address,
    destination: Ipv6Address,
    source_port: u16,
    destination_port: u16,
) {
    let mut tcp_packet = wire::TcpPacket::new_unchecked(&mut packet[offset..]);
    tcp_packet.set_src_port(source_port);
    tcp_packet.set_dst_port(destination_port);
    tcp_packet.set_header_len(20);
    tcp_packet.fill_checksum(
        &wire::IpAddress::Ipv6(wire_address(source)),
        &wire::IpAddress::Ipv6(wire_address(destination)),
    );
}

fn options_chain(extension_count: usize) -> Vec<u8> {
    let transport_offset = IPV6_HEADER_LEN + extension_count * 8;
    let mut packet = vec![0u8; transport_offset + 8];
    initialize_ipv6(
        &mut packet,
        IpProtocol::Ipv6Opts,
        source_address(),
        destination_address(),
    );

    for index in 0..extension_count {
        let offset = IPV6_HEADER_LEN + index * 8;
        packet[offset] = if index + 1 == extension_count {
            IpProtocol::Udp.number()
        } else {
            IpProtocol::Ipv6Opts.number()
        };
        packet[offset + 1] = 0;
    }

    initialize_udp(
        &mut packet,
        transport_offset,
        source_address(),
        destination_address(),
        1000,
        2000,
    );
    packet
}

#[test]
fn resolves_exactly_eight_extension_headers() {
    let packet = options_chain(MAX_IPV6_EXT_HEADERS);
    let headers = walk_ipv6_headers(&packet);

    assert!(headers.resolved);
    assert_eq!(headers.protocol, IpProtocol::Udp);
    assert_eq!(
        headers.transport_offset,
        IPV6_HEADER_LEN + MAX_IPV6_EXT_HEADERS * 8
    );
}

#[test]
fn rejects_a_ninth_extension_header() {
    let packet = options_chain(MAX_IPV6_EXT_HEADERS + 1);
    let headers = walk_ipv6_headers(&packet);

    assert!(!headers.resolved);
    assert_eq!(headers.protocol, IpProtocol::Ipv6Opts);
}

#[test]
fn reads_fragment_fields_after_next_header_and_reserved() {
    let transport_offset = IPV6_HEADER_LEN + 8;
    let mut packet = vec![0u8; transport_offset + 8];
    initialize_ipv6(
        &mut packet,
        IpProtocol::Ipv6Frag,
        source_address(),
        destination_address(),
    );
    packet[IPV6_HEADER_LEN] = IpProtocol::Udp.number();

    let atomic = walk_ipv6_headers(&packet);
    assert!(atomic.resolved);
    assert!(!atomic.is_fragment);
    assert_eq!(atomic.protocol, IpProtocol::Udp);
    assert_eq!(atomic.transport_offset, transport_offset);

    // The M bit is in byte three of the complete Fragment header, not in
    // the Next Header/Reserved pair at bytes zero and one.
    packet[IPV6_HEADER_LEN + 3] = 1;
    assert!(walk_ipv6_headers(&packet).is_fragment);
}

#[test]
fn rewrites_udp_after_multiple_extension_headers() {
    let source = source_address();
    let destination = destination_address();
    let transport_offset = IPV6_HEADER_LEN + 16;
    let mut packet = vec![0u8; transport_offset + 12];
    initialize_ipv6(&mut packet, IpProtocol::HopByHop, source, destination);
    packet[IPV6_HEADER_LEN] = IpProtocol::Ipv6Opts.number();
    packet[IPV6_HEADER_LEN + 1] = 0;
    packet[IPV6_HEADER_LEN + 8] = IpProtocol::Udp.number();
    packet[IPV6_HEADER_LEN + 9] = 0;
    initialize_udp(
        &mut packet,
        transport_offset,
        source,
        destination,
        12000,
        53,
    );
    let extension_headers = packet[IPV6_HEADER_LEN..transport_offset].to_vec();

    let redirected_source = Ipv6Address::localhost();
    let redirected_destination = Ipv6Address::new(0xfd00, 1, 2, 3, 4, 5, 6, 7);
    rewrite_ipv6_tcp_udp(
        &mut packet,
        redirected_source,
        redirected_destination,
        PortRewrite::Destination(5353),
    )
    .unwrap();

    let ip_packet = wire::Ipv6Packet::new_checked(&packet).unwrap();
    assert_eq!(ip_packet.src_addr(), wire_address(redirected_source));
    assert_eq!(ip_packet.dst_addr(), wire_address(redirected_destination));
    assert_eq!(
        &packet[IPV6_HEADER_LEN..transport_offset],
        &extension_headers
    );

    let udp_packet = wire::UdpPacket::new_checked(&packet[transport_offset..]).unwrap();
    assert_eq!(udp_packet.src_port(), 12000);
    assert_eq!(udp_packet.dst_port(), 5353);
    assert!(udp_packet.verify_checksum(
        &wire::IpAddress::Ipv6(wire_address(redirected_source)),
        &wire::IpAddress::Ipv6(wire_address(redirected_destination)),
    ));
}

#[test]
fn rewrites_tcp_after_inactive_routing_header() {
    let source = source_address();
    let destination = destination_address();
    let transport_offset = IPV6_HEADER_LEN + 8;
    let mut packet = vec![0u8; transport_offset + 24];
    initialize_ipv6(&mut packet, IpProtocol::Ipv6Route, source, destination);
    packet[IPV6_HEADER_LEN] = IpProtocol::Tcp.number();
    packet[IPV6_HEADER_LEN + 1] = 0;
    packet[IPV6_HEADER_LEN + 2] = 4;
    packet[IPV6_HEADER_LEN + 3] = 0;
    initialize_tcp(
        &mut packet,
        transport_offset,
        source,
        destination,
        443,
        40000,
    );

    let redirected_source = Ipv6Address::new(0x2001, 0xdb8, 20, 0, 0, 0, 0, 1);
    let redirected_destination = Ipv6Address::new(0x2001, 0xdb8, 30, 0, 0, 0, 0, 2);
    rewrite_ipv6_tcp_udp(
        &mut packet,
        redirected_source,
        redirected_destination,
        PortRewrite::Source(8443),
    )
    .unwrap();

    let tcp_packet = wire::TcpPacket::new_checked(&packet[transport_offset..]).unwrap();
    assert_eq!(tcp_packet.src_port(), 8443);
    assert_eq!(tcp_packet.dst_port(), 40000);
    assert!(tcp_packet.verify_checksum(
        &wire::IpAddress::Ipv6(wire_address(redirected_source)),
        &wire::IpAddress::Ipv6(wire_address(redirected_destination)),
    ));
}

#[test]
fn recalculates_checksum_from_transport_offset() {
    let mut packet = options_chain(2);
    let headers = walk_ipv6_headers(&packet);
    let checksum_offset = headers.transport_offset + 6;
    packet[checksum_offset] = 0;
    packet[checksum_offset + 1] = 0;

    recalculate_ipv6_transport_checksum(&mut packet).unwrap();

    let udp_packet = wire::UdpPacket::new_checked(&packet[headers.transport_offset..]).unwrap();
    assert!(udp_packet.verify_checksum(
        &wire::IpAddress::Ipv6(wire_address(source_address())),
        &wire::IpAddress::Ipv6(wire_address(destination_address())),
    ));
}

#[test]
fn leaves_unresolved_packet_unchanged() {
    let mut packet = options_chain(1);
    packet[IPV6_HEADER_LEN + 1] = 10;
    let original = packet.clone();

    assert_eq!(
        rewrite_ipv6_tcp_udp(
            &mut packet,
            Ipv6Address::localhost(),
            destination_address(),
            PortRewrite::Destination(5353),
        ),
        Err(Ipv6TransportError::UnresolvedHeaders)
    );
    assert_eq!(packet, original);
}

#[test]
fn rejects_active_routing_header_without_mutation() {
    let source = source_address();
    let destination = destination_address();
    let transport_offset = IPV6_HEADER_LEN + 8;
    let mut packet = vec![0u8; transport_offset + 20];
    initialize_ipv6(&mut packet, IpProtocol::Ipv6Route, source, destination);
    packet[IPV6_HEADER_LEN] = IpProtocol::Tcp.number();
    packet[IPV6_HEADER_LEN + 1] = 0;
    packet[IPV6_HEADER_LEN + 2] = 4;
    packet[IPV6_HEADER_LEN + 3] = 1;
    initialize_tcp(
        &mut packet,
        transport_offset,
        source,
        destination,
        443,
        40000,
    );
    let original = packet.clone();

    assert_eq!(
        rewrite_ipv6_tcp_udp(
            &mut packet,
            Ipv6Address::localhost(),
            destination,
            PortRewrite::Source(8443),
        ),
        Err(Ipv6TransportError::ActiveRoutingHeader)
    );
    assert_eq!(packet, original);
}
