//! What is read from the first bytes of a packet.

use portmaster_kext::common::{
    ICMPV4_CODE_DU_PORT_UNREACHABLE, ICMPV4_TYPE_DESTINATION_UNREACHABLE,
    ICMPV6_CODE_DU_PORT_UNREACHABLE, ICMPV6_TYPE_DESTINATION_UNREACHABLE,
};
use portmaster_kext::connection::Direction;
use portmaster_kext::ip::{IpAddress, IpProtocol, Ipv4Address, Ipv6Address};
use portmaster_kext::packet_metadata::{
    inspect_packet, PacketMetadataError, ICMP_HEADER_LEN, TCP_FLAGS_OFFSET, TCP_RST_FLAG,
};
use portmaster_kext::wire::{IPV4_HEADER_LEN, IPV6_HEADER_LEN};

fn octets(address: Ipv6Address) -> Vec<u8> {
    let mut bytes = Vec::new();
    address.push_to(&mut bytes);
    bytes
}

fn set_ipv4_endpoints(packet: &mut [u8]) {
    packet[12..16].copy_from_slice(&[192, 0, 2, 1]);
    packet[16..20].copy_from_slice(&[198, 51, 100, 2]);
}

#[test]
fn inspects_ipv4_options_and_tcp_reset_once() {
    let mut packet = [0u8; 80];
    packet[0] = 0x4f;
    packet[2..4].copy_from_slice(&80u16.to_be_bytes());
    packet[9] = IpProtocol::Tcp.number();
    set_ipv4_endpoints(&mut packet);
    packet[60..62].copy_from_slice(&50_000u16.to_be_bytes());
    packet[62..64].copy_from_slice(&443u16.to_be_bytes());
    packet[73] = TCP_RST_FLAG;

    let inspected = inspect_packet(&packet, false, Direction::Outbound);
    assert!(!inspected.is_fragment);
    let metadata = inspected.metadata.expect("IPv4 metadata");
    assert_eq!(metadata.key.protocol, IpProtocol::Tcp);
    assert_eq!(metadata.key.local_port, 50_000);
    assert_eq!(metadata.key.remote_port, 443);
    assert_eq!(
        metadata.key.local_address,
        IpAddress::Ipv4(Ipv4Address::new(192, 0, 2, 1))
    );
    assert!(metadata.is_tcp_reset);
}

#[test]
fn identifies_fragment_even_when_too_short_for_key() {
    let mut packet = [0u8; IPV4_HEADER_LEN];
    packet[0] = 0x45;
    packet[6..8].copy_from_slice(&0x2000u16.to_be_bytes());

    let inspected = inspect_packet(&packet, false, Direction::Outbound);
    assert!(inspected.is_fragment);
    assert!(matches!(
        inspected.metadata,
        Err(PacketMetadataError::UnreadablePacket)
    ));
}

#[test]
fn extracts_ipv4_echo_and_port_unreachable_metadata() {
    let mut packet = [0u8; IPV4_HEADER_LEN + ICMP_HEADER_LEN];
    packet[0] = 0x45;
    packet[2..4].copy_from_slice(&28u16.to_be_bytes());
    packet[9] = IpProtocol::Icmp.number();
    set_ipv4_endpoints(&mut packet);
    packet[20] = 8;
    packet[24..26].copy_from_slice(&0x1234u16.to_be_bytes());

    let metadata = inspect_packet(&packet, false, Direction::Outbound)
        .metadata
        .expect("ICMP echo metadata");
    let echo = metadata.icmp_echo.expect("echo request");
    assert!(echo.is_request);
    assert_eq!(echo.identifier, 0x1234);
    assert!(!metadata.is_icmp_port_unreachable);

    packet[20] = ICMPV4_TYPE_DESTINATION_UNREACHABLE;
    packet[21] = ICMPV4_CODE_DU_PORT_UNREACHABLE;
    let metadata = inspect_packet(&packet, false, Direction::Outbound)
        .metadata
        .expect("ICMP unreachable metadata");
    assert!(metadata.icmp_echo.is_none());
    assert!(metadata.is_icmp_port_unreachable);
}

#[test]
fn recognizes_captured_ipv4_port_unreachable() {
    let packet = [
        0x45, 0x00, 0x00, 0x39, 0x55, 0x3a, 0x00, 0x00, 0x80, 0x01, 0xad, 0x97, 0xc0, 0xa8,
        0xdb, 0x10, 0xc0, 0xa8, 0xdb, 0x90, 0x03, 0x03, 0x35, 0x0a, 0x00, 0x00, 0x00, 0x00,
        0x45, 0x00, 0x00, 0x1d, 0x0e, 0x62, 0x00, 0x00, 0x80, 0x11, 0xf4, 0x7b, 0xc0, 0xa8,
        0xdb, 0x90, 0xc0, 0xa8, 0xdb, 0x10, 0xa9, 0x07, 0x04, 0xd2, 0x00, 0x09, 0x1a, 0x10,
        0x00,
    ];

    let metadata = inspect_packet(&packet, false, Direction::Outbound)
        .metadata
        .expect("captured ICMPv4 metadata");
    assert!(metadata.is_icmp_port_unreachable);
}

#[test]
fn inspects_ipv6_tcp_after_extension_header() {
    const TRANSPORT_OFFSET: usize = IPV6_HEADER_LEN + 8;
    let mut packet = [0u8; TRANSPORT_OFFSET + 20];
    packet[0] = 0x60;
    packet[4..6].copy_from_slice(&28u16.to_be_bytes());
    packet[6] = IpProtocol::Ipv6Opts.number();
    packet[8..24].copy_from_slice(&octets(Ipv6Address::localhost()));
    let remote = Ipv6Address::new(0x2001, 0xdb8, 0, 0, 0, 0, 0, 2);
    packet[24..40].copy_from_slice(&octets(remote));
    packet[40] = IpProtocol::Tcp.number();
    packet[41] = 0;
    packet[TRANSPORT_OFFSET..TRANSPORT_OFFSET + 2].copy_from_slice(&50_001u16.to_be_bytes());
    packet[TRANSPORT_OFFSET + 2..TRANSPORT_OFFSET + 4].copy_from_slice(&443u16.to_be_bytes());
    packet[TRANSPORT_OFFSET + TCP_FLAGS_OFFSET] = TCP_RST_FLAG;

    let metadata = inspect_packet(&packet, true, Direction::Outbound)
        .metadata
        .expect("IPv6 metadata");
    assert_eq!(metadata.key.local_port, 50_001);
    assert_eq!(metadata.key.remote_port, 443);
    assert_eq!(metadata.key.remote_address, IpAddress::Ipv6(remote));
    assert!(metadata.is_tcp_reset);
}

#[test]
fn reports_ipv6_fragment_independently_from_transport_key() {
    let mut packet = [0u8; IPV6_HEADER_LEN + 8];
    packet[0] = 0x60;
    packet[4..6].copy_from_slice(&8u16.to_be_bytes());
    packet[6] = IpProtocol::Ipv6Frag.number();
    packet[40] = IpProtocol::Udp.number();
    packet[43] = 1;

    let inspected = inspect_packet(&packet, true, Direction::Inbound);
    assert!(inspected.is_fragment);
    let metadata = inspected.metadata.expect("fragment metadata");
    assert_eq!(metadata.key.protocol, IpProtocol::Udp);
    assert_eq!(metadata.key.local_port, 0);
    assert_eq!(metadata.key.remote_port, 0);
}

#[test]
fn packet_metadata_recognizes_ipv6_port_unreachable_after_extension_header() {
    let mut packet = [0u8; IPV6_HEADER_LEN + 16];
    packet[0] = 0x60;
    packet[4..6].copy_from_slice(&16u16.to_be_bytes());
    packet[6] = IpProtocol::Ipv6Opts.number();
    packet[40] = IpProtocol::Icmpv6.number();
    packet[41] = 0;
    packet[48] = ICMPV6_TYPE_DESTINATION_UNREACHABLE;
    packet[49] = ICMPV6_CODE_DU_PORT_UNREACHABLE;

    let outbound = inspect_packet(&packet, true, Direction::Outbound)
        .metadata
        .expect("outbound ICMPv6 metadata");
    assert!(outbound.is_icmp_port_unreachable);

    let inbound = inspect_packet(&packet, true, Direction::Inbound)
        .metadata
        .expect("inbound ICMPv6 metadata");
    assert!(!inbound.is_icmp_port_unreachable);
}

#[test]
fn rejects_unresolved_ipv6_extension_chain() {
    let mut packet = [0u8; IPV6_HEADER_LEN + 9 * 8];
    packet[0] = 0x60;
    packet[4..6].copy_from_slice(&(9u16 * 8).to_be_bytes());
    packet[6] = IpProtocol::Ipv6Opts.number();
    for index in 0..9 {
        let offset = IPV6_HEADER_LEN + index * 8;
        packet[offset] = if index == 8 {
            IpProtocol::Udp.number()
        } else {
            IpProtocol::Ipv6Opts.number()
        };
    }

    let inspected = inspect_packet(&packet, true, Direction::Outbound);
    assert!(matches!(
        inspected.metadata,
        Err(PacketMetadataError::UnresolvedIpv6Headers)
    ));
}
