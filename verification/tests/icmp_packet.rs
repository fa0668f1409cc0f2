//! Recognizing port-unreachable messages.

use portmaster_kext::common::{
    ICMPV4_CODE_DU_ADMINISTRATIVELY_PROHIBITED, ICMPV6_CODE_DU_PORT_UNREACHABLE,
    ICMPV6_TYPE_DESTINATION_UNREACHABLE,
};
use portmaster_kext::icmp_packet::is_icmp_port_unreachable;
use portmaster_kext::ip::IpProtocol;

const LOGGED_ICMPV4_PORT_UNREACHABLE: [u8; 57] = [
    0x45, 0x00, 0x00, 0x39, 0x55, 0x3a, 0x00, 0x00, 0x80, 0x01, 0xad, 0x97, 0xc0, 0xa8, 0xdb,
    0x10, 0xc0, 0xa8, 0xdb, 0x90, 0x03, 0x03, 0x35, 0x0a, 0x00, 0x00, 0x00, 0x00, 0x45, 0x00,
    0x00, 0x1d, 0x0e, 0x62, 0x00, 0x00, 0x80, 0x11, 0xf4, 0x7b, 0xc0, 0xa8, 0xdb, 0x90, 0xc0,
    0xa8, 0xdb, 0x10, 0xa9, 0x07, 0x04, 0xd2, 0x00, 0x09, 0x1a, 0x10, 0x00,
];

#[test]
fn recognizes_logged_ipv4_port_unreachable() {
    assert!(is_icmp_port_unreachable(
        &LOGGED_ICMPV4_PORT_UNREACHABLE,
        false
    ));
}

#[test]
fn rejects_other_icmpv4_types_and_codes() {
    let mut packet = LOGGED_ICMPV4_PORT_UNREACHABLE;
    packet[21] = ICMPV4_CODE_DU_ADMINISTRATIVELY_PROHIBITED;
    assert!(!is_icmp_port_unreachable(&packet, false));

    packet[20] = 8;
    packet[21] = 0;
    assert!(!is_icmp_port_unreachable(&packet, false));
}

#[test]
fn rejects_truncated_ipv4_message() {
    assert!(!is_icmp_port_unreachable(
        &LOGGED_ICMPV4_PORT_UNREACHABLE[..27],
        false
    ));
}

#[test]
fn icmp_packet_recognizes_ipv6_port_unreachable_after_extension_header() {
    let mut packet = [0u8; 56];
    packet[0] = 0x60;
    packet[4..6].copy_from_slice(&16u16.to_be_bytes());
    packet[6] = IpProtocol::Ipv6Opts.number();
    packet[7] = 64;
    packet[40] = IpProtocol::Icmpv6.number();
    packet[41] = 0;
    packet[48] = ICMPV6_TYPE_DESTINATION_UNREACHABLE;
    packet[49] = ICMPV6_CODE_DU_PORT_UNREACHABLE;

    assert!(is_icmp_port_unreachable(&packet, true));
}
