//! Redirected and completed packets, held against an independent reading of their bytes.

use portmaster_kext::connection::{Direction, RedirectInfo};
use portmaster_kext::ip::{IpAddress, Ipv4Address, Ipv6Address};
use portmaster_kext::packet::{
    inject_packet, ClassifyDefer, InjectInfo, Injection, NetBuffer, Packet,
};
use portmaster_kext::packet_callouts::{
    clone_packet, ip_header_retreat, recalculate_clone_checksum, CloneChecksum,
    NetBufferListClones,
};
use portmaster_kext::packet_metadata::PacketInspection;
use portmaster_kext::packet_util::{
    inspect_packet, inspection_fallback_len, recalc_header_checksums, redirect_inbound_packet,
    redirect_outbound_packet, Redirect,
};
use smoltcp::wire;

const SOURCE: [u8; 4] = [10, 0, 0, 1];
const TARGET: [u8; 4] = [192, 0, 2, 7];

fn ipv4(octets: [u8; 4]) -> IpAddress {
    IpAddress::Ipv4(Ipv4Address::from_bytes(&octets))
}

fn wire_v4(octets: [u8; 4]) -> wire::IpAddress {
    wire::IpAddress::Ipv4(wire::Ipv4Address::from_bytes(&octets))
}

fn ipv4_header(protocol: u8, payload_len: usize) -> Vec<u8> {
    let mut packet = vec![0u8; 20 + payload_len];
    let total = packet.len() as u16;
    packet[0] = 0x45;
    packet[2..4].copy_from_slice(&total.to_be_bytes());
    packet[8] = 64;
    packet[9] = protocol;
    packet[12..16].copy_from_slice(&SOURCE);
    packet[16..20].copy_from_slice(&TARGET);
    packet
}

fn udp_packet() -> Vec<u8> {
    let mut packet = ipv4_header(17, 11);
    packet[20..22].copy_from_slice(&40_000u16.to_be_bytes());
    packet[22..24].copy_from_slice(&53u16.to_be_bytes());
    packet[24..26].copy_from_slice(&11u16.to_be_bytes());
    packet[28..31].copy_from_slice(&[1, 2, 3]);
    packet
}

fn tcp_packet() -> Vec<u8> {
    let mut packet = ipv4_header(6, 23);
    packet[20..22].copy_from_slice(&40_000u16.to_be_bytes());
    packet[22..24].copy_from_slice(&443u16.to_be_bytes());
    packet[32] = 0x50;
    packet[40..43].copy_from_slice(&[7, 8, 9]);
    packet
}

fn assert_udp(packet: &[u8], source: [u8; 4], target: [u8; 4], ports: (u16, u16)) {
    let ip = wire::Ipv4Packet::new_checked(packet).unwrap();
    assert!(ip.verify_checksum());
    assert_eq!(wire::IpAddress::Ipv4(ip.src_addr()), wire_v4(source));
    assert_eq!(wire::IpAddress::Ipv4(ip.dst_addr()), wire_v4(target));
    let udp = wire::UdpPacket::new_checked(ip.payload()).unwrap();
    assert_eq!((udp.src_port(), udp.dst_port()), ports);
    assert_ne!(udp.checksum(), 0);
    assert!(udp.verify_checksum(&wire_v4(source), &wire_v4(target)));
    assert_eq!(udp.payload(), &[1, 2, 3]);
}

fn assert_tcp(packet: &[u8], source: [u8; 4], target: [u8; 4], ports: (u16, u16)) {
    let ip = wire::Ipv4Packet::new_checked(packet).unwrap();
    assert!(ip.verify_checksum());
    assert_eq!(wire::IpAddress::Ipv4(ip.src_addr()), wire_v4(source));
    assert_eq!(wire::IpAddress::Ipv4(ip.dst_addr()), wire_v4(target));
    let tcp = wire::TcpPacket::new_checked(ip.payload()).unwrap();
    assert_eq!((tcp.src_port(), tcp.dst_port()), ports);
    assert!(tcp.verify_checksum(&wire_v4(source), &wire_v4(target)));
    assert_eq!(tcp.payload(), &[7, 8, 9]);
}

fn inject(inbound: bool) -> InjectInfo {
    InjectInfo {
        ipv6: false,
        inbound,
        loopback: false,
        compartment_id: Some(1),
        interface_index: 2,
        sub_interface_index: 3,
    }
}

fn buffer(data: Vec<u8>, writable: bool) -> NetBuffer<u32> {
    NetBuffer {
        handle: 9,
        data,
        writable,
    }
}

fn redirection() -> RedirectInfo {
    RedirectInfo {
        local_address: ipv4(SOURCE),
        remote_address: ipv4(TARGET),
        remote_port: 53,
        redirect_port: 717,
        unify: false,
        redirect_address: ipv4([198, 51, 100, 9]),
    }
}

#[test]
fn outbound_udp_reaches_the_redirect_target() {
    let mut packet = udp_packet();
    redirect_outbound_packet(&mut packet, ipv4([198, 51, 100, 9]), 717, false).unwrap();
    assert_udp(&packet, SOURCE, [198, 51, 100, 9], (40_000, 717));
}

#[test]
fn outbound_loopback_redirect_also_moves_the_source() {
    let mut packet = udp_packet();
    redirect_outbound_packet(&mut packet, ipv4([127, 0, 0, 1]), 53, false).unwrap();
    assert_udp(&packet, [127, 0, 0, 1], [127, 0, 0, 1], (40_000, 53));
}

#[test]
fn unified_redirect_returns_to_the_sender() {
    let mut packet = tcp_packet();
    redirect_outbound_packet(&mut packet, ipv4([198, 51, 100, 9]), 719, true).unwrap();
    assert_tcp(&packet, SOURCE, SOURCE, (40_000, 719));
}

#[test]
fn inbound_answers_look_like_the_first_target() {
    let mut packet = tcp_packet();
    redirect_inbound_packet(&mut packet, ipv4([10, 9, 8, 7]), ipv4([203, 0, 113, 5]), 8443)
        .unwrap();
    assert_tcp(&packet, [203, 0, 113, 5], [10, 9, 8, 7], (8443, 443));
}

#[test]
fn inbound_redirect_refuses_mixed_families() {
    let v6 = IpAddress::Ipv6(Ipv6Address::localhost());
    let mut packet = udp_packet();
    let before = packet.clone();
    assert_eq!(
        redirect_inbound_packet(&mut packet, ipv4(SOURCE), v6, 53),
        Err("IPv4 redirect has an IPv6 remote address".to_string())
    );
    assert_eq!(
        redirect_inbound_packet(&mut packet, v6, ipv4(SOURCE), 53),
        Err("IPv6 redirect has an IPv4 remote address".to_string())
    );
    assert_eq!(packet, before);
}

#[test]
fn ipv4_packet_with_inconsistent_lengths_stays_as_it_is() {
    let mut packet = udp_packet();
    packet[2..4].copy_from_slice(&200u16.to_be_bytes());
    let before = packet.clone();
    assert_eq!(
        redirect_outbound_packet(&mut packet, ipv4(TARGET), 53, false),
        Err("invalid IPv4 packet".to_string())
    );
    assert_eq!(packet, before);
    recalc_header_checksums(&mut packet, false).unwrap();
    assert_eq!(packet, before);
}

#[test]
fn ipv4_packet_that_cannot_be_rewritten_is_refused_unchanged() {
    let mut short_header = udp_packet();
    short_header[0] = 0x44;
    let icmp = ipv4_header(1, 16);
    let mut long_datagram = udp_packet();
    long_datagram[24..26].copy_from_slice(&200u16.to_be_bytes());
    let mut short_offset = tcp_packet();
    short_offset[32] = 0x40;
    let invalid = "invalid IPv4 packet";
    let headless = "IPv4 packet has no valid TCP or UDP header";
    for (packet, error) in [
        (vec![0u8; 10], invalid),
        (Vec::new(), invalid),
        (short_header, invalid),
        (icmp, headless),
        (long_datagram, headless),
        (short_offset, headless),
    ] {
        let mut outbound = packet.clone();
        assert_eq!(
            redirect_outbound_packet(&mut outbound, ipv4([127, 0, 0, 1]), 53, false),
            Err(error.to_string())
        );
        assert_eq!(outbound, packet);
        let mut inbound = packet.clone();
        assert_eq!(
            redirect_inbound_packet(&mut inbound, ipv4(SOURCE), ipv4(TARGET), 53),
            Err(error.to_string())
        );
        assert_eq!(inbound, packet);
    }
}

#[test]
fn ipv6_redirect_names_what_is_wrong() {
    let v6 = IpAddress::Ipv6(Ipv6Address::localhost());
    let mut short = vec![0x60u8; 12];
    assert_eq!(
        redirect_outbound_packet(&mut short, v6, 53, false),
        Err("invalid outbound IPv6 packet".to_string())
    );
    assert_eq!(
        redirect_inbound_packet(&mut short, v6, v6, 53),
        Err("invalid IPv6 packet".to_string())
    );

    let mut icmp = vec![0u8; 48];
    icmp[0] = 0x60;
    icmp[4..6].copy_from_slice(&8u16.to_be_bytes());
    icmp[6] = 58;
    assert_eq!(
        redirect_outbound_packet(&mut icmp, v6, 53, false),
        Err("IPv6 packet does not contain TCP or UDP".to_string())
    );

    let mut cut = vec![0u8; 44];
    cut[0] = 0x60;
    cut[4..6].copy_from_slice(&4u16.to_be_bytes());
    cut[6] = 17;
    assert_eq!(
        redirect_outbound_packet(&mut cut, v6, 53, false),
        Err("invalid IPv6 transport header".to_string())
    );

    let mut fragment = vec![0u8; 56];
    fragment[0] = 0x60;
    fragment[4..6].copy_from_slice(&16u16.to_be_bytes());
    fragment[6] = 44;
    fragment[40] = 17;
    fragment[43] = 1;
    assert_eq!(
        redirect_outbound_packet(&mut fragment, v6, 53, false),
        Err("cannot rewrite an individual IPv6 fragment".to_string())
    );
}

#[test]
fn recalculation_completes_both_checksums() {
    let mut udp = udp_packet();
    recalc_header_checksums(&mut udp, false).unwrap();
    assert_udp(&udp, SOURCE, TARGET, (40_000, 53));
    let mut tcp = tcp_packet();
    recalc_header_checksums(&mut tcp, false).unwrap();
    assert_tcp(&tcp, SOURCE, TARGET, (40_000, 443));
}

#[test]
fn header_checksum_has_the_textbook_value() {
    let mut packet = vec![
        0x45, 0x00, 0x00, 0x73, 0x00, 0x00, 0x40, 0x00, 0x40, 0x11, 0x00, 0x00, 0xc0, 0xa8, 0x00,
        0x01, 0xc0, 0xa8, 0x00, 0xc7,
    ];
    packet.resize(0x73, 0);
    recalc_header_checksums(&mut packet, false).unwrap();
    assert_eq!(&packet[10..12], &[0xb8, 0x61]);
}

#[test]
fn batch_redirect_stops_at_the_first_clone_that_cannot_be_rewritten() {
    let mut packet: Packet<u32> = Packet::NetworkBatch(
        vec![
            buffer(udp_packet(), true),
            buffer(udp_packet(), false),
            buffer(udp_packet(), true),
        ],
        inject(false),
    );
    assert_eq!(
        packet.redirect(redirection()),
        Err("trying to redirect immutable NBL".to_string())
    );
    match packet {
        Packet::NetworkBatch(buffers, _) => {
            assert_udp(&buffers[0].data, SOURCE, [198, 51, 100, 9], (40_000, 717));
            assert_eq!(buffers[1].data, udp_packet());
            assert_eq!(buffers[2].data, udp_packet());
        }
        _ => panic!("batch"),
    }
}

#[test]
fn inbound_clone_is_redirected_to_the_program() {
    let mut packet: Packet<u32> = Packet::Network(buffer(udp_packet(), true), inject(true));
    assert_eq!(packet.redirect(redirection()), Ok(()));
    match packet {
        Packet::Network(buffer, _) => assert_udp(&buffer.data, TARGET, SOURCE, (53, 53)),
        _ => panic!("clone"),
    }
}

#[test]
fn clones_get_their_checksums_unless_a_redirect_follows() {
    let single = clone_packet(
        NetBufferListClones::Single(buffer(udp_packet(), true)),
        inject(false),
        CloneChecksum::Recalculate,
    );
    match single {
        Ok(Packet::Network(clone, info)) => {
            assert_udp(&clone.data, SOURCE, TARGET, (40_000, 53));
            assert_eq!(info, inject(false));
            assert_eq!(clone.handle, 9);
        }
        _ => panic!("clone"),
    }

    let batch = clone_packet(
        NetBufferListClones::Batch(vec![buffer(udp_packet(), true), buffer(tcp_packet(), true)]),
        inject(false),
        CloneChecksum::Recalculate,
    );
    match batch {
        Ok(Packet::NetworkBatch(clones, _)) => {
            assert_eq!(clones.len(), 2);
            assert_udp(&clones[0].data, SOURCE, TARGET, (40_000, 53));
            assert_tcp(&clones[1].data, SOURCE, TARGET, (40_000, 443));
        }
        _ => panic!("batch"),
    }

    let raw = clone_packet(
        NetBufferListClones::Single(buffer(udp_packet(), true)),
        inject(false),
        CloneChecksum::RedirectWillRecalculate,
    );
    match raw {
        Ok(Packet::Network(clone, _)) => assert_eq!(clone.data, udp_packet()),
        _ => panic!("clone"),
    }
}

#[test]
fn clone_without_bytes_of_its_own_is_refused() {
    let mut clone = buffer(udp_packet(), false);
    assert_eq!(
        recalculate_clone_checksum(&mut clone, false),
        Err("failed to access cloned packet data".to_string())
    );
    assert_eq!(clone.data, udp_packet());
    let batch = clone_packet(
        NetBufferListClones::Batch(vec![buffer(udp_packet(), true), buffer(udp_packet(), false)]),
        inject(false),
        CloneChecksum::Recalculate,
    );
    assert_eq!(
        batch.err(),
        Some("failed to access cloned packet data".to_string())
    );
}

#[test]
fn returning_a_packet_keeps_the_order_of_its_clones() {
    let batch: Packet<u32> = Packet::NetworkBatch(
        vec![buffer(vec![1], true), buffer(vec![2], true)],
        inject(false),
    );
    let injections = inject_packet(batch, false);
    let bytes: Vec<Vec<u8>> = injections
        .into_iter()
        .map(|injection| match injection {
            Injection::Clone(clone, _) => clone.data,
            Injection::Ale(defer, _) => defer.data,
        })
        .collect();
    assert_eq!(bytes, vec![vec![1], vec![2]]);

    let blocked: Packet<u32> = Packet::Network(buffer(vec![1], true), inject(false));
    assert!(inject_packet(blocked, true).is_empty());

    let defer: Packet<u32> = Packet::AleLayer(ClassifyDefer {
        handle: 4,
        reauthorization: false,
        data: vec![5],
    });
    let completed = inject_packet(defer, true);
    assert_eq!(completed.len(), 1);
    assert!(matches!(
        &completed[0],
        Injection::Ale(defer, false) if defer.handle == 4
    ));
}

#[test]
fn retreat_follows_plausible_metadata_only() {
    assert_eq!(ip_header_retreat(false, None), 20);
    assert_eq!(ip_header_retreat(true, None), 40);
    assert_eq!(ip_header_retreat(false, Some(19)), 20);
    assert_eq!(ip_header_retreat(false, Some(60)), 60);
    assert_eq!(ip_header_retreat(true, Some(128)), 128);
    assert_eq!(ip_header_retreat(true, Some(129)), 40);
}

#[test]
fn packet_that_cannot_be_read_has_no_metadata() {
    assert_eq!(inspection_fallback_len(false), 34);
    assert_eq!(inspection_fallback_len(true), 40);
    assert_eq!(
        inspect_packet(None, false, Direction::Outbound),
        PacketInspection::unreadable()
    );
    assert_ne!(
        inspect_packet(Some(&udp_packet()), false, Direction::Outbound),
        PacketInspection::unreadable()
    );
}
