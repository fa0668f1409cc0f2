//! The driver from packet to verdict.

use portmaster_kext::ale_callouts::{
    ale_capture, ale_flow_established_monitor, ale_hold, ale_resource_monitor,
    endpoint_closure_v4, endpoint_closure_v6, AleCapture, AleDecision, AleHold, AleHoldError,
    AleLayerData, ResourceLayer,
};
use portmaster_kext::ale_policy::InjectionStatus;
use portmaster_kext::connection::{Direction, Verdict};
use portmaster_kext::device::Device;
use portmaster_kext::device_flows::{reset_filters_for_defer, RemoveContextResult};
use portmaster_kext::device_requests::{ClosureStep, EndpointClosure};
use portmaster_kext::device_state::Action;
use portmaster_kext::ip::{IpAddress, IpProtocol, Ipv4Address, Ipv6Address};
use portmaster_kext::key::Key;
use portmaster_kext::packet::{ClassifyDefer, InjectInfo, NetBuffer, Packet};
use portmaster_kext::packet_callouts::{
    ClassifyAction, Indication, PacketContext, PacketDecision, PacketRequest,
};
use portmaster_kext::packet_metadata::{
    IcmpEcho, PacketInspection, PacketMetadata, PacketMetadataError,
};
use portmaster_kext::tcp_endpoint_cache::TcpEndpointConnection;
use portmaster_kext::udp_flow_cache::UdpFlowRegistration;

const NOW: u64 = 3_600_000;

type Driver = Device<u32, u32>;

fn driver() -> Driver {
    Device::new(60_000)
}

fn key(protocol: IpProtocol) -> Key {
    Key {
        protocol,
        local_address: IpAddress::Ipv4(Ipv4Address::new(10, 0, 0, 1)),
        local_port: 50_000,
        remote_address: IpAddress::Ipv4(Ipv4Address::new(192, 0, 2, 1)),
        remote_port: 443,
    }
}

fn inspection(key: Key) -> PacketInspection {
    PacketInspection {
        is_fragment: false,
        metadata: Ok(PacketMetadata {
            key,
            icmp_echo: None,
            is_icmp_port_unreachable: false,
            is_tcp_reset: false,
        }),
    }
}

fn echo(is_request: bool, identifier: u16) -> PacketInspection {
    PacketInspection {
        is_fragment: false,
        metadata: Ok(PacketMetadata {
            key: Key {
                local_port: 0,
                remote_port: 0,
                ..key(IpProtocol::Icmp)
            },
            icmp_echo: Some(IcmpEcho {
                is_request,
                identifier,
            }),
            is_icmp_port_unreachable: false,
            is_tcp_reset: false,
        }),
    }
}

fn context(direction: Direction) -> PacketContext {
    PacketContext {
        ipv6: false,
        direction,
        compartment_id: None,
        interface_index: 4,
        sub_interface_index: 5,
        injected_by_other: false,
        current_process_id: 77,
    }
}

fn clone(request: &PacketRequest, bytes: &[u8]) -> Packet<u32> {
    Packet::Network(
        NetBuffer {
            handle: 1,
            data: bytes.to_vec(),
            writable: true,
        },
        request.inject_info,
    )
}

fn asked(decision: PacketDecision) -> PacketRequest {
    match decision {
        PacketDecision::Ask(request) => request,
        other => panic!("{:?}", other),
    }
}

fn ask_outbound(device: &mut Driver, tuple: Key) -> PacketRequest {
    let request = asked(device.classify_packet(
        &inspection(tuple),
        &context(Direction::Outbound),
        NOW,
    ));
    let packet = clone(&request, &[1, 2, 3]);
    device.ask(request, packet);
    request
}

fn verdict(id: u64, verdict: u8) -> Vec<u8> {
    let mut bytes = vec![1];
    bytes.extend_from_slice(&id.to_le_bytes());
    bytes.push(verdict);
    bytes
}

fn injected(action: &Action<u32, u32>) -> Option<(bool, bool)> {
    match action {
        Action::Inject {
            blocked,
            reset_first,
            ..
        } => Some((*blocked, *reset_first)),
        _ => None,
    }
}

fn injections(device: &mut Driver) -> Vec<(bool, bool)> {
    device.take_actions().iter().filter_map(injected).collect()
}

fn read_all(device: &mut Driver) -> Vec<u8> {
    let mut bytes = Vec::new();
    while let Some(part) = device.read(4096) {
        bytes.extend_from_slice(&part);
    }
    bytes
}

fn logged(device: &mut Driver) -> Vec<String> {
    assert_eq!(device.write(&[5], NOW), Ok(()));
    let mut bytes = &read_all(device)[..];
    let mut lines = Vec::new();
    while !bytes.is_empty() {
        let size = u32::from_le_bytes([bytes[1], bytes[2], bytes[3], bytes[4]]) as usize;
        if bytes[0] == 0 {
            lines.push(String::from_utf8(bytes[6..5 + size].to_vec()).unwrap());
        }
        bytes = &bytes[5 + size..];
    }
    lines
}

fn record_types(mut bytes: &[u8]) -> Vec<u8> {
    let mut types = Vec::new();
    while !bytes.is_empty() {
        let size = u32::from_le_bytes([bytes[1], bytes[2], bytes[3], bytes[4]]) as usize;
        types.push(bytes[0]);
        bytes = &bytes[5 + size..];
    }
    types
}

#[test]
fn accepted_packet_returns_to_the_network() {
    let mut device = driver();
    let request = ask_outbound(&mut device, key(IpProtocol::Udp));
    assert_eq!(request.process_id, 0);
    assert_eq!(request.connection_instance_id, Some(1));
    let event = read_all(&mut device);
    assert_eq!(event[0], 1);
    assert_eq!(&event[5..13], &1u64.to_le_bytes());
    assert_eq!(&event[event.len() - 3..], &[1, 2, 3]);

    assert_eq!(device.write(&verdict(1, 2), NOW), Ok(()));
    assert_eq!(injections(&mut device), vec![(false, false)]);
}

#[test]
fn permanent_verdict_rules_later_packets_without_asking() {
    for (number, decision) in [
        (3, PacketDecision::Permit),
        (5, PacketDecision::BlockHard),
        (7, PacketDecision::Absorb),
    ] {
        let mut device = driver();
        ask_outbound(&mut device, key(IpProtocol::Udp));
        assert_eq!(device.write(&verdict(1, number), NOW), Ok(()));
        let blocked = number != 3;
        assert_eq!(injections(&mut device), vec![(blocked, false)]);
        assert_eq!(
            device.classify_packet(
                &inspection(key(IpProtocol::Udp)),
                &context(Direction::Outbound),
                NOW
            ),
            decision
        );
    }
}

#[test]
fn temporary_verdict_asks_for_the_next_packet() {
    let mut device = driver();
    ask_outbound(&mut device, key(IpProtocol::Udp));
    assert_eq!(device.write(&verdict(1, 2), NOW), Ok(()));
    let again = ask_outbound(&mut device, key(IpProtocol::Udp));
    assert_eq!(again.connection_instance_id, Some(1));
    assert_eq!(device.packet_cache.queued_ids(), vec![2]);
}

#[test]
fn redirected_connection_rewrites_later_packets() {
    let mut device = driver();
    ask_outbound(&mut device, key(IpProtocol::Udp));
    assert_eq!(device.write(&verdict(1, 8), NOW), Ok(()));
    device.take_actions();
    match device.classify_packet(
        &inspection(key(IpProtocol::Udp)),
        &context(Direction::Outbound),
        NOW,
    ) {
        PacketDecision::Redirect(info, inject_info) => {
            assert_eq!(info.redirect_port, 53);
            assert!(!inject_info.inbound);
            let unreadable: Packet<u32> = Packet::Network(
                NetBuffer {
                    handle: 1,
                    data: Vec::new(),
                    writable: false,
                },
                inject_info,
            );
            device.redirect_clone(unreadable, info);
        }
        other => panic!("{:?}", other),
    }
    assert!(device.take_actions().is_empty());
    let lines = logged(&mut device);
    assert_eq!(
        lines.last().map(String::as_str),
        Some("failed to redirect packet: trying to redirect immutable NBL")
    );
}

#[test]
fn verdict_is_consumed_once() {
    let mut device = driver();
    ask_outbound(&mut device, key(IpProtocol::Udp));
    assert_eq!(device.write(&verdict(1, 2), NOW), Ok(()));
    assert_eq!(injections(&mut device).len(), 1);
    assert_eq!(device.write(&verdict(1, 4), NOW), Ok(()));
    assert!(device.take_actions().is_empty());
    assert_eq!(logged(&mut device), vec!["Verdict invalid id: 1".to_string()]);
}

#[test]
fn invalid_verdict_number_does_not_consume_the_packet() {
    let mut device = driver();
    ask_outbound(&mut device, key(IpProtocol::Udp));
    assert_eq!(device.write(&verdict(1, 12), NOW), Err(0));
    assert_eq!(device.packet_cache.queued_ids(), vec![1]);
}

#[test]
fn commands_before_an_invalid_one_take_effect() {
    let mut device = driver();
    ask_outbound(&mut device, key(IpProtocol::Udp));
    ask_outbound(&mut device, key(IpProtocol::Tcp));
    let mut buffer = verdict(1, 2);
    buffer.push(99);
    buffer.extend_from_slice(&verdict(2, 2));
    assert_eq!(device.write(&buffer, NOW), Err(10));
    assert_eq!(device.packet_cache.queued_ids(), vec![2]);
    assert_eq!(device.write(&[], NOW), Err(0));
    assert_eq!(device.write(&verdict(2, 2)[..5], NOW), Err(0));
}

#[test]
fn joined_writes_do_what_separate_writes_do() {
    let mut joined = driver();
    let mut separate = driver();
    for device in [&mut joined, &mut separate] {
        ask_outbound(device, key(IpProtocol::Udp));
        ask_outbound(device, key(IpProtocol::Tcp));
    }
    let mut both = verdict(1, 2);
    both.extend_from_slice(&verdict(2, 4));
    assert_eq!(joined.write(&both, NOW), Ok(()));
    assert_eq!(separate.write(&verdict(1, 2), NOW), Ok(()));
    assert_eq!(separate.write(&verdict(2, 4), NOW), Ok(()));
    assert_eq!(injections(&mut joined), injections(&mut separate));
    assert_eq!(read_all(&mut joined), read_all(&mut separate));
}

#[test]
fn reads_of_any_size_give_the_same_stream() {
    let mut whole = driver();
    let mut parts = driver();
    for device in [&mut whole, &mut parts] {
        ask_outbound(device, key(IpProtocol::Udp));
        ask_outbound(device, key(IpProtocol::Tcp));
    }
    let expected = read_all(&mut whole);
    let mut bytes = Vec::new();
    while let Some(part) = parts.read(7) {
        assert!(part.len() <= 7);
        bytes.extend_from_slice(&part);
    }
    assert_eq!(bytes, expected);
    assert!(parts.read(7).is_none());
}

#[test]
fn new_owner_starts_at_a_record_boundary() {
    let mut device = driver();
    device.create(1, 1, false);
    ask_outbound(&mut device, key(IpProtocol::Udp));
    ask_outbound(&mut device, key(IpProtocol::Tcp));
    let first = device.read(9).unwrap();
    assert_eq!(first.len(), 9);
    device.cleanup(1);
    device.create(2, 2, false);
    let rest = read_all(&mut device);
    assert_eq!(record_types(&rest), vec![1]);
    assert_eq!(&rest[5..13], &2u64.to_le_bytes());
}

#[test]
fn packets_that_need_no_decision_are_permitted() {
    let mut device = driver();
    let inbound = context(Direction::Inbound);
    let outbound = context(Direction::Outbound);
    assert_eq!(
        device.classify_packet(&inspection(key(IpProtocol::Tcp)), &inbound, NOW),
        PacketDecision::PermitIndication
    );
    let mut reset = inspection(key(IpProtocol::Tcp));
    if let Ok(metadata) = &mut reset.metadata {
        metadata.is_tcp_reset = true;
    }
    assert_eq!(
        device.classify_packet(&reset, &outbound, NOW),
        PacketDecision::PermitIndication
    );
    let mut unreachable_message = inspection(key(IpProtocol::Icmp));
    if let Ok(metadata) = &mut unreachable_message.metadata {
        metadata.is_icmp_port_unreachable = true;
    }
    assert_eq!(
        device.classify_packet(&unreachable_message, &outbound, NOW),
        PacketDecision::PermitIndication
    );
    let mut local = key(IpProtocol::Udp);
    local.local_port = 717;
    local.remote_address = local.local_address;
    assert_eq!(
        device.classify_packet(&inspection(local), &outbound, NOW),
        PacketDecision::PermitIndication
    );
    assert_eq!(device.connection_cache.get_entries_count(), 0);
}

#[test]
fn unreadable_packet_ends_the_classification() {
    let mut device = driver();
    let broken = PacketInspection {
        is_fragment: false,
        metadata: Err(PacketMetadataError::UnresolvedIpv6Headers),
    };
    assert_eq!(
        device.classify_packet(&broken, &context(Direction::Outbound), NOW),
        PacketDecision::Stop
    );
    let mut mixed = key(IpProtocol::Udp);
    mixed.remote_address = IpAddress::Ipv6(Ipv6Address::localhost());
    assert_eq!(
        device.classify_packet(&inspection(mixed), &context(Direction::Outbound), NOW),
        PacketDecision::Stop
    );
    assert_eq!(
        logged(&mut device),
        vec![
            "failed to get key from nbl: IPv6 extension header chain did not resolve".to_string(),
            "failed to build connection: wrong ip address version".to_string(),
        ]
    );
}

#[test]
fn foreign_packet_is_decided_on_its_own() {
    let mut device = driver();
    let foreign = PacketContext {
        injected_by_other: true,
        ..context(Direction::Outbound)
    };
    let request = asked(device.classify_packet(&inspection(key(IpProtocol::Udp)), &foreign, NOW));
    assert_eq!(request.connection_instance_id, None);
    assert_eq!(request.process_id, 77);
    assert_eq!(device.connection_cache.get_entries_count(), 0);
    let packet = clone(&request, &[9]);
    device.ask(request, packet);
    assert_eq!(device.write(&verdict(1, 3), NOW), Ok(()));
    assert_eq!(injections(&mut device), vec![(false, false)]);
    assert_eq!(device.connection_cache.get_entries_count(), 0);
}

#[test]
fn echo_reply_belongs_to_the_process_that_asked() {
    let mut device = driver();
    let request = asked(device.classify_packet(
        &echo(true, 5),
        &context(Direction::Outbound),
        NOW,
    ));
    assert_eq!((request.direction, request.process_id), (Direction::Outbound, 77));
    let reply = asked(device.classify_packet(
        &echo(false, 5),
        &context(Direction::Outbound),
        NOW,
    ));
    assert_eq!((reply.direction, reply.process_id), (Direction::Inbound, 77));
    assert!(reply.inject_info.inbound);
    let late = asked(device.classify_packet(&echo(false, 5), &context(Direction::Inbound), NOW));
    assert_eq!((late.direction, late.process_id), (Direction::Inbound, 0));
    let answer = asked(device.classify_packet(
        &echo(false, 6),
        &context(Direction::Outbound),
        NOW,
    ));
    assert_eq!((answer.direction, answer.process_id), (Direction::Outbound, 0));
}

#[test]
fn unanswered_echo_requests_expire() {
    let mut device = driver();
    device.classify_packet(&echo(true, 5), &context(Direction::Outbound), NOW);
    device.classify_packet(&echo(true, 6), &context(Direction::Outbound), NOW + 50_000);
    assert_eq!(device.icmp_echo_cache.get_entries_count(), 2);
    device.clean_ended_connections(NOW + 60_001);
    assert_eq!(device.icmp_echo_cache.get_entries_count(), 1);
}

#[test]
fn indication_is_permitted_only_by_a_decision() {
    let first = Indication::after_first(None);
    assert_eq!(first.indication.action, ClassifyAction::DefaultBlock);
    assert!(!first.indication.finished);
    let open = first.indication;
    let stopped = open.after_packet(&PacketDecision::Stop, false);
    assert!(stopped.finished);
    assert_eq!(stopped.action, ClassifyAction::DefaultBlock);
    let absorbed = open.after_packet(&PacketDecision::Absorb, false);
    assert_eq!(absorbed.action, ClassifyAction::BlockAndAbsorb);
    assert!(!absorbed.finished);
    let permitted = absorbed.after_packet(&PacketDecision::Permit, false);
    assert_eq!(permitted.action, ClassifyAction::Permit);
    assert!(!permitted.finished);

    let fragment = Indication::after_first(Some(PacketInspection {
        is_fragment: true,
        ..inspection(key(IpProtocol::Udp))
    }));
    assert!(fragment.indication.finished);
    assert_eq!(fragment.indication.action, ClassifyAction::Permit);
    let own = open.after_injection_query(InjectionStatus::new(false, true, true, false));
    assert_eq!(own.action, ClassifyAction::Permit);
    let other = open.after_injection_query(InjectionStatus::new(false, false, true, false));
    assert_eq!(other, open);
}

#[test]
fn packet_of_an_ended_connection_is_completed_as_blocked() {
    let mut device = driver();
    let request = asked(device.classify_packet(
        &inspection(key(IpProtocol::Tcp)),
        &context(Direction::Outbound),
        NOW,
    ));
    device.end_tuple(&key(IpProtocol::Tcp), 3, NOW);
    let packet = clone(&request, &[1]);
    device.ask(request, packet);
    assert_eq!(injections(&mut device), vec![(true, false)]);
    assert!(device.packet_cache.queued_ids().is_empty());
}

#[test]
fn ending_a_connection_retires_its_requests() {
    let mut device = driver();
    ask_outbound(&mut device, key(IpProtocol::Tcp));
    ask_outbound(&mut device, key(IpProtocol::Udp));
    read_all(&mut device);
    endpoint_closure_v4(
        &mut device,
        IpProtocol::Tcp,
        Some(key(IpProtocol::Tcp).local_address),
        50_000,
        Some(key(IpProtocol::Tcp).remote_address),
        Some(443),
        Some(9),
        NOW,
    );
    assert_eq!(injections(&mut device), vec![(true, false)]);
    let end = read_all(&mut device);
    assert_eq!(record_types(&end), vec![3]);
    assert_eq!(&end[5..13], &9u64.to_le_bytes());

    // The clone of an outbound datagram can still be delivered.
    device.end_tuple(&key(IpProtocol::Udp), 0, NOW);
    assert!(device.take_actions().is_empty());
    assert_eq!(device.packet_cache.queued_ids(), vec![2]);
    assert_eq!(device.packet_cache.queued_instance(2), Some(None));
}

#[test]
fn closure_without_a_remote_peer_is_ignored() {
    let mut device = driver();
    ask_outbound(&mut device, key(IpProtocol::Tcp));
    read_all(&mut device);
    endpoint_closure_v4(
        &mut device,
        IpProtocol::Tcp,
        Some(key(IpProtocol::Tcp).local_address),
        50_000,
        None,
        Some(443),
        None,
        NOW,
    );
    endpoint_closure_v6(
        &mut device,
        IpProtocol::Tcp,
        Some(IpAddress::Ipv6(Ipv6Address::localhost())),
        None,
        Some(IpAddress::Ipv6(Ipv6Address::localhost())),
        Some(443),
        None,
        NOW,
    );
    assert!(device.read(64).is_none());
}

#[test]
fn shutdown_blocks_everything_that_waits() {
    let mut device = driver();
    ask_outbound(&mut device, key(IpProtocol::Tcp));
    ask_outbound(&mut device, key(IpProtocol::Udp));
    assert_eq!(device.write(&[0], NOW), Ok(()));
    assert_eq!(injections(&mut device), vec![(true, false), (true, false)]);
    assert!(device.packet_cache.queued_ids().is_empty());
    assert_eq!(
        device.classify_packet(
            &inspection(key(IpProtocol::Tcp)),
            &context(Direction::Outbound),
            NOW
        ),
        PacketDecision::BlockHard
    );
}

fn ale(protocol: IpProtocol, direction: Direction) -> AleLayerData {
    let tuple = key(protocol);
    AleLayerData {
        is_ipv6: false,
        reauthorize: false,
        process_id: 4_000,
        protocol,
        direction,
        packet_direction: direction,
        local_ip: tuple.local_address,
        local_port: tuple.local_port,
        remote_ip: tuple.remote_address,
        remote_port: tuple.remote_port,
        interface_index: 0,
        sub_interface_index: 0,
    }
}

fn quiet() -> InjectionStatus {
    InjectionStatus::new(false, false, false, false)
}

fn held(reauthorization: bool) -> Packet<u32> {
    Packet::AleLayer(ClassifyDefer {
        handle: 3,
        reauthorization,
        data: vec![4, 4],
    })
}

fn act(action: ClassifyAction) -> AleDecision {
    AleDecision::Act {
        action,
        protect: false,
    }
}

#[test]
fn new_connection_waits_at_the_authorization_layer() {
    let mut device = driver();
    let data = ale(IpProtocol::Tcp, Direction::Outbound);
    assert_eq!(
        device.authorize(&data, quiet(), NOW),
        AleDecision::Save { instance_id: None }
    );
    device.save(&data, None, held(false), NOW);
    assert_eq!(
        device.authorize(&data, quiet(), NOW),
        AleDecision::Save {
            instance_id: Some(1)
        }
    );
    device.save(&data, Some(1), held(true), NOW);
    let events = read_all(&mut device);
    assert_eq!(record_types(&events), vec![1, 1]);
    assert_eq!(device.write(&verdict(1, 3), NOW), Ok(()));
    assert_eq!(device.write(&verdict(2, 3), NOW), Ok(()));
    // What could not be pended needs a reset of the filters first.
    assert_eq!(injections(&mut device), vec![(false, false), (false, true)]);
    assert_eq!(
        device.authorize(&data, quiet(), NOW),
        act(ClassifyAction::Permit)
    );
}

#[test]
fn temporary_refusal_is_enforced_where_the_packet_layer_cannot() {
    for (number, action) in [
        (4, ClassifyAction::BlockHard),
        (6, ClassifyAction::BlockAndAbsorb),
    ] {
        for (direction, expected) in [
            (Direction::Outbound, ClassifyAction::Permit),
            (Direction::Inbound, action),
        ] {
            let mut device = driver();
            let data = ale(IpProtocol::Tcp, direction);
            device.save(&data, None, held(false), NOW);
            assert_eq!(device.write(&verdict(1, number), NOW), Ok(()));
            assert_eq!(device.authorize(&data, quiet(), NOW), act(expected));
        }
    }
}

#[test]
fn outbound_datagrams_are_registered_and_left_to_the_packet_layer() {
    let mut device = driver();
    device.create(1, 4_000, false);
    let data = ale(IpProtocol::Udp, Direction::Outbound);
    assert_eq!(
        device.authorize(&data, quiet(), NOW),
        AleDecision::Act {
            action: ClassifyAction::Permit,
            protect: true
        }
    );
    let request = asked(device.classify_packet(
        &inspection(key(IpProtocol::Udp)),
        &context(Direction::Outbound),
        NOW,
    ));
    assert_eq!(request.process_id, 4_000);
}

#[test]
fn injected_and_portless_indications_are_permitted() {
    let mut device = driver();
    let data = ale(IpProtocol::Tcp, Direction::Inbound);
    let own = InjectionStatus::new(true, false, false, false);
    assert_eq!(device.authorize(&data, own, NOW), act(ClassifyAction::Permit));
    let icmp = ale(IpProtocol::Icmp, Direction::Inbound);
    assert_eq!(
        device.authorize(&icmp, quiet(), NOW),
        act(ClassifyAction::Permit)
    );
    assert_eq!(icmp.as_key().local_port, 0);
    let mut loopback = data;
    loopback.local_ip = IpAddress::Ipv4(Ipv4Address::localhost());
    assert_eq!(
        device.authorize(&loopback, own, NOW),
        AleDecision::Save { instance_id: None }
    );
    assert_eq!(device.connection_cache.get_entries_count(), 0);
}

#[test]
fn receive_accept_capture_checks_the_header_sizes() {
    let inbound = ale(IpProtocol::Tcp, Direction::Inbound);
    let text = |result: Result<AleCapture, Vec<u8>>| String::from_utf8(result.unwrap_err()).unwrap();
    assert_eq!(
        ale_capture(&inbound, true, Some(24), Some(32)),
        Ok(AleCapture::Retreat {
            header_size: 56,
            event_data_offset: 24
        })
    );
    assert_eq!(
        text(ale_capture(&inbound, true, None, Some(20))),
        "missing ALE IP header size metadata"
    );
    assert_eq!(
        text(ale_capture(&inbound, true, Some(19), Some(20))),
        "invalid ALE IP header size: 19"
    );
    assert_eq!(
        text(ale_capture(&inbound, true, Some(20), None)),
        "missing ALE transport header size metadata"
    );
    assert_eq!(
        text(ale_capture(&inbound, true, Some(20), Some(19))),
        "invalid ALE transport header size: 19"
    );
    assert_eq!(
        text(ale_capture(&inbound, true, Some(u32::MAX), Some(20))),
        "ALE header size overflow"
    );
    assert_eq!(
        ale_capture(&inbound, false, None, None),
        Ok(AleCapture::Nothing)
    );
    let connect = ale(IpProtocol::Tcp, Direction::Outbound);
    assert_eq!(
        ale_capture(&connect, true, None, None),
        Ok(AleCapture::Nothing)
    );
    let datagram = ale(IpProtocol::Udp, Direction::Outbound);
    assert_eq!(
        ale_capture(&datagram, true, None, None),
        Ok(AleCapture::InPlace)
    );
}

#[test]
fn only_the_first_packet_is_pended() {
    let inbound = ale(IpProtocol::Tcp, Direction::Inbound);
    assert_eq!(ale_hold(&inbound, true, true), Ok(AleHold::PendOperation));
    assert_eq!(ale_hold(&inbound, false, false), Ok(AleHold::PendFilterRest));
    assert_eq!(
        ale_hold(&inbound, true, false),
        Err(AleHoldError::NoPacketData)
    );
    assert_eq!(
        AleHoldError::NoPacketData.message(),
        "ALE receive/accept indication has no packet data"
    );
}

#[test]
fn established_flow_repairs_the_owning_process() {
    let mut device = driver();
    ask_outbound(&mut device, key(IpProtocol::Tcp));
    let tuple = key(IpProtocol::Tcp);
    for process_id in [None, Some(0), Some(55)] {
        ale_flow_established_monitor(
            &mut device,
            Some(IpProtocol::Tcp),
            Some(tuple.local_address),
            Some(tuple.local_port),
            Some(tuple.remote_address),
            Some(tuple.remote_port),
            process_id,
            NOW,
        );
    }
    let request = asked(device.classify_packet(
        &inspection(tuple),
        &context(Direction::Outbound),
        NOW,
    ));
    assert_eq!(request.process_id, 55);
}

#[test]
fn released_port_ends_its_connections() {
    let mut device = driver();
    ask_outbound(&mut device, key(IpProtocol::Tcp));
    ask_outbound(&mut device, key(IpProtocol::Udp));
    read_all(&mut device);
    ale_resource_monitor(
        &mut device,
        ResourceLayer::Other,
        (IpProtocol::Tcp, 50_000),
        None,
        None,
        NOW,
    );
    ale_resource_monitor(
        &mut device,
        ResourceLayer::ReleaseV6,
        (IpProtocol::Tcp, 50_000),
        None,
        None,
        NOW,
    );
    assert!(device.read(64).is_none());
    ale_resource_monitor(
        &mut device,
        ResourceLayer::ReleaseV4,
        (IpProtocol::Tcp, 50_000),
        None,
        None,
        NOW,
    );
    assert_eq!(record_types(&read_all(&mut device)), vec![3]);
    assert_eq!(injections(&mut device), vec![(true, false)]);
    assert_eq!(device.packet_cache.queued_ids(), vec![2]);
}

#[test]
fn closing_endpoint_waits_for_its_requests() {
    let mut device = driver();
    ask_outbound(&mut device, key(IpProtocol::Tcp));
    read_all(&mut device);
    let endpoint = TcpEndpointConnection {
        key: key(IpProtocol::Tcp),
        parent_endpoint_handle: None,
        instance_id: 1,
    };
    assert_eq!(device.next_closure_step(&endpoint), ClosureStep::Wait);
    assert!(device.defer_tcp_endpoint_closure(endpoint, 5, 60, NOW));
    assert!(!device.defer_tcp_endpoint_closure(endpoint, 5, 61, NOW));
    let actions = device.take_actions();
    assert!(matches!(actions[..], [Action::CompleteClassify(61)]));
    assert_eq!(
        logged(&mut device),
        vec!["duplicate TCP endpoint closure for connection instance 1".to_string()]
    );

    assert_eq!(device.write(&verdict(1, 2), NOW), Ok(()));
    let actions = device.take_actions();
    assert_eq!(actions.len(), 2);
    assert!(matches!(actions[1], Action::CompleteClassify(60)));
    assert_eq!(record_types(&read_all(&mut device)), vec![3]);
    assert_eq!(device.next_closure_step(&endpoint), ClosureStep::Ignore);
}

#[test]
fn endpoint_without_requests_closes_at_once() {
    let mut device = driver();
    ask_outbound(&mut device, key(IpProtocol::Tcp));
    assert_eq!(device.write(&verdict(1, 3), NOW), Ok(()));
    read_all(&mut device);
    let endpoint = TcpEndpointConnection {
        key: key(IpProtocol::Tcp),
        parent_endpoint_handle: None,
        instance_id: 1,
    };
    assert_eq!(device.next_closure_step(&endpoint), ClosureStep::End);
    device.close_tcp_endpoint(endpoint, 5, NOW);
    assert_eq!(record_types(&read_all(&mut device)), vec![3]);
}

#[test]
fn closed_socket_ends_all_its_peers() {
    let mut device = driver();
    let data = ale(IpProtocol::Udp, Direction::Outbound);
    device.authorize(&data, quiet(), NOW);
    let mut second = data;
    second.remote_port = 444;
    device.authorize(&second, quiet(), NOW);
    assert!(device.udp_endpoint_cache.associate_instance(8, data.as_key(), 1));
    assert!(device.udp_endpoint_cache.associate_instance(8, second.as_key(), 2));
    device.close_udp_endpoint(9, 5, NOW);
    assert!(device.read(64).is_none());
    device.close_udp_endpoint(8, 5, NOW);
    assert_eq!(record_types(&read_all(&mut device)), vec![3, 3]);
}

#[test]
fn update_reaches_the_live_connection_and_resets_filters() {
    let mut device = driver();
    ask_outbound(&mut device, key(IpProtocol::Tcp));
    let mut update = vec![2, 6, 10, 0, 0, 1];
    update.extend_from_slice(&50_000u16.to_le_bytes());
    update.extend_from_slice(&[192, 0, 2, 1]);
    update.extend_from_slice(&443u16.to_le_bytes());
    update.push(5);
    assert_eq!(device.write(&update, NOW), Ok(()));
    assert!(matches!(device.take_actions()[..], [Action::ResetFilters]));
    assert_eq!(
        device.classify_packet(
            &inspection(key(IpProtocol::Tcp)),
            &context(Direction::Outbound),
            NOW
        ),
        PacketDecision::BlockHard
    );
}

#[test]
fn clearing_forgets_connections_without_reporting() {
    let mut device = driver();
    ask_outbound(&mut device, key(IpProtocol::Tcp));
    read_all(&mut device);
    assert_eq!(device.write(&[4], NOW), Ok(()));
    assert!(device.read(64).is_none());
    assert_eq!(device.connection_cache.get_entries_count(), 0);
    assert!(matches!(device.take_actions()[..], [Action::ResetFilters]));
}

#[test]
fn memory_statistics_are_logged() {
    let mut device = driver();
    ask_outbound(&mut device, key(IpProtocol::Tcp));
    read_all(&mut device);
    assert_eq!(device.write(&[7], NOW), Ok(()));
    let lines = logged(&mut device);
    assert_eq!(lines[0], "Packet cache: 1 entries");
    assert_eq!(lines[1], "Connection cache: IPv4 1 entries, IPv6 0 entries");
}

#[test]
fn idle_fallback_connection_ends_with_maintenance() {
    let mut device = driver();
    ask_outbound(&mut device, key(IpProtocol::Udp));
    read_all(&mut device);
    assert_eq!(device.write(&[8], NOW + 3_600_000), Ok(()));
    assert_eq!(record_types(&read_all(&mut device)), vec![3]);
}

#[test]
fn bandwidth_is_reported_on_request() {
    let mut device = driver();
    let flow = || portmaster_kext::bandwidth::Key {
        local_ip: Ipv4Address::new(10, 0, 0, 1),
        local_port: 1,
        remote_ip: Ipv4Address::new(192, 0, 2, 1),
        remote_port: 2,
    };
    portmaster_kext::stream_callouts::stream_layer_tcp_v4(&mut device, flow(), true, 0);
    portmaster_kext::stream_callouts::stream_layer_udp_v4(
        &mut device,
        flow(),
        IpProtocol::Udp,
        0,
        true,
        &[100],
    );
    assert_eq!(device.write(&[6], NOW), Ok(()));
    assert!(device.read(64).is_none());

    portmaster_kext::stream_callouts::stream_layer_tcp_v4(&mut device, flow(), true, 70);
    portmaster_kext::stream_callouts::stream_layer_udp_v4(
        &mut device,
        flow(),
        IpProtocol::Udp,
        0,
        false,
        &[100, 5, 9],
    );
    assert_eq!(device.write(&[6], NOW), Ok(()));
    let report = read_all(&mut device);
    assert_eq!(record_types(&report), vec![5, 5]);
    assert_eq!(&report[30..38], &70u64.to_le_bytes());
    assert_eq!(&report[38 + 22..38 + 30], &93u64.to_le_bytes());
}

#[test]
fn returned_flow_contexts_are_accounted_for() {
    let mut device = driver();
    let registration = UdpFlowRegistration::new(3, 48, 7, 1_003);
    assert!(device.udp_flow_cache.register(100, registration));
    assert!(device.udp_flow_cache.mark_associated(100, 1_003));
    device.begin_unload();
    assert!(!device.drain_udp_flow_contexts());
    let asked_for = match &device.take_actions()[..] {
        [Action::RemoveFlowContext(registration)] => *registration,
        _ => panic!("one context"),
    };
    assert_eq!(asked_for.flow_context, 100);
    assert!(!device.drain_udp_flow_contexts());
    assert!(device.take_actions().is_empty());

    assert!(!device.flow_context_answered(
        asked_for,
        RemoveContextResult::Failed("busy".to_string())
    ));
    assert_eq!(
        logged(&mut device),
        vec!["failed to remove UDP flow context 3: busy".to_string()]
    );
    assert!(!device.drain_udp_flow_contexts());
    assert_eq!(device.take_actions().len(), 1);
    assert!(!device.flow_context_answered(asked_for, RemoveContextResult::Pending));
    assert!(device.flow_context_answered(asked_for, RemoveContextResult::AlreadyGone));
    assert!(!device.flow_context_answered(asked_for, RemoveContextResult::AlreadyGone));
    assert!(device.drain_udp_flow_contexts());
}

#[test]
fn lost_reset_race_counts_as_success() {
    assert_eq!(reset_filters_for_defer(Ok(())), Ok(()));
    assert_eq!(
        reset_filters_for_defer(Err("reset: STATUS_FWP_TXN_IN_PROGRESS".to_string())),
        Ok(())
    );
    assert_eq!(
        reset_filters_for_defer(Err("access denied".to_string())),
        Err("access denied".to_string())
    );
}

#[test]
fn connection_info_follows_the_direction_of_the_packet() {
    let mut device = driver();
    ask_outbound(&mut device, key(IpProtocol::Tcp));
    device.end_tuple(&key(IpProtocol::Tcp), 0, NOW);
    let tuple = key(IpProtocol::Tcp);
    let outbound = device.get_connection_info(&tuple, false, Direction::Outbound, true, NOW);
    assert_eq!(outbound.map(|info| info.verdict), Some(Verdict::Undecided));
    assert!(device
        .get_connection_info(&tuple, false, Direction::Inbound, true, NOW)
        .is_none());
    assert!(device
        .get_connection_info(&tuple, false, Direction::Outbound, false, NOW)
        .is_none());
}

#[test]
fn clone_of_a_loopback_packet_is_marked() {
    let info = InjectInfo {
        ipv6: false,
        inbound: false,
        loopback: true,
        compartment_id: None,
        interface_index: 4,
        sub_interface_index: 5,
    };
    let mut device = driver();
    let mut tuple = key(IpProtocol::Udp);
    tuple.local_address = IpAddress::Ipv4(Ipv4Address::localhost());
    let request = asked(device.classify_packet(
        &inspection(tuple),
        &context(Direction::Outbound),
        NOW,
    ));
    assert_eq!(request.inject_info, info);
}

#[test]
fn rejected_commands_are_recorded() {
    let mut device = driver();
    assert_eq!(device.write(&[], NOW), Err(0));
    assert_eq!(device.write(&[9], NOW), Err(0));
    assert_eq!(device.write(&[4, 1, 0, 0], NOW), Err(1));
    assert_eq!(device.write(&verdict(1, 12), NOW), Err(0));
    let mut update = vec![2; 15];
    update[14] = 200;
    assert_eq!(device.write(&update, NOW), Err(0));
    assert_eq!(
        logged(&mut device),
        vec![
            "Rejecting empty command write".to_string(),
            "Unknown command number: 9".to_string(),
            "Invalid command payload length: expected 9, received 2".to_string(),
            "invalid verdict value: 12".to_string(),
            "invalid verdict value: 200".to_string(),
        ]
    );
}

#[test]
fn rejected_open_is_recorded() {
    let mut device = driver();
    device.create(11, 7, false);
    device.create(12, 8, false);
    assert_eq!(
        logged(&mut device),
        vec!["Rejecting additional device open from PID 8".to_string()]
    );
}

#[test]
fn packet_that_cannot_be_redirected_is_dropped_and_recorded() {
    let mut device = driver();
    ask_outbound(&mut device, key(IpProtocol::Udp));
    assert_eq!(device.write(&verdict(1, 8), NOW), Ok(()));
    assert!(device.take_actions().is_empty());
    assert_eq!(
        logged(&mut device),
        vec!["failed to redirect packet: invalid IPv4 packet".to_string()]
    );
}

#[test]
fn redirect_verdict_without_redirect_state_is_recorded() {
    let mut device = driver();
    let request = asked(device.classify_packet(
        &echo(true, 7),
        &context(Direction::Outbound),
        NOW,
    ));
    let packet = clone(&request, &[1, 2, 3]);
    device.ask(request, packet);
    assert_eq!(device.write(&verdict(1, 9), NOW), Ok(()));
    assert_eq!(injections(&mut device), vec![(true, false)]);
    assert_eq!(
        logged(&mut device),
        vec!["failed to redirect packet: redirect state is unavailable".to_string()]
    );
}

#[test]
fn closing_handle_ends_what_need_not_wait() {
    let mut device = driver();
    assert_eq!(device.close_endpoint(7, 5, NOW), EndpointClosure::Unknown);
    ask_outbound(&mut device, key(IpProtocol::Tcp));
    assert!(device
        .tcp_endpoint_cache
        .associate_instance(7, key(IpProtocol::Tcp), None, 1));
    let endpoint = match device.close_endpoint(7, 5, NOW) {
        EndpointClosure::Wait(endpoint) => endpoint,
        other => panic!("{:?}", other),
    };
    assert_eq!(endpoint.instance_id, 1);
    assert_eq!(device.close_endpoint(7, 5, NOW), EndpointClosure::Unknown);
    // The request is answered before the closure could be deferred.
    assert_eq!(device.write(&verdict(1, 3), NOW), Ok(()));
    device.take_actions();
    read_all(&mut device);
    assert!(!device.defer_tcp_endpoint_closure(endpoint, 5, 60, NOW));
    assert!(matches!(device.take_actions()[..], [Action::CompleteClassify(60)]));
    assert_eq!(record_types(&read_all(&mut device)), vec![3]);
    assert!(!device.defer_tcp_endpoint_closure(endpoint, 5, 61, NOW));
    assert!(matches!(device.take_actions()[..], [Action::CompleteClassify(61)]));
    assert!(device.read(64).is_none());
}

#[test]
fn closing_handle_without_requests_ends_its_connection() {
    let mut device = driver();
    ask_outbound(&mut device, key(IpProtocol::Tcp));
    assert_eq!(device.write(&verdict(1, 3), NOW), Ok(()));
    read_all(&mut device);
    assert!(device
        .tcp_endpoint_cache
        .associate_instance(7, key(IpProtocol::Tcp), None, 1));
    assert_eq!(device.close_endpoint(7, 5, NOW), EndpointClosure::Closed);
    assert_eq!(record_types(&read_all(&mut device)), vec![3]);
}

#[test]
fn what_is_asked_while_classification_stops_is_resolved_as_well() {
    let mut device = driver();
    device.shutdown(NOW);
    assert!(matches!(device.take_actions()[..], [Action::Stop]));
    ask_outbound(&mut device, key(IpProtocol::Udp));
    device.resolve_all(NOW);
    assert_eq!(injections(&mut device), vec![(true, false)]);
    assert!(device.packet_cache.queued_ids().is_empty());
}

#[test]
fn lasting_verdicts_rule_later_packets() {
    for (number, port) in [(1, None), (10, None), (8, Some(53)), (9, Some(717)), (11, Some(719))] {
        let mut device = driver();
        ask_outbound(&mut device, key(IpProtocol::Udp));
        assert_eq!(device.write(&verdict(1, number), NOW), Ok(()));
        let decision = device.classify_packet(
            &inspection(key(IpProtocol::Udp)),
            &context(Direction::Outbound),
            NOW,
        );
        match (decision, port) {
            (PacketDecision::Absorb, None) => {}
            (PacketDecision::Redirect(info, _), Some(port)) => {
                assert_eq!(info.redirect_port, port);
            }
            (other, _) => panic!("{}: {:?}", number, other),
        }
    }
}

#[test]
fn packets_of_a_batch_get_their_own_verdicts() {
    let mut device = driver();
    let request = asked(device.classify_packet(
        &inspection(key(IpProtocol::Udp)),
        &context(Direction::Outbound),
        NOW,
    ));
    let buffers = (1..=3)
        .map(|handle| NetBuffer {
            handle,
            data: vec![handle as u8],
            writable: true,
        })
        .collect();
    device.ask(request, Packet::NetworkBatch(buffers, request.inject_info));
    assert_eq!(device.packet_cache.queued_ids(), vec![1, 2, 3]);

    assert_eq!(device.write(&verdict(2, 4), NOW), Ok(()));
    assert_eq!(device.write(&verdict(3, 2), NOW), Ok(()));
    let handles: Vec<(u32, bool)> = device
        .take_actions()
        .into_iter()
        .map(|action| match action {
            Action::Inject {
                packet: Packet::Network(buffer, _),
                blocked,
                ..
            } => (buffer.handle, blocked),
            _ => panic!("not an injected packet"),
        })
        .collect();
    assert_eq!(handles, vec![(2, true), (3, false)]);
    assert_eq!(device.packet_cache.queued_ids(), vec![1]);
}

#[test]
fn verdicts_rule_later_authorizations() {
    let permit = act(ClassifyAction::Permit);
    let block = act(ClassifyAction::BlockHard);
    let absorb = act(ClassifyAction::BlockAndAbsorb);
    for (number, outbound, inbound) in [
        (1, block, block),
        (2, permit, permit),
        (3, permit, permit),
        (4, permit, block),
        (5, block, block),
        (6, permit, absorb),
        (7, absorb, absorb),
        (8, permit, permit),
        (9, permit, permit),
        (10, block, block),
        (11, permit, permit),
    ] {
        for (direction, expected) in [
            (Direction::Outbound, outbound),
            (Direction::Inbound, inbound),
        ] {
            let mut device = driver();
            let data = ale(IpProtocol::Tcp, direction);
            device.save(&data, None, held(false), NOW);
            assert_eq!(device.write(&verdict(1, number), NOW), Ok(()));
            assert_eq!(device.authorize(&data, quiet(), NOW), expected, "{}", number);
        }
    }
}

#[test]
fn released_port_of_another_address_ends_nothing() {
    let mut device = driver();
    ask_outbound(&mut device, key(IpProtocol::Tcp));
    read_all(&mut device);
    for (address, types) in [
        (Ipv4Address::new(10, 0, 0, 2), vec![]),
        (Ipv4Address::new(10, 0, 0, 1), vec![3]),
    ] {
        ale_resource_monitor(
            &mut device,
            ResourceLayer::ReleaseV4,
            (IpProtocol::Tcp, 50_000),
            Some(IpAddress::Ipv4(address)),
            Some(4_000),
            NOW,
        );
        assert_eq!(record_types(&read_all(&mut device)), types);
    }
}
