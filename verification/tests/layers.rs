//! Indications at the packet and authorization layers, step by step.

use portmaster_kext::ale_callouts::{AleHold, AleLayerData};
use portmaster_kext::ale_layer::{AleAction, AleEvent, AleHeaders, AleStage};
use portmaster_kext::ale_policy::InjectionStatus;
use portmaster_kext::connection::Direction;
use portmaster_kext::device::Device;
use portmaster_kext::device_state::Action;
use portmaster_kext::ip::{IpAddress, IpProtocol, Ipv4Address};
use portmaster_kext::key::Key;
use portmaster_kext::packet::{ClassifyDefer, NetBuffer};
use portmaster_kext::packet_callouts::{ClassifyAction, NetBufferListClones};
use portmaster_kext::packet_layer::{LayerAction, LayerEvent, LayerStage, LayerState, PacketLayer};
use portmaster_kext::packet_metadata::{PacketInspection, PacketMetadata, PacketMetadataError};
use portmaster_kext::packet_util::inspect_packet;
use portmaster_kext::startup::StartupStage;

const NOW: u64 = 3_600_000;

type Driver = Device<u32, u32>;

fn driver() -> Driver {
    Device::new(60_000)
}

fn layer(direction: Direction, packet_count: usize) -> PacketLayer {
    PacketLayer {
        ipv6: false,
        direction,
        ip_header_size: Some(24),
        compartment_id: None,
        interface_index: 4,
        sub_interface_index: 5,
        reassembled: false,
        packet_count,
        has_device: true,
    }
}

fn key() -> Key {
    Key {
        protocol: IpProtocol::Udp,
        local_address: IpAddress::Ipv4(Ipv4Address::new(10, 0, 0, 1)),
        local_port: 50_000,
        remote_address: IpAddress::Ipv4(Ipv4Address::new(192, 0, 2, 1)),
        remote_port: 443,
    }
}

fn inspected(key: Key) -> PacketInspection {
    PacketInspection {
        is_fragment: false,
        metadata: Ok(PacketMetadata {
            key,
            icmp_echo: None,
            is_icmp_port_unreachable: false,
            is_tcp_reset: false,
        }),
    }
}

fn fragment() -> PacketInspection {
    PacketInspection {
        is_fragment: true,
        ..inspected(key())
    }
}

fn unreadable() -> PacketInspection {
    PacketInspection {
        is_fragment: false,
        metadata: Err(PacketMetadataError::UnreadablePacket),
    }
}

fn not_injected() -> LayerEvent<u32> {
    LayerEvent::InjectionRead {
        status: InjectionStatus::new(false, false, false, false),
        current_process_id: 77,
    }
}

/// An IPv4 datagram of the tuple with a two-byte payload.
fn datagram() -> Vec<u8> {
    let mut bytes = vec![
        0x45, 0, 0, 30, 0, 0, 0, 0, 64, 17, 0, 0, 10, 0, 0, 1, 192, 0, 2, 1,
    ];
    bytes.extend_from_slice(&50_000u16.to_be_bytes());
    bytes.extend_from_slice(&443u16.to_be_bytes());
    bytes.extend_from_slice(&[0, 10, 0, 0, 1, 2]);
    bytes
}

fn clones() -> LayerEvent<u32> {
    LayerEvent::Cloned(Ok(NetBufferListClones::Single(NetBuffer {
        handle: 1,
        data: datagram(),
        writable: true,
    })))
}

fn read_all(device: &mut Driver) -> Vec<u8> {
    let mut bytes = Vec::new();
    while let Some(part) = device.read(4096) {
        bytes.extend_from_slice(&part);
    }
    bytes
}

fn logged(device: &mut Driver) -> Vec<String> {
    assert_eq!(device.write(&[5], NOW), Ok(()));
    let mut bytes = &read_all(device)[..];
    let mut lines = Vec::new();
    while !bytes.is_empty() {
        let size = u32::from_le_bytes([bytes[1], bytes[2], bytes[3], bytes[4]]) as usize;
        if bytes[0] == 0 {
            lines.push(String::from_utf8(bytes[6..5 + size].to_vec()).unwrap());
        }
        bytes = &bytes[5 + size..];
    }
    lines
}

#[test]
fn empty_chain_is_left_blocked() {
    let (state, action) = layer(Direction::Inbound, 0).begin();
    assert_eq!(state.stage, LayerStage::Done);
    assert_eq!(action, LayerAction::Finish(ClassifyAction::DefaultBlock));
}

#[test]
fn fragment_is_permitted_even_without_a_device() {
    for has_device in [false, true] {
        let mut inbound = layer(Direction::Inbound, 1);
        inbound.has_device = has_device;
        let (state, action) = inbound.begin();
        assert_eq!(action, LayerAction::Retreat { packet: 0, size: 24 });
        let reached: LayerEvent<u32> = LayerEvent::Retreated(true);
        let (state, action) = inbound.probe_step(state, &reached);
        assert_eq!(action, LayerAction::Inspect { packet: 0 });
        let event: LayerEvent<u32> = LayerEvent::Inspected(fragment());
        let (_, action) = inbound.probe_step(state, &event);
        assert_eq!(action, LayerAction::Finish(ClassifyAction::Permit));
    }
}

#[test]
fn nothing_else_is_permitted_without_a_device() {
    let mut outbound = layer(Direction::Outbound, 1);
    outbound.has_device = false;
    let (state, _) = outbound.begin();
    let local = Key {
        local_port: 53,
        remote_address: key().local_address,
        ..key()
    };
    let event: LayerEvent<u32> = LayerEvent::Inspected(inspected(local));
    let (_, action) = outbound.probe_step(state, &event);
    assert_eq!(action, LayerAction::Finish(ClassifyAction::DefaultBlock));
    outbound.has_device = true;
    let (_, action) = outbound.probe_step(state, &event);
    assert_eq!(action, LayerAction::Finish(ClassifyAction::Permit));
}

#[test]
fn self_injected_chain_is_permitted_although_its_header_was_not_reached() {
    let mut device = driver();
    let inbound = layer(Direction::Inbound, 2);
    let (state, _) = inbound.begin();
    let (state, action) = device.packet_step(&inbound, state, LayerEvent::Retreated(false), NOW);
    assert_eq!(action, LayerAction::QueryInjection);
    let own = LayerEvent::InjectionRead {
        status: InjectionStatus::new(false, true, true, false),
        current_process_id: 0,
    };
    let (_, action) = device.packet_step(&inbound, state, own, NOW);
    assert_eq!(action, LayerAction::Finish(ClassifyAction::Permit));
    // Any other chain gets a second attempt, and stays blocked if that fails as well.
    let (state, action) = device.packet_step(&inbound, state, not_injected(), NOW);
    assert_eq!(action, LayerAction::Retreat { packet: 0, size: 24 });
    let (_, action) = device.packet_step(&inbound, state, LayerEvent::Retreated(false), NOW);
    assert_eq!(action, LayerAction::Finish(ClassifyAction::DefaultBlock));
}

#[test]
fn outbound_chain_is_asked_about_packet_by_packet() {
    let mut device = driver();
    let outbound = layer(Direction::Outbound, 2);
    let (state, action) = outbound.begin();
    assert_eq!(action, LayerAction::Inspect { packet: 0 });
    let read = inspect_packet(Some(&datagram()), false, Direction::Outbound);
    assert_eq!(read.metadata, inspected(key()).metadata);
    let (state, action) = device.packet_step(&outbound, state, LayerEvent::Inspected(read), NOW);
    assert_eq!(action, LayerAction::QueryInjection);
    let (state, action) = device.packet_step(&outbound, state, not_injected(), NOW);
    assert_eq!(action, LayerAction::Clone { packet: 0 });
    let (state, action) = device.packet_step(&outbound, state, clones(), NOW);
    assert_eq!(action, LayerAction::Inspect { packet: 1 });
    assert_eq!(state.indication.action, ClassifyAction::BlockAndAbsorb);
    assert_eq!(device.packet_cache.get_entries_count(), 1);
    // The classification ends with the action that it has.
    let (_, action) = device.packet_step(&outbound, state, LayerEvent::Inspected(unreadable()), NOW);
    assert_eq!(action, LayerAction::Finish(ClassifyAction::BlockAndAbsorb));
    assert_eq!(
        logged(&mut device),
        vec!["failed to get key from nbl: failed to get net_buffer data".to_string()]
    );
}

#[test]
fn packet_without_a_clone_ends_the_classification() {
    let mut device = driver();
    let outbound = layer(Direction::Outbound, 2);
    let (state, _) = outbound.begin();
    let (state, _) =
        device.packet_step(&outbound, state, LayerEvent::Inspected(inspected(key())), NOW);
    let (state, _) = device.packet_step(&outbound, state, not_injected(), NOW);
    let failed = LayerEvent::Cloned(Err("no memory".to_string()));
    let (_, action) = device.packet_step(&outbound, state, failed, NOW);
    assert_eq!(action, LayerAction::Finish(ClassifyAction::DefaultBlock));
    let broken = LayerEvent::Cloned(Ok(NetBufferListClones::Single(NetBuffer {
        handle: 1,
        data: datagram(),
        writable: false,
    })));
    let (_, action) = device.packet_step(&outbound, state, broken, NOW);
    assert_eq!(action, LayerAction::Finish(ClassifyAction::DefaultBlock));
    assert_eq!(device.packet_cache.get_entries_count(), 0);
    assert_eq!(
        logged(&mut device),
        vec![
            "failed to clone packet: no memory".to_string(),
            "failed to clone packet: failed to access cloned packet data".to_string(),
        ]
    );
}

#[test]
fn redirected_packet_is_absorbed_with_or_without_its_clone() {
    let mut device = driver();
    let outbound = layer(Direction::Outbound, 1);
    let (begun, _) = outbound.begin();
    let ask = |device: &mut Driver| -> LayerState {
        let event = LayerEvent::Inspected(inspected(key()));
        let (state, _) = device.packet_step(&outbound, begun, event, NOW);
        device.packet_step(&outbound, state, not_injected(), NOW).0
    };
    let state = ask(&mut device);
    device.packet_step(&outbound, state, clones(), NOW);
    let mut verdict = vec![1];
    verdict.extend_from_slice(&1u64.to_le_bytes());
    verdict.push(9);
    assert_eq!(device.write(&verdict, NOW), Ok(()));
    device.take_actions();
    let state = ask(&mut device);
    assert!(matches!(state.stage, LayerStage::CloneRedirected { .. }));
    let (_, action) = device.packet_step(&outbound, state, clones(), NOW);
    assert_eq!(action, LayerAction::Finish(ClassifyAction::BlockAndAbsorb));
    let actions = device.take_actions();
    assert_eq!(actions.len(), 1);
    assert!(matches!(&actions[0], Action::Inject { blocked: false, .. }));
    let failed = LayerEvent::Cloned(Err("no memory".to_string()));
    let (_, action) = device.packet_step(&outbound, state, failed, NOW);
    assert_eq!(action, LayerAction::Finish(ClassifyAction::BlockAndAbsorb));
    assert!(device.take_actions().is_empty());
}

#[test]
fn answer_to_something_else_ends_the_classification() {
    let mut device = driver();
    let outbound = layer(Direction::Outbound, 1);
    let (state, _) = outbound.begin();
    let (_, action) = device.packet_step(&outbound, state, clones(), NOW);
    assert_eq!(action, LayerAction::Finish(ClassifyAction::DefaultBlock));
}

fn ale(direction: Direction) -> AleLayerData {
    AleLayerData {
        is_ipv6: false,
        reauthorize: false,
        process_id: 4_000,
        protocol: IpProtocol::Tcp,
        direction,
        packet_direction: direction,
        local_ip: key().local_address,
        local_port: 50_000,
        remote_ip: key().remote_address,
        remote_port: 443,
        interface_index: 0,
        sub_interface_index: 0,
    }
}

fn quiet() -> InjectionStatus {
    InjectionStatus::new(false, false, false, false)
}

fn headers(has_packet: bool) -> AleHeaders {
    AleHeaders {
        has_packet,
        ip_header_size: Some(20),
        transport_header_size: Some(32),
    }
}

fn held() -> AleEvent<u32> {
    AleEvent::Held(Ok(ClassifyDefer {
        handle: 3,
        reauthorization: false,
        data: vec![4, 4],
    }))
}

fn absorbed() -> (AleStage, AleAction) {
    (
        AleStage::Done,
        AleAction::Finish {
            action: ClassifyAction::BlockAndAbsorb,
            protect: false,
        },
    )
}

#[test]
fn inbound_connection_is_captured_pended_and_saved() {
    let mut device = driver();
    let data = ale(Direction::Inbound);
    let (stage, action) = device.begin_ale(&data, &headers(true), quiet(), NOW);
    assert_eq!(
        action,
        AleAction::Capture {
            retreat: 52,
            event_data_offset: 20
        }
    );
    let (stage, action) = device.ale_step(&data, stage, AleEvent::Captured, NOW);
    assert_eq!(action, AleAction::Hold(AleHold::PendOperation));
    assert_eq!(device.ale_step(&data, stage, held(), NOW), absorbed());
    assert_eq!(device.packet_cache.get_entries_count(), 1);
    assert_eq!(device.connection_cache.get_entries_count(), 1);
    // A second packet of the connection cannot be pended any more.
    let (stage, _) = device.begin_ale(&data, &headers(true), quiet(), NOW);
    let (_, action) = device.ale_step(&data, stage, AleEvent::Captured, NOW);
    assert_eq!(action, AleAction::Hold(AleHold::PendFilterRest));
}

#[test]
fn outbound_connect_is_pended_without_a_packet() {
    let mut device = driver();
    let data = ale(Direction::Outbound);
    let (stage, action) = device.begin_ale(&data, &headers(true), quiet(), NOW);
    assert_eq!(action, AleAction::Hold(AleHold::PendOperation));
    let refused = AleEvent::Held(Err("busy".to_string()));
    assert_eq!(device.ale_step(&data, stage, refused, NOW), absorbed());
    assert_eq!(device.connection_cache.get_entries_count(), 0);
    assert_eq!(
        logged(&mut device),
        vec!["failed to pend packet: failed to defer connection: busy".to_string()]
    );
}

#[test]
fn inbound_connection_that_cannot_be_saved_is_absorbed() {
    let mut device = driver();
    let data = ale(Direction::Inbound);
    assert_eq!(
        device.begin_ale(&data, &headers(false), quiet(), NOW),
        absorbed()
    );
    let mut short = headers(true);
    short.ip_header_size = Some(8);
    assert_eq!(device.begin_ale(&data, &short, quiet(), NOW), absorbed());
    let (stage, _) = device.begin_ale(&data, &headers(true), quiet(), NOW);
    let retreat = AleEvent::RetreatFailed("no room".to_string());
    assert_eq!(device.ale_step(&data, stage, retreat, NOW), absorbed());
    let cloning = AleEvent::CloneFailed("no memory".to_string());
    assert_eq!(device.ale_step(&data, stage, cloning, NOW), absorbed());
    assert_eq!(device.ale_step(&data, stage, held(), NOW), absorbed());
    assert_eq!(device.connection_cache.get_entries_count(), 0);
    assert_eq!(
        logged(&mut device),
        vec![
            "failed to pend packet: ALE receive/accept indication has no packet data".to_string(),
            "failed to pend packet: invalid ALE IP header size: 8".to_string(),
            "failed to pend packet: failed to retreat ALE packet: no room".to_string(),
            "failed to pend packet: failed to clone ALE packet: no memory".to_string(),
        ]
    );
}

#[test]
fn self_injected_indication_is_permitted_at_once() {
    let mut device = driver();
    let own = InjectionStatus::new(true, false, false, false);
    assert_eq!(
        device.begin_ale(&ale(Direction::Inbound), &headers(true), own, NOW),
        (
            AleStage::Done,
            AleAction::Finish {
                action: ClassifyAction::Permit,
                protect: false
            }
        )
    );
}

#[test]
fn startup_stages_follow_one_another() {
    let mut stages = vec![StartupStage::Barrier];
    while let Some(next) = stages[stages.len() - 1].next() {
        stages.push(next);
    }
    assert_eq!(
        stages,
        vec![
            StartupStage::Barrier,
            StartupStage::DriverObject,
            StartupStage::Device,
            StartupStage::Filters,
            StartupStage::Activation,
        ]
    );
}
