//! Decisions about injected and reauthorized packets.

use portmaster_kext::ale_policy::{
    can_reuse_ended_tcp_policy, classify_ale_injection,
    self_injected_packet_needs_accept_authorization, should_capture_ale_packet,
    should_skip_cross_direction_ale_clone, should_skip_injected_outbound_flow,
    AleInjectionAction, InjectionStatus,
};
use portmaster_kext::connection::Direction;
use portmaster_kext::ip::IpProtocol;

#[test]
fn ended_policy_is_used_only_for_tcp_reauthorization() {
    assert!(can_reuse_ended_tcp_policy(true, IpProtocol::Tcp));
    assert!(!can_reuse_ended_tcp_policy(false, IpProtocol::Tcp));
    assert!(!can_reuse_ended_tcp_policy(true, IpProtocol::Udp));
}

#[test]
fn only_inbound_loopback_transport_needs_accept_authorization() {
    for protocol in [IpProtocol::Tcp, IpProtocol::Udp] {
        assert!(self_injected_packet_needs_accept_authorization(
            protocol,
            true,
            Direction::Inbound,
            Direction::Inbound,
        ));
    }
    assert!(!self_injected_packet_needs_accept_authorization(
        IpProtocol::Icmp,
        true,
        Direction::Inbound,
        Direction::Inbound,
    ));
    assert!(!self_injected_packet_needs_accept_authorization(
        IpProtocol::Tcp,
        false,
        Direction::Inbound,
        Direction::Inbound,
    ));
    assert!(!self_injected_packet_needs_accept_authorization(
        IpProtocol::Tcp,
        true,
        Direction::Outbound,
        Direction::Inbound,
    ));
    assert!(!self_injected_packet_needs_accept_authorization(
        IpProtocol::Tcp,
        true,
        Direction::Inbound,
        Direction::Outbound,
    ));
}

#[test]
fn self_injection_bypasses_ale_from_either_injection_handle() {
    for (network_self, transport_self, network_other, transport_other) in [
        (true, false, false, false),
        (false, true, false, false),
        (true, false, false, true),
        // Observed for transport-reinjected ALE clones at the IP layer:
        // "other" relative to the network handle, "self" relative to transport.
        (false, true, true, false),
    ] {
        assert_eq!(
            classify_ale_injection(
                InjectionStatus::new(
                    network_self,
                    transport_self,
                    network_other,
                    transport_other,
                ),
                IpProtocol::Tcp,
                false,
                Direction::Outbound,
                Direction::Outbound,
            ),
            AleInjectionAction::PermitSelfInjected
        );
    }
}

#[test]
fn self_injected_loopback_transport_still_authorizes_server_endpoint() {
    for injection in [
        InjectionStatus::new(true, false, false, false),
        InjectionStatus::new(false, true, true, false),
    ] {
        for protocol in [IpProtocol::Tcp, IpProtocol::Udp] {
            assert_eq!(
                classify_ale_injection(
                    injection,
                    protocol,
                    true,
                    Direction::Inbound,
                    Direction::Inbound,
                ),
                AleInjectionAction::Process
            );
        }
    }
}

#[test]
fn foreign_injection_bypasses_only_outbound_ale() {
    for (network_other, transport_other) in [(true, false), (false, true)] {
        assert_eq!(
            classify_ale_injection(
                InjectionStatus::new(false, false, network_other, transport_other),
                IpProtocol::Udp,
                false,
                Direction::Outbound,
                Direction::Outbound,
            ),
            AleInjectionAction::PermitOtherInjectedOutbound
        );
        assert_eq!(
            classify_ale_injection(
                InjectionStatus::new(false, false, network_other, transport_other),
                IpProtocol::Udp,
                false,
                Direction::Inbound,
                Direction::Inbound,
            ),
            AleInjectionAction::Process
        );
    }
}

#[test]
fn non_injected_and_unknown_packets_follow_normal_ale_policy() {
    assert_eq!(
        classify_ale_injection(
            InjectionStatus::new(false, false, false, false),
            IpProtocol::Tcp,
            false,
            Direction::Outbound,
            Direction::Outbound,
        ),
        AleInjectionAction::Process
    );
}

#[test]
fn flow_established_skips_any_injected_outbound_origin_only() {
    for network_injected in [false, true] {
        for transport_injected in [false, true] {
            let injected = network_injected || transport_injected;
            assert_eq!(
                should_skip_injected_outbound_flow(true, network_injected, transport_injected),
                injected
            );
            assert!(!should_skip_injected_outbound_flow(
                false,
                network_injected,
                transport_injected
            ));
        }
    }
}

#[test]
fn outbound_tcp_capture_depends_on_reauthorization() {
    assert!(!should_capture_ale_packet(
        IpProtocol::Tcp,
        Direction::Outbound,
        false
    ));
    assert!(should_capture_ale_packet(
        IpProtocol::Tcp,
        Direction::Outbound,
        true
    ));
    assert!(should_capture_ale_packet(
        IpProtocol::Tcp,
        Direction::Inbound,
        false
    ));
    assert!(should_capture_ale_packet(
        IpProtocol::Udp,
        Direction::Outbound,
        false
    ));
}

#[test]
fn only_inbound_packet_on_reauthorized_outbound_flow_skips_clone() {
    assert!(should_skip_cross_direction_ale_clone(
        true,
        Direction::Outbound,
        Direction::Inbound
    ));
    assert!(!should_skip_cross_direction_ale_clone(
        false,
        Direction::Outbound,
        Direction::Inbound
    ));
    assert!(!should_skip_cross_direction_ale_clone(
        true,
        Direction::Inbound,
        Direction::Inbound
    ));
    assert!(!should_skip_cross_direction_ale_clone(
        true,
        Direction::Outbound,
        Direction::Outbound
    ));
}
