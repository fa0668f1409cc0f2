//! Policy of the ALE layers towards injected and reauthorized packets.

use crate::connection::Direction;
use crate::ip::IpProtocol;
use vstd::prelude::*;

verus! {

/// Policy result after combining the network and transport injection handles.
#[derive(Clone, Copy, Debug, PartialEq, Eq, Structural)]
pub enum AleInjectionAction {
    Process,
    PermitSelfInjected,
    PermitOtherInjectedOutbound,
}

/// Combined view of one NBL queried against both driver injection handles.
///
/// WFP can report the same self-injected NBL as `InjectedByOther` relative to
/// the other handle. Callers must therefore test `self_injected` first.
#[derive(Clone, Copy, Debug, PartialEq, Eq, Structural)]
pub struct InjectionStatus {
    pub self_injected: bool,
    pub injected_by_other: bool,
}

impl InjectionStatus {
    /// Combines what the two handles report.
    pub fn new(
        network_self_injected: bool,
        transport_self_injected: bool,
        network_injected_by_other: bool,
        transport_injected_by_other: bool,
    ) -> (status: Self)
        ensures
            status.self_injected == (network_self_injected || transport_self_injected),
            status.injected_by_other == (network_injected_by_other || transport_injected_by_other),
    {
        InjectionStatus {
            self_injected: network_self_injected || transport_self_injected,
            injected_by_other: network_injected_by_other || transport_injected_by_other,
        }
    }

    /// Whether either of the driver's own handles injected the packet.
    pub fn is_self_injected(self) -> (r: bool)
        ensures
            r == self.self_injected,
    {
        self.self_injected
    }

    /// Whether some handle reports another injector.
    pub fn is_injected_by_other(self) -> (r: bool)
        ensures
            r == self.injected_by_other,
    {
        self.injected_by_other
    }
}

/// Returns whether an ALE indication has the signature of a final TCP
/// reauthorization racing endpoint closure.
pub fn can_reuse_ended_tcp_policy(reauthorize: bool, protocol: IpProtocol) -> (r: bool)
    ensures
        r == (reauthorize && protocol is Tcp),
{
    reauthorize && protocol == IpProtocol::Tcp
}

/// A self-injected indication that is the first one its listening endpoint sees.
pub open spec fn needs_accept_authorization(
    protocol: IpProtocol,
    loopback: bool,
    connection_direction: Direction,
    packet_direction: Direction,
) -> bool {
    &&& protocol is Tcp || protocol is Udp
    &&& loopback
    &&& connection_direction is Inbound
    &&& packet_direction is Inbound
}

/// The guard against authorizing an injected packet again.
pub open spec fn spec_classify_ale_injection(
    injection: InjectionStatus,
    protocol: IpProtocol,
    loopback: bool,
    connection_direction: Direction,
    packet_direction: Direction,
) -> AleInjectionAction {
    if injection.self_injected && !needs_accept_authorization(
        protocol,
        loopback,
        connection_direction,
        packet_direction,
    ) {
        AleInjectionAction::PermitSelfInjected
    } else if injection.injected_by_other && packet_direction is Outbound {
        AleInjectionAction::PermitOtherInjectedOutbound
    } else {
        AleInjectionAction::Process
    }
}

/// Selects the ALE loop guard without allowing an "other" result from one
/// handle to override proof that the NBL belongs to the other local handle.
pub fn classify_ale_injection(
    injection: InjectionStatus,
    protocol: IpProtocol,
    loopback: bool,
    connection_direction: Direction,
    packet_direction: Direction,
) -> (action: AleInjectionAction)
    ensures
        action == spec_classify_ale_injection(
            injection,
            protocol,
            loopback,
            connection_direction,
            packet_direction,
        ),
{
    if injection.is_self_injected() && !self_injected_packet_needs_accept_authorization(
        protocol,
        loopback,
        connection_direction,
        packet_direction,
    ) {
        return AleInjectionAction::PermitSelfInjected;
    }
    if injection.is_injected_by_other() && packet_direction == Direction::Outbound {
        return AleInjectionAction::PermitOtherInjectedOutbound;
    }
    AleInjectionAction::Process
}

/// Returns whether an outbound synthetic flow belongs to any injector.
pub fn should_skip_injected_outbound_flow(
    outbound: bool,
    network_injected: bool,
    transport_injected: bool,
) -> (r: bool)
    ensures
        r == (outbound && (network_injected || transport_injected)),
{
    outbound && (network_injected || transport_injected)
}

/// Initial outbound TCP has no NBL; all other ALE packet-bearing paths may clone it.
pub fn should_capture_ale_packet(
    protocol: IpProtocol,
    packet_direction: Direction,
    reauthorize: bool,
) -> (r: bool)
    ensures
        r == !(protocol is Tcp && packet_direction is Outbound && !reauthorize),
{
    protocol != IpProtocol::Tcp || packet_direction != Direction::Outbound || reauthorize
}

/// An inbound packet reauthorizing AUTH_CONNECT has no injectable IP header there.
pub fn should_skip_cross_direction_ale_clone(
    reauthorize: bool,
    connection_direction: Direction,
    packet_direction: Direction,
) -> (r: bool)
    ensures
        r == (reauthorize && connection_direction is Outbound && packet_direction is Inbound),
{
    reauthorize && connection_direction == Direction::Outbound && packet_direction
        == Direction::Inbound
}

/// Returns whether a self-injected ALE indication must still run the server-side
/// TCP/UDP receive/accept authorization path.
///
/// Network reinjection of the first outbound loopback packet can be the first NBL
/// seen by the listening endpoint. Every other self-injected indication keeps the
/// normal immediate-permit loop guard.
pub fn self_injected_packet_needs_accept_authorization(
    protocol: IpProtocol,
    loopback: bool,
    connection_direction: Direction,
    packet_direction: Direction,
) -> (r: bool)
    ensures
        r == needs_accept_authorization(protocol, loopback, connection_direction, packet_direction),
{
    let transport: bool = match protocol {
        IpProtocol::Tcp | IpProtocol::Udp => true,
        _ => false,
    };
    transport && loopback && connection_direction == Direction::Inbound && packet_direction
        == Direction::Inbound
}

/// What another injector is reported as never decides over a packet of the driver's own:
/// a self-injected packet is handled the same whatever the other handle says of it,
/// unless it still needs to be accepted.
pub proof fn self_injection_has_priority(
    injection: InjectionStatus,
    protocol: IpProtocol,
    loopback: bool,
    connection_direction: Direction,
    packet_direction: Direction,
)
    requires
        injection.self_injected,
    ensures
        spec_classify_ale_injection(
            injection,
            protocol,
            loopback,
            connection_direction,
            packet_direction,
        ) == spec_classify_ale_injection(
            InjectionStatus { injected_by_other: !injection.injected_by_other, ..injection },
            protocol,
            loopback,
            connection_direction,
            packet_direction,
        ),
        !(spec_classify_ale_injection(
            injection,
            protocol,
            loopback,
            connection_direction,
            packet_direction,
        ) is PermitOtherInjectedOutbound),
{
}

} // verus!
