//! Authorization and lifecycle at the application layer enforcement (ALE) layers.

use crate::ale_policy::{
    classify_ale_injection, should_capture_ale_packet, should_skip_cross_direction_ale_clone,
    spec_classify_ale_injection, AleInjectionAction, InjectionStatus,
};
use crate::connection::{AddressFamily, ConnectionV4, ConnectionV6, Direction, Verdict};
use crate::connection_cache::attributed;
use crate::connection_map::{
    at, group_applied, group_key, group_sequence, instance_match, map_set, MapView, Selection,
};
use crate::device::{emit_connection_end_v4, emit_connection_end_v6, Device};
use crate::device_lookup::ConnectionInfo;
use crate::device_state::{end_event_v4, end_event_v6, Action, ActionView, DeviceView};
use crate::id_cache::PendingPacket;
use crate::info::Info;
use crate::ip::{IpAddress, IpProtocol};
use crate::key::Key;
use crate::packet::Packet;
use crate::packet_callouts::{base_header_len, decided_by, ClassifyAction, PacketContext};
use crate::text::{decimal, push_decimal, push_text};
use vstd::prelude::*;
use vstd::utf8::encode_utf8;

verus! {

/// One indication at an ALE authorization layer.
#[derive(Clone, Copy, Debug, PartialEq, Eq, Structural)]
pub struct AleLayerData {
    pub is_ipv6: bool,
    pub reauthorize: bool,
    pub process_id: u64,
    pub protocol: IpProtocol,
    /// Direction of the connection: the layer that authorizes it.
    pub direction: Direction,
    /// Direction of the packet that caused the indication.
    pub packet_direction: Direction,
    pub local_ip: IpAddress,
    pub local_port: u16,
    pub remote_ip: IpAddress,
    pub remote_port: u16,
    pub interface_index: u32,
    pub sub_interface_index: u32,
}

/// A protocol that the ALE layers authorize.
pub open spec fn is_authorized_protocol(protocol: IpProtocol) -> bool {
    protocol is Tcp || protocol is Udp
}

impl AleLayerData {
    /// The tuple of the indication. Only TCP and UDP have ports.
    pub open spec fn spec_as_key(self) -> Key {
        let ports = is_authorized_protocol(self.protocol);
        Key {
            protocol: self.protocol,
            local_address: self.local_ip,
            local_port: if ports {
                self.local_port
            } else {
                0
            },
            remote_address: self.remote_ip,
            remote_port: if ports {
                self.remote_port
            } else {
                0
            },
        }
    }

    /// Returns the tuple of the indication.
    pub fn as_key(&self) -> (key: Key)
        ensures
            key == self.spec_as_key(),
    {
        let (local_port, remote_port): (u16, u16) = match self.protocol {
            IpProtocol::Tcp | IpProtocol::Udp => (self.local_port, self.remote_port),
            _ => (0, 0),
        };
        Key {
            protocol: self.protocol,
            local_address: self.local_ip,
            local_port,
            remote_address: self.remote_ip,
            remote_port,
        }
    }
}

/// What happens to an ALE indication.
#[derive(Clone, Copy, Debug, PartialEq, Eq, Structural)]
pub enum AleDecision {
    /// Leave the indication with an action. Where `protect` is set, later filters must not
    /// override it.
    Act { action: ClassifyAction, protect: bool },
    /// Save the packet and absorb the indication. A connection without an instance is new
    /// and is registered once its packet is saved.
    Save { instance_id: Option<u64> },
}

/// An indication that is permitted.
pub open spec fn permitted(protect: bool) -> AleDecision {
    AleDecision::Act { action: ClassifyAction::Permit, protect }
}

/// What the policy of a known connection does with an indication. Temporary outbound
/// verdicts are left to the packet layer.
pub open spec fn authorized_by(
    info: ConnectionInfo,
    direction: Direction,
    owner: bool,
) -> AleDecision {
    match info.verdict {
        Verdict::Undecided => AleDecision::Save { instance_id: Some(info.instance_id) },
        Verdict::PermanentAccept
        | Verdict::Accept
        | Verdict::RedirectNameServer
        | Verdict::RedirectTunnel
        | Verdict::RedirectSplitTunnel => permitted(owner && direction is Outbound),
        Verdict::PermanentBlock | Verdict::Undeterminable | Verdict::Failed => AleDecision::Act {
            action: ClassifyAction::BlockHard,
            protect: false,
        },
        Verdict::PermanentDrop => AleDecision::Act {
            action: ClassifyAction::BlockAndAbsorb,
            protect: false,
        },
        Verdict::Block => if direction is Outbound {
            permitted(false)
        } else {
            AleDecision::Act { action: ClassifyAction::BlockHard, protect: false }
        },
        Verdict::Drop => if direction is Outbound {
            permitted(false)
        } else {
            AleDecision::Act { action: ClassifyAction::BlockAndAbsorb, protect: false }
        },
    }
}

/// Applies the policy of a known connection.
fn authorize_by(info: &ConnectionInfo, direction: Direction, owner: bool) -> (decision: AleDecision)
    ensures
        decision == authorized_by(*info, direction, owner),
{
    let outbound: bool = direction == Direction::Outbound;
    let (action, protect): (ClassifyAction, bool) = match info.verdict {
        Verdict::Undecided => {
            return AleDecision::Save { instance_id: Some(info.instance_id) };
        },
        Verdict::PermanentAccept
        | Verdict::Accept
        | Verdict::RedirectNameServer
        | Verdict::RedirectTunnel
        | Verdict::RedirectSplitTunnel => (ClassifyAction::Permit, owner && outbound),
        Verdict::PermanentBlock | Verdict::Undeterminable | Verdict::Failed => {
            (ClassifyAction::BlockHard, false)
        },
        Verdict::PermanentDrop => (ClassifyAction::BlockAndAbsorb, false),
        Verdict::Block => if outbound {
            (ClassifyAction::Permit, false)
        } else {
            (ClassifyAction::BlockHard, false)
        },
        Verdict::Drop => if outbound {
            (ClassifyAction::Permit, false)
        } else {
            (ClassifyAction::BlockAndAbsorb, false)
        },
    };
    AleDecision::Act { action, protect }
}

/// How the packet of an ALE indication is captured.
#[derive(Clone, Copy, Debug, PartialEq, Eq, Structural)]
pub enum AleCapture {
    /// There is no packet to capture.
    Nothing,
    /// Clone it where it stands.
    InPlace,
    /// Move back over both headers, so that the clone starts at the IP header. The bytes
    /// reported to user space start behind the IP header.
    Retreat { header_size: u32, event_data_offset: u32 },
}

/// Shortest transport header.
pub open spec fn minimum_transport_header(protocol: IpProtocol) -> u32 {
    match protocol {
        IpProtocol::Tcp => 20,
        IpProtocol::Udp => 8,
        _ => 0,
    }
}

/// A text followed by a number.
pub open spec fn numbered(text: Seq<char>, n: u32) -> Seq<u8> {
    encode_utf8(text) + decimal(n as nat)
}

/// An indication whose packet is looked for.
pub open spec fn captures(data: AleLayerData, has_packet: bool) -> bool {
    &&& should_capture(data)
    &&& has_packet
}

/// An indication that can carry a packet which can be injected again.
pub open spec fn should_capture(data: AleLayerData) -> bool {
    &&& !(data.protocol is Tcp && data.packet_direction is Outbound && !data.reauthorize)
    &&& !(data.reauthorize && data.direction is Outbound && data.packet_direction is Inbound)
}

/// Why the packet of an inbound indication is not captured.
pub open spec fn header_failure(
    data: AleLayerData,
    ip_header_size: Option<u32>,
    transport_header_size: Option<u32>,
) -> Option<Seq<u8>> {
    match ip_header_size {
        None => Some(encode_utf8("missing ALE IP header size metadata"@)),
        Some(ip) => if ip < base_header_len(data.is_ipv6) {
            Some(numbered("invalid ALE IP header size: "@, ip))
        } else {
            match transport_header_size {
                None => Some(encode_utf8("missing ALE transport header size metadata"@)),
                Some(transport) => if transport < minimum_transport_header(data.protocol) {
                    Some(numbered("invalid ALE transport header size: "@, transport))
                } else if ip + transport > u32::MAX {
                    Some(encode_utf8("ALE header size overflow"@))
                } else {
                    None
                },
            }
        },
    }
}

/// A text as bytes.
fn text_bytes(text: &str) -> (bytes: Vec<u8>)
    ensures
        bytes@ == encode_utf8(text@),
{
    let mut bytes: Vec<u8> = Vec::new();
    push_text(&mut bytes, text);
    assert(bytes@ =~= encode_utf8(text@));
    bytes
}

/// A text followed by a number, as bytes.
fn numbered_bytes(text: &str, n: u32) -> (bytes: Vec<u8>)
    ensures
        bytes@ == numbered(text@, n),
{
    let mut bytes: Vec<u8> = text_bytes(text);
    push_decimal(&mut bytes, n as u64);
    bytes
}

/// Decides how the packet of an indication is captured. At ALE_AUTH_RECV_ACCEPT the
/// inbound data offset is at the payload: the clone has to start at the IP header.
pub fn ale_capture(
    data: &AleLayerData,
    has_packet: bool,
    ip_header_size: Option<u32>,
    transport_header_size: Option<u32>,
) -> (r: Result<AleCapture, Vec<u8>>)
    ensures
        match r {
            Ok(capture) => if !captures(*data, has_packet) {
                capture is Nothing
            } else if data.direction is Outbound {
                capture is InPlace
            } else {
                &&& header_failure(*data, ip_header_size, transport_header_size) is None
                &&& capture == AleCapture::Retreat {
                    header_size: (ip_header_size->Some_0 + transport_header_size->Some_0) as u32,
                    event_data_offset: ip_header_size->Some_0,
                }
            },
            Err(error) => {
                &&& captures(*data, has_packet)
                &&& data.direction is Inbound
                &&& header_failure(*data, ip_header_size, transport_header_size) == Some(error@)
            },
        },
{
    if !should_capture_ale_packet(data.protocol, data.packet_direction, data.reauthorize)
        || should_skip_cross_direction_ale_clone(
        data.reauthorize,
        data.direction,
        data.packet_direction,
    ) || !has_packet {
        return Ok(AleCapture::Nothing);
    }
    if data.direction == Direction::Outbound {
        return Ok(AleCapture::InPlace);
    }
    let base: u32 = if data.is_ipv6 {
        40
    } else {
        20
    };
    let ip: u32 = match ip_header_size {
        Some(size) => size,
        None => {
            return Err(text_bytes("missing ALE IP header size metadata"));
        },
    };
    if ip < base {
        return Err(numbered_bytes("invalid ALE IP header size: ", ip));
    }
    let transport: u32 = match transport_header_size {
        Some(size) => size,
        None => {
            return Err(text_bytes("missing ALE transport header size metadata"));
        },
    };
    let minimum: u32 = match data.protocol {
        IpProtocol::Tcp => 20,
        IpProtocol::Udp => 8,
        _ => 0,
    };
    if transport < minimum {
        return Err(numbered_bytes("invalid ALE transport header size: ", transport));
    }
    match ip.checked_add(transport) {
        Some(header_size) => Ok(AleCapture::Retreat { header_size, event_data_offset: ip }),
        None => Err(text_bytes("ALE header size overflow")),
    }
}

/// How an indication is held while user space decides.
#[derive(Clone, Copy, Debug, PartialEq, Eq, Structural)]
pub enum AleHold {
    /// Pend the operation.
    PendOperation,
    /// Absorb it, and reauthorize the flow once there is a verdict.
    PendFilterRest,
}

/// Why an indication cannot be held.
#[derive(Clone, Copy, Debug, PartialEq, Eq, Structural)]
pub enum AleHoldError {
    /// A receive/accept indication without packet data cannot be completed later.
    NoPacketData,
}

impl AleHoldError {
    /// Describes the error.
    pub fn message(self) -> (message: &'static str)
        ensures
            message == "ALE receive/accept indication has no packet data",
    {
        "ALE receive/accept indication has no packet data"
    }
}

/// Decides how an indication is held. Only the first packet of a connection can be pended.
pub fn ale_hold(data: &AleLayerData, pend: bool, captured: bool) -> (r: Result<
    AleHold,
    AleHoldError,
>)
    ensures
        match r {
            Ok(hold) => {
                &&& !(pend && data.direction is Inbound && !captured)
                &&& hold == if pend && is_authorized_protocol(data.protocol) {
                    AleHold::PendOperation
                } else {
                    AleHold::PendFilterRest
                }
            },
            Err(_) => pend && data.direction is Inbound && !captured,
        },
{
    if pend && data.direction == Direction::Inbound && !captured {
        return Err(AleHoldError::NoPacketData);
    }
    let transport: bool = match data.protocol {
        IpProtocol::Tcp | IpProtocol::Udp => true,
        _ => false,
    };
    if pend && transport {
        Ok(AleHold::PendOperation)
    } else {
        Ok(AleHold::PendFilterRest)
    }
}

/// The tuple that fully populated fields give.
pub open spec fn spec_populated_key(
    protocol: Option<IpProtocol>,
    local_address: Option<IpAddress>,
    local_port: Option<u16>,
    remote_address: Option<IpAddress>,
    remote_port: Option<u16>,
) -> Option<Key> {
    match (protocol, local_address, local_port, remote_address, remote_port) {
        (
            Some(protocol),
            Some(local_address),
            Some(local_port),
            Some(remote_address),
            Some(remote_port),
        ) => Some(Key { protocol, local_address, local_port, remote_address, remote_port }),
        _ => None,
    }
}

/// Builds a tuple of fields that WFP populated. It leaves the remote endpoint empty for
/// closures that have no remote peer (a listening socket, for example); a tuple of what the
/// fields happen to hold could end the wrong connection.
pub fn populated_key(
    protocol: Option<IpProtocol>,
    local_address: Option<IpAddress>,
    local_port: Option<u16>,
    remote_address: Option<IpAddress>,
    remote_port: Option<u16>,
) -> (key: Option<Key>)
    ensures
        key == spec_populated_key(
            protocol,
            local_address,
            local_port,
            remote_address,
            remote_port,
        ),
{
    match (protocol, local_address, local_port, remote_address, remote_port) {
        (
            Some(protocol),
            Some(local_address),
            Some(local_port),
            Some(remote_address),
            Some(remote_port),
        ) => Some(Key { protocol, local_address, local_port, remote_address, remote_port }),
        _ => None,
    }
}

/// The connections after one exact instance merged a process attribution.
pub open spec fn with_attribution<A: AddressFamily>(
    m: MapView<A>,
    key: Key,
    instance_id: u64,
    process_id: u64,
    now: u64,
) -> MapView<A> {
    match instance_match(m, key, instance_id) {
        Some(place) if process_id != 0 => map_set(
            m,
            place,
            attributed(at(m, place).spec_refreshed(now), process_id),
        ),
        _ => m,
    }
}

/// The connections of a local endpoint, narrowed by address and process where these are
/// known.
pub open spec fn endpoint_selection(
    local_address: Option<IpAddress>,
    process_id: u64,
) -> Selection {
    Selection::Endpoint {
        local_address,
        process_id: if process_id != 0 {
            Some(process_id)
        } else {
            None
        },
        untracked_only: false,
    }
}

impl<H, C> DeviceView<H, C> {
    /// The process has the device open.
    pub open spec fn is_owner(self, process_id: u64) -> bool {
        self.owner matches Some(owner) && owner.process_id != 0 && owner.process_id == process_id
            % 0x1_0000_0000
    }

    /// What happens to an ALE indication.
    pub open spec fn ale_decision(
        self,
        data: AleLayerData,
        injection: InjectionStatus,
    ) -> AleDecision {
        let key = data.spec_as_key();
        let guard = spec_classify_ale_injection(
            injection,
            data.protocol,
            key.spec_is_loopback_like(),
            data.direction,
            data.packet_direction,
        );
        if !(guard is Process) || !is_authorized_protocol(data.protocol) {
            permitted(false)
        } else if data.protocol is Udp && data.direction is Outbound {
            permitted(self.is_owner(data.process_id))
        } else {
            match self.info(key, data.is_ipv6, false) {
                Some(info) => authorized_by(info, data.direction, self.is_owner(data.process_id)),
                None => AleDecision::Save { instance_id: None },
            }
        }
    }

    /// An ALE indication was looked at. A new outbound UDP connection is registered here,
    /// where its process is known, and decided at the packet layer.
    pub open spec fn ale_seen(
        self,
        data: AleLayerData,
        injection: InjectionStatus,
        now: u64,
    ) -> Self {
        let key = data.spec_as_key();
        let guard = spec_classify_ale_injection(
            injection,
            data.protocol,
            key.spec_is_loopback_like(),
            data.direction,
            data.packet_direction,
        );
        if !(guard is Process) || !is_authorized_protocol(data.protocol) {
            self
        } else {
            let s = self.looked_up(key, data.is_ipv6, false, now);
            if data.protocol is Udp && data.direction is Outbound && self.info(
                key,
                data.is_ipv6,
                false,
            ) is None {
                if s.registration(key, data.process_id, data.direction, true, now) is Some {
                    s.registered(key, data.process_id, data.direction, true, now)
                } else {
                    s.with_failure("failed to build connection: "@, "wrong ip address version"@)
                }
            } else {
                s
            }
        }
    }

    /// A saved packet of one connection generation waits for a decision. If the
    /// generation has ended in the meantime, the packet is completed as blocked.
    pub open spec fn ale_asked(
        self,
        data: AleLayerData,
        packet: Packet<H>,
        instance_id: u64,
    ) -> Self {
        let key = data.spec_as_key();
        if self.live_matching(key, instance_id) {
            self.asked(
                PendingPacket { key, packet, connection_instance_id: Some(instance_id) },
                data.process_id,
                data.direction,
                true,
            )
        } else {
            self.with_action(
                ActionView::Inject { packet: packet@, blocked: true, reset_first: false },
            )
        }
    }

    /// The packet of an indication was saved, and waits for a decision of its connection.
    pub open spec fn ale_saved(
        self,
        data: AleLayerData,
        instance_id: Option<u64>,
        packet: Packet<H>,
        now: u64,
    ) -> Self {
        let key = data.spec_as_key();
        match instance_id {
            Some(id) => self.ale_asked(data, packet, id),
            None => match self.registration(key, data.process_id, data.direction, true, now) {
                Some(registration) => self.registered(
                    key,
                    data.process_id,
                    data.direction,
                    true,
                    now,
                ).ale_asked(data, packet, registration.instance_id),
                None => self.with_failure(
                    "failed to build connection: "@,
                    "wrong ip address version"@,
                ).with_action(
                    ActionView::Inject { packet: packet@, blocked: true, reset_first: false },
                ),
            },
        }
    }

    /// The live connection of an exact tuple merged a process attribution.
    pub open spec fn flow_attributed(self, key: Key, process_id: u64, now: u64) -> Self {
        match self.instance_of(key) {
            None => self,
            Some(id) => if key.spec_is_ipv6() {
                DeviceView {
                    connections_v6: with_attribution(
                        self.connections_v6,
                        key,
                        id,
                        process_id,
                        now,
                    ),
                    ..self
                }
            } else {
                DeviceView {
                    connections_v4: with_attribution(
                        self.connections_v4,
                        key,
                        id,
                        process_id,
                        now,
                    ),
                    ..self
                }
            },
        }
    }

    /// The IPv4 connections of a local endpoint ended.
    pub open spec fn port_released_v4(
        self,
        endpoint: (IpProtocol, u16),
        local_address: Option<IpAddress>,
        process_id: u64,
        now: u64,
    ) -> Self {
        let group = group_key(endpoint);
        let selection = endpoint_selection(local_address, process_id);
        if self.connections_v4.contains_key(group) {
            let g = self.connections_v4[group];
            let ended = selection.reported(group_sequence(g), now);
            DeviceView {
                connections_v4: self.connections_v4.insert(
                    group,
                    group_applied(g, selection, now),
                ),
                events: self.events + ended.map_values(
                    |c: ConnectionV4| end_event_v4(c, process_id),
                ),
                ..self
            }.retired(ended.map_values(|c: ConnectionV4| c.instance_id), now)
        } else {
            self
        }
    }

    /// The IPv6 connections of a local endpoint ended.
    pub open spec fn port_released_v6(
        self,
        endpoint: (IpProtocol, u16),
        local_address: Option<IpAddress>,
        process_id: u64,
        now: u64,
    ) -> Self {
        let group = group_key(endpoint);
        let selection = endpoint_selection(local_address, process_id);
        if self.connections_v6.contains_key(group) {
            let g = self.connections_v6[group];
            let ended = selection.reported(group_sequence(g), now);
            DeviceView {
                connections_v6: self.connections_v6.insert(
                    group,
                    group_applied(g, selection, now),
                ),
                events: self.events + ended.map_values(
                    |c: ConnectionV6| end_event_v6(c, process_id),
                ),
                ..self
            }.retired(ended.map_values(|c: ConnectionV6| c.instance_id), now)
        } else {
            self
        }
    }
}

fn low_half(n: u64) -> (low: u32)
    ensures
        low == n % 0x1_0000_0000,
{
    (n % 0x1_0000_0000) as u32
}

impl<H, C> Device<H, C> {
    /// Returns whether a process currently has the device open.
    pub fn is_owner_pid(&self, pid: u32) -> (r: bool)
        ensures
            r == (self@.owner matches Some(owner) && owner.process_id != 0 && owner.process_id
                == pid),
    {
        match self.owner {
            Some(owner) => owner.process_id != 0 && owner.process_id == pid,
            None => false,
        }
    }

    /// Decides what happens to an ALE indication.
    ///
    /// Only TCP and UDP are authorized here; everything else is not associated with a
    /// connection and is handled in the packet layer. Outbound UDP is decided at the
    /// packet layer, too: holding a datagram here corrupts the send status seen by the
    /// application.
    pub fn authorize(
        &mut self,
        data: &AleLayerData,
        injection: InjectionStatus,
        now: u64,
    ) -> (decision: AleDecision)
        requires
            old(self).wf(),
        ensures
            final(self).wf(),
            decision == old(self)@.ale_decision(*data, injection),
            final(self)@ == old(self)@.ale_seen(*data, injection, now),
    {
        let key: Key = data.as_key();
        let permit = AleDecision::Act { action: ClassifyAction::Permit, protect: false };
        let guard = classify_ale_injection(
            injection,
            data.protocol,
            key.is_loopback_like(),
            data.direction,
            data.packet_direction,
        );
        match guard {
            AleInjectionAction::Process => {},
            _ => {
                return permit;
            },
        }
        match data.protocol {
            IpProtocol::Tcp | IpProtocol::Udp => {},
            _ => {
                return permit;
            },
        }
        let owner: bool = self.is_owner_pid(low_half(data.process_id));
        let info: Option<ConnectionInfo> = self.get_connection_info(
            &key,
            data.is_ipv6,
            data.direction,
            false,
            now,
        );
        if data.protocol == IpProtocol::Udp && data.direction == Direction::Outbound {
            // Only register once. A cached connection may already carry a verdict.
            if info.is_none() {
                match self.register(&key, data.process_id, data.direction, true, now) {
                    Ok(_) => {},
                    Err(_) => {
                        self.record_failure(
                            "failed to build connection: ",
                            "wrong ip address version",
                        );
                    },
                }
            }
            return AleDecision::Act { action: ClassifyAction::Permit, protect: owner };
        }
        match info {
            Some(info) => authorize_by(&info, data.direction, owner),
            None => AleDecision::Save { instance_id: None },
        }
    }

    fn ask_for_saved(&mut self, data: &AleLayerData, packet: Packet<H>, instance_id: u64)
        requires
            old(self).wf(),
            old(self)@.can_ask(data.spec_as_key(), packet),
        ensures
            final(self).wf(),
            final(self)@ == old(self)@.ale_asked(*data, packet, instance_id),
    {
        let rejected: Option<PendingPacket<H>> = self.publish_pending_packet(
            (data.as_key(), packet),
            Some(instance_id),
            data.process_id,
            data.direction,
            true,
        );
        if let Some(pending) = rejected {
            self.push_action(
                Action::Inject { packet: pending.packet, blocked: true, reset_first: false },
            );
        }
    }

    /// Lets the saved packet of an indication wait for a decision. A new connection is
    /// added before the request becomes visible: its verdict can arrive at once.
    pub fn save(
        &mut self,
        data: &AleLayerData,
        instance_id: Option<u64>,
        packet: Packet<H>,
        now: u64,
    )
        requires
            old(self).wf(),
            old(self)@.can_ask(data.spec_as_key(), packet),
        ensures
            final(self).wf(),
            final(self)@ == old(self)@.ale_saved(*data, instance_id, packet, now),
    {
        match instance_id {
            Some(id) => {
                self.ask_for_saved(data, packet, id);
            },
            None => {
                let key: Key = data.as_key();
                match self.register(&key, data.process_id, data.direction, true, now) {
                    Ok(registration) => {
                        self.ask_for_saved(data, packet, registration.instance_id);
                    },
                    Err(_) => {
                        self.record_failure(
                            "failed to build connection: ",
                            "wrong ip address version",
                        );
                        self.push_action(
                            Action::Inject { packet, blocked: true, reset_first: false },
                        );
                    },
                }
            },
        }
    }

    /// Merges the owning process of an established flow into its connection.
    ///
    /// The authorization layers normally cache the flow with its owning PID. This repairs
    /// entries created by the packet fallback with PID 0, or entries whose earlier
    /// attribution was less reliable.
    pub fn flow_established(&mut self, key: &Key, process_id: u64, now: u64)
        requires
            old(self).wf(),
        ensures
            final(self).wf(),
            final(self)@ == old(self)@.flow_attributed(*key, process_id, now),
    {
        let found: Option<u64> = self.connection_cache.live_instance_id(key);
        if let Some(id) = found {
            self.connection_cache.update_process_id_instance(key, id, process_id, now);
            assert(self@ =~= old(self)@.flow_attributed(*key, process_id, now));
        }
    }

    /// Ends the IPv4 connections of a local endpoint that was released, or whose
    /// assignment was discarded.
    pub fn release_port_v4(
        &mut self,
        endpoint: (IpProtocol, u16),
        local_address: Option<IpAddress>,
        process_id: u64,
        now: u64,
    )
        requires
            old(self).wf(),
        ensures
            final(self).wf(),
            final(self)@ == old(self)@.port_released_v4(endpoint, local_address, process_id, now),
    {
        let ghost before = self@;
        let owner: Option<u64> = if process_id != 0 {
            Some(process_id)
        } else {
            None
        };
        let ended: Vec<ConnectionV4> = match self.connection_cache.end_all_on_endpoint_v4(
            endpoint,
            local_address,
            owner,
            now,
        ) {
            Some(ended) => ended,
            None => {
                assert(self@ =~= before);
                return;
            },
        };
        let ghost start = self@;
        let mut ids: Vec<u64> = Vec::new();
        let count: usize = ended.len();
        let mut n: usize = 0;
        while n < count
            invariant
                n <= count == ended@.len(),
                self.wf(),
                self@ == (DeviceView {
                    events: start.events + ended@.take(n as int).map_values(
                        |c: ConnectionV4| end_event_v4(c, process_id),
                    ),
                    ..start
                }),
                ids@ == ended@.take(n as int).map_values(|c: ConnectionV4| c.instance_id),
            decreases count - n,
        {
            let connection: ConnectionV4 = ended[n];
            let event: Info = emit_connection_end_v4(&connection, process_id);
            self.push_event(event);
            ids.push(connection.instance_id);
            n = n + 1;
            proof {
                assert(ended@.take(n as int) =~= ended@.take(n - 1).push(connection));
                assert(self@.events =~= start.events + ended@.take(n as int).map_values(
                    |c: ConnectionV4| end_event_v4(c, process_id),
                ));
                assert(ids@ =~= ended@.take(n as int).map_values(
                    |c: ConnectionV4| c.instance_id,
                ));
                assert(self@ =~= (DeviceView { events: self@.events, ..start }));
            }
        }
        assert(ended@.take(count as int) =~= ended@);
        self.retire_pending_connection_instances(ids.as_slice(), now);
    }

    /// Ends the IPv6 connections of a local endpoint that was released, or whose
    /// assignment was discarded.
    pub fn release_port_v6(
        &mut self,
        endpoint: (IpProtocol, u16),
        local_address: Option<IpAddress>,
        process_id: u64,
        now: u64,
    )
        requires
            old(self).wf(),
        ensures
            final(self).wf(),
            final(self)@ == old(self)@.port_released_v6(endpoint, local_address, process_id, now),
    {
        let ghost before = self@;
        let owner: Option<u64> = if process_id != 0 {
            Some(process_id)
        } else {
            None
        };
        let ended: Vec<ConnectionV6> = match self.connection_cache.end_all_on_endpoint_v6(
            endpoint,
            local_address,
            owner,
            now,
        ) {
            Some(ended) => ended,
            None => {
                assert(self@ =~= before);
                return;
            },
        };
        let ghost start = self@;
        let mut ids: Vec<u64> = Vec::new();
        let count: usize = ended.len();
        let mut n: usize = 0;
        while n < count
            invariant
                n <= count == ended@.len(),
                self.wf(),
                self@ == (DeviceView {
                    events: start.events + ended@.take(n as int).map_values(
                        |c: ConnectionV6| end_event_v6(c, process_id),
                    ),
                    ..start
                }),
                ids@ == ended@.take(n as int).map_values(|c: ConnectionV6| c.instance_id),
            decreases count - n,
        {
            let connection: ConnectionV6 = ended[n];
            let event: Info = emit_connection_end_v6(&connection, process_id);
            self.push_event(event);
            ids.push(connection.instance_id);
            n = n + 1;
            proof {
                assert(ended@.take(n as int) =~= ended@.take(n - 1).push(connection));
                assert(self@.events =~= start.events + ended@.take(n as int).map_values(
                    |c: ConnectionV6| end_event_v6(c, process_id),
                ));
                assert(ids@ =~= ended@.take(n as int).map_values(
                    |c: ConnectionV6| c.instance_id,
                ));
                assert(self@ =~= (DeviceView { events: self@.events, ..start }));
            }
        }
        assert(ended@.take(count as int) =~= ended@);
        self.retire_pending_connection_instances(ids.as_slice(), now);
    }
}

/// The process of an indication, zero where it is not known.
pub open spec fn known_process(process_id: Option<u64>) -> u64 {
    match process_id {
        Some(process_id) => process_id,
        None => 0,
    }
}

impl<H, C> DeviceView<H, C> {
    /// An endpoint closed: the connection of its tuple ended, if all of the tuple is known.
    pub open spec fn endpoint_closed(
        self,
        protocol: IpProtocol,
        local_address: Option<IpAddress>,
        local_port: Option<u16>,
        remote_address: Option<IpAddress>,
        remote_port: Option<u16>,
        process_id: Option<u64>,
        now: u64,
    ) -> Self {
        match spec_populated_key(
            Some(protocol),
            local_address,
            local_port,
            remote_address,
            remote_port,
        ) {
            Some(key) => self.tuple_ended(key, known_process(process_id), now),
            None => self,
        }
    }

    /// A TCP or UDP flow became active: its connection learned of the owning process.
    pub open spec fn flow_indicated(
        self,
        protocol: Option<IpProtocol>,
        local_address: Option<IpAddress>,
        local_port: Option<u16>,
        remote_address: Option<IpAddress>,
        remote_port: Option<u16>,
        process_id: Option<u64>,
        now: u64,
    ) -> Self {
        match spec_populated_key(protocol, local_address, local_port, remote_address, remote_port) {
            Some(key) => if is_authorized_protocol(key.protocol) && known_process(process_id)
                != 0 {
                self.flow_attributed(key, known_process(process_id), now)
            } else {
                self
            },
            None => self,
        }
    }

    /// A local endpoint was given up: its connections in the family of the layer ended.
    pub open spec fn endpoint_given_up(
        self,
        layer: ResourceLayer,
        endpoint: (IpProtocol, u16),
        local_address: Option<IpAddress>,
        process_id: Option<u64>,
        now: u64,
    ) -> Self {
        match layer {
            ResourceLayer::AssignmentV4Discard
            | ResourceLayer::ReleaseV4 => self.port_released_v4(
                endpoint,
                local_address,
                known_process(process_id),
                now,
            ),
            ResourceLayer::AssignmentV6Discard
            | ResourceLayer::ReleaseV6 => self.port_released_v6(
                endpoint,
                local_address,
                known_process(process_id),
                now,
            ),
            ResourceLayer::Other => self,
        }
    }
}

/// Ends the connection of a closed IPv4 endpoint. WFP leaves the remote endpoint empty for
/// closures that have no remote peer: these are ignored.
pub fn endpoint_closure_v4<H, C>(
    device: &mut Device<H, C>,
    protocol: IpProtocol,
    local_address: Option<IpAddress>,
    local_port: u16,
    remote_address: Option<IpAddress>,
    remote_port: Option<u16>,
    process_id: Option<u64>,
    now: u64,
)
    requires
        old(device).wf(),
    ensures
        final(device).wf(),
        final(device)@ == old(device)@.endpoint_closed(
            protocol,
            local_address,
            Some(local_port),
            remote_address,
            remote_port,
            process_id,
            now,
        ),
{
    let owner: u64 = match process_id {
        Some(process_id) => process_id,
        None => 0,
    };
    if let Some(key) = populated_key(
        Some(protocol),
        local_address,
        Some(local_port),
        remote_address,
        remote_port,
    ) {
        device.end_tuple(&key, owner, now);
    }
}

/// Ends the connection of a closed IPv6 endpoint. A closure without one of the addresses or
/// ports is ignored.
pub fn endpoint_closure_v6<H, C>(
    device: &mut Device<H, C>,
    protocol: IpProtocol,
    local_address: Option<IpAddress>,
    local_port: Option<u16>,
    remote_address: Option<IpAddress>,
    remote_port: Option<u16>,
    process_id: Option<u64>,
    now: u64,
)
    requires
        old(device).wf(),
    ensures
        final(device).wf(),
        final(device)@ == old(device)@.endpoint_closed(
            protocol,
            local_address,
            local_port,
            remote_address,
            remote_port,
            process_id,
            now,
        ),
{
    let owner: u64 = match process_id {
        Some(process_id) => process_id,
        None => 0,
    };
    if let Some(key) = populated_key(
        Some(protocol),
        local_address,
        local_port,
        remote_address,
        remote_port,
    ) {
        device.end_tuple(&key, owner, now);
    }
}

/// Refreshes the owning process when a TCP or UDP flow becomes active.
///
/// WFP indicates TCP here after the three-way handshake completes, and UDP immediately
/// after the authorization of the first packet for a remote tuple.
pub fn ale_flow_established_monitor<H, C>(
    device: &mut Device<H, C>,
    protocol: Option<IpProtocol>,
    local_address: Option<IpAddress>,
    local_port: Option<u16>,
    remote_address: Option<IpAddress>,
    remote_port: Option<u16>,
    process_id: Option<u64>,
    now: u64,
)
    requires
        old(device).wf(),
    ensures
        final(device).wf(),
        final(device)@ == old(device)@.flow_indicated(
            protocol,
            local_address,
            local_port,
            remote_address,
            remote_port,
            process_id,
            now,
        ),
{
    let owner: u64 = match process_id {
        Some(process_id) => process_id,
        None => 0,
    };
    if owner == 0 {
        return;
    }
    if let Some(key) = populated_key(
        protocol,
        local_address,
        local_port,
        remote_address,
        remote_port,
    ) {
        match key.protocol {
            IpProtocol::Tcp | IpProtocol::Udp => {
                device.flow_established(&key, owner, now);
            },
            _ => {},
        }
    }
}

/// The layers at which a local endpoint is given up.
#[derive(Clone, Copy, Debug, PartialEq, Eq, Structural)]
pub enum ResourceLayer {
    AssignmentV4Discard,
    AssignmentV6Discard,
    ReleaseV4,
    ReleaseV6,
    Other,
}

/// Ends the connections of a local endpoint that was released, or whose assignment was
/// discarded.
pub fn ale_resource_monitor<H, C>(
    device: &mut Device<H, C>,
    layer: ResourceLayer,
    endpoint: (IpProtocol, u16),
    local_address: Option<IpAddress>,
    process_id: Option<u64>,
    now: u64,
)
    requires
        old(device).wf(),
    ensures
        final(device).wf(),
        final(device)@ == old(device)@.endpoint_given_up(
            layer,
            endpoint,
            local_address,
            process_id,
            now,
        ),
{
    let owner: u64 = match process_id {
        Some(process_id) => process_id,
        None => 0,
    };
    match layer {
        ResourceLayer::AssignmentV4Discard | ResourceLayer::ReleaseV4 => {
            device.release_port_v4(endpoint, local_address, owner, now);
        },
        ResourceLayer::AssignmentV6Discard | ResourceLayer::ReleaseV6 => {
            device.release_port_v6(endpoint, local_address, owner, now);
        },
        ResourceLayer::Other => {},
    }
}

/// A connection that is permanently blocked or dropped is permitted at no layer, in either
/// direction, whoever owns it.
pub proof fn permanent_refusal_is_never_permitted(
    info: ConnectionInfo,
    key: Key,
    context: PacketContext,
    direction: Direction,
    owner: bool,
)
    requires
        info.verdict is PermanentBlock || info.verdict is PermanentDrop,
    ensures
        !(authorized_by(info, direction, owner) is Save),
        authorized_by(info, direction, owner)->action !is Permit,
        decided_by(info, key, context) is BlockHard
            || decided_by(info, key, context) is Absorb,
{
}

} // verus!
