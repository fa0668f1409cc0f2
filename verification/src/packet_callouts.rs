//! Classification at the IP packet layers.
//!
//! The network stack indicates a chain of packets. The callout inspects them one after the
//! other, decides what happens to each, clones those that have to wait or to be rewritten,
//! and leaves one action for the whole indication.

use crate::ale_policy::InjectionStatus;
use crate::connection::{
    Direction, RedirectInfo, Verdict, PM_DNS_PORT, PM_SPLIT_TUN_PORT, PM_SPN_PORT,
};
use crate::connection_cache::SYSTEM_PROCESS_ID;
use crate::device::Device;
use crate::device_lookup::ConnectionInfo;
use crate::device_state::{Action, ActionView, DeviceView};
use crate::icmp_echo_cache::{answers, sender, without_request, EchoRequest};
use crate::connection_map::lemma_filter_member;
use crate::id_cache::PendingPacket;
use crate::ip::IpProtocol;
use crate::key::Key;
use crate::packet::{InjectInfo, NetBuffer, NetBufferView, Packet, PacketView};
use crate::packet_metadata::{IcmpEcho, PacketInspection, PacketMetadata, PacketMetadataError};
use crate::packet_util::{
    buffer_views, packet_failure, packet_redirected, recalc_failure, recalc_header_checksums,
    with_checksums, Redirect,
};
use crate::text::push_text;
use vstd::prelude::*;
use vstd::utf8::encode_utf8;

verus! {

/// Largest retreat accepted from WFP metadata.
///
/// IPv4 headers cap at 60 bytes (IHL is 4 bits of 32-bit words); IPv6 base plus a
/// realistic extension header chain is bounded well below this.
pub const MAX_IP_HEADER_RETREAT: u32 = 128;

/// Length of the fixed part of an IP header.
pub open spec fn base_header_len(ipv6: bool) -> u32 {
    if ipv6 {
        40
    } else {
        20
    }
}

/// Returns how far an inbound net buffer is moved back to the start of its IP header.
///
/// At the inbound packet layers the buffer starts past the IP header. The amount
/// to move back is *not* a constant: with IPv4 options the header is IHL*4 up to
/// 60 bytes, and for IPv6 the size reported by WFP includes any extension header
/// chain. A reported size that cannot be right counts as missing, and the fixed base
/// header size is used.
pub fn ip_header_retreat(ipv6: bool, wfp_ip_header_size: Option<u32>) -> (size: u32)
    ensures
        size == match wfp_ip_header_size {
            Some(reported) => if base_header_len(ipv6) <= reported <= MAX_IP_HEADER_RETREAT {
                reported
            } else {
                base_header_len(ipv6)
            },
            None => base_header_len(ipv6),
        },
{
    let base: u32 = if ipv6 {
        40
    } else {
        20
    };
    match wfp_ip_header_size {
        Some(size) => if size >= base && size <= MAX_IP_HEADER_RETREAT {
            size
        } else {
            base
        },
        None => base,
    }
}

/// A packet between a program and a local redirect entry of the service.
pub open spec fn spec_fast_track(key: Key) -> bool {
    &&& key.local_port == PM_DNS_PORT || key.local_port == PM_SPN_PORT || key.local_port
        == PM_SPLIT_TUN_PORT
    &&& key.local_address == key.remote_address
}

/// Returns whether a packet belongs to a local redirect entry of the service.
pub fn fast_track_pm_packets(key: &Key) -> (r: bool)
    ensures
        r == spec_fast_track(*key),
{
    (key.local_port == PM_DNS_PORT || key.local_port == PM_SPN_PORT || key.local_port
        == PM_SPLIT_TUN_PORT) && key.local_address == key.remote_address
}

/// A packet that is permitted whatever the policy says.
pub open spec fn unconditional(metadata: PacketMetadata) -> bool {
    spec_fast_track(metadata.key) || metadata.is_icmp_port_unreachable
}

/// The action that an indication is left with.
#[derive(Clone, Copy, Debug, PartialEq, Eq, Structural)]
pub enum ClassifyAction {
    /// Blocked and absorbed until something else is decided. Another filter may override it.
    DefaultBlock,
    Permit,
    /// Blocked, and no other filter may override it.
    BlockHard,
    BlockAndAbsorb,
}

/// Where the classification of an indication stands.
#[derive(Clone, Copy, Debug, PartialEq, Eq, Structural)]
pub struct Indication {
    pub action: ClassifyAction,
    /// No further packet of the chain is looked at.
    pub finished: bool,
}

/// What the probe of the first packet of a chain leaves for the rest of the callout.
#[derive(Clone, Copy, Debug, PartialEq, Eq)]
pub struct FirstPacket {
    pub indication: Indication,
    /// The inspection of the first packet, where it need not be repeated.
    pub inspection: Option<PacketInspection>,
}

impl Indication {
    /// Fail closed until a later path explicitly permits the indication.
    pub open spec fn spec_new() -> Indication {
        Indication { action: ClassifyAction::DefaultBlock, finished: false }
    }

    /// The whole indication is permitted.
    pub open spec fn spec_permitted() -> Indication {
        Indication { action: ClassifyAction::Permit, finished: true }
    }

    /// What the first packet decides for the chain. Fragments are permitted: the reassembled
    /// datagram is indicated once more. So are packets that need no decision.
    pub open spec fn spec_after_first(probe: Option<PacketInspection>) -> FirstPacket {
        match probe {
            None => FirstPacket { indication: Indication::spec_new(), inspection: None },
            Some(inspection) => if inspection.is_fragment {
                FirstPacket { indication: Indication::spec_permitted(), inspection: None }
            } else {
                match inspection.metadata {
                    Ok(metadata) => FirstPacket {
                        indication: if unconditional(metadata) {
                            Indication::spec_permitted()
                        } else {
                            Indication::spec_new()
                        },
                        inspection: Some(inspection),
                    },
                    Err(_) => FirstPacket {
                        indication: Indication::spec_new(),
                        inspection: None,
                    },
                }
            },
        }
    }

    /// Decides what the first packet means for the chain. There is no probe of a reassembled
    /// datagram, nor of a packet whose header could not be reached.
    pub fn after_first(probe: Option<PacketInspection>) -> (first: FirstPacket)
        ensures
            first == Indication::spec_after_first(probe),
    {
        let open = Indication { action: ClassifyAction::DefaultBlock, finished: false };
        let permitted = Indication { action: ClassifyAction::Permit, finished: true };
        match probe {
            None => FirstPacket { indication: open, inspection: None },
            Some(inspection) => {
                if inspection.is_fragment {
                    return FirstPacket { indication: permitted, inspection: None };
                }
                match inspection.metadata {
                    Ok(metadata) => {
                        let permit: bool = fast_track_pm_packets(&metadata.key)
                            || metadata.is_icmp_port_unreachable;
                        FirstPacket {
                            indication: if permit {
                                permitted
                            } else {
                                open
                            },
                            inspection: Some(inspection),
                        }
                    },
                    Err(_) => FirstPacket { indication: open, inspection: None },
                }
            },
        }
    }

    /// Permits a chain that this driver injected itself.
    pub fn after_injection_query(self, injection: InjectionStatus) -> (next: Indication)
        ensures
            next == if injection.self_injected {
                Indication::spec_permitted()
            } else {
                self
            },
    {
        if injection.is_self_injected() {
            Indication { action: ClassifyAction::Permit, finished: true }
        } else {
            self
        }
    }

    /// The indication after one packet. Without a clone of a packet that has to wait, the
    /// classification ends with the action that it had.
    pub open spec fn spec_after_packet(self, decision: PacketDecision, cloned: bool) -> Indication {
        match decision {
            PacketDecision::PermitIndication => Indication::spec_permitted(),
            PacketDecision::Stop => Indication { finished: true, ..self },
            PacketDecision::Permit => Indication { action: ClassifyAction::Permit, ..self },
            PacketDecision::BlockHard => Indication { action: ClassifyAction::BlockHard, ..self },
            PacketDecision::Absorb | PacketDecision::Redirect(_, _) => Indication {
                action: ClassifyAction::BlockAndAbsorb,
                ..self
            },
            PacketDecision::Ask(_) => if cloned {
                Indication { action: ClassifyAction::BlockAndAbsorb, ..self }
            } else {
                Indication { finished: true, ..self }
            },
        }
    }

    /// Takes the decision about one packet into the indication.
    pub fn after_packet(self, decision: &PacketDecision, cloned: bool) -> (next: Indication)
        ensures
            next == self.spec_after_packet(*decision, cloned),
    {
        match decision {
            PacketDecision::PermitIndication => Indication {
                action: ClassifyAction::Permit,
                finished: true,
            },
            PacketDecision::Stop => Indication { action: self.action, finished: true },
            PacketDecision::Permit => Indication {
                action: ClassifyAction::Permit,
                finished: self.finished,
            },
            PacketDecision::BlockHard => Indication {
                action: ClassifyAction::BlockHard,
                finished: self.finished,
            },
            PacketDecision::Absorb | PacketDecision::Redirect(_, _) => Indication {
                action: ClassifyAction::BlockAndAbsorb,
                finished: self.finished,
            },
            PacketDecision::Ask(_) => if cloned {
                Indication { action: ClassifyAction::BlockAndAbsorb, finished: self.finished }
            } else {
                Indication { action: self.action, finished: true }
            },
        }
    }
}

/// What holds for a whole indication.
#[derive(Clone, Copy, Debug, PartialEq, Eq, Structural)]
pub struct PacketContext {
    pub ipv6: bool,
    pub direction: Direction,
    pub compartment_id: Option<u32>,
    pub interface_index: u32,
    pub sub_interface_index: u32,
    pub injected_by_other: bool,
    /// The process on whose thread the callout runs. It says something only of outbound
    /// packets.
    pub current_process_id: u64,
}

/// A packet for which user space has to be asked.
#[derive(Clone, Copy, Debug, PartialEq, Eq, Structural)]
pub struct PacketRequest {
    pub key: Key,
    pub process_id: u64,
    pub connection_instance_id: Option<u64>,
    pub direction: Direction,
    pub inject_info: InjectInfo,
}

/// What happens to one packet.
#[derive(Clone, Copy, Debug, PartialEq, Eq, Structural)]
pub enum PacketDecision {
    /// Permit it and all that follow.
    PermitIndication,
    /// Leave it and all that follow to the action so far.
    Stop,
    Permit,
    BlockHard,
    Absorb,
    /// Inject a rewritten clone in its place.
    Redirect(RedirectInfo, InjectInfo),
    /// Keep a clone until user space has decided.
    Ask(PacketRequest),
}

/// How a clone of a packet returns to the network stack.
pub open spec fn spec_packet_inject_info(
    context: PacketContext,
    direction: Direction,
    loopback: bool,
) -> InjectInfo {
    InjectInfo {
        ipv6: context.ipv6,
        inbound: direction is Inbound,
        loopback,
        compartment_id: context.compartment_id,
        interface_index: context.interface_index,
        sub_interface_index: context.sub_interface_index,
    }
}

/// Returns how a clone of a packet returns to the network stack.
pub fn packet_inject_info(context: &PacketContext, direction: Direction, loopback: bool) -> (info:
    InjectInfo)
    ensures
        info == spec_packet_inject_info(*context, direction, loopback),
{
    InjectInfo {
        ipv6: context.ipv6,
        inbound: direction == Direction::Inbound,
        loopback,
        compartment_id: context.compartment_id,
        interface_index: context.interface_index,
        sub_interface_index: context.sub_interface_index,
    }
}

/// A connection whose authorization is pending and whose program is not known yet.
pub open spec fn awaits_accept(info: ConnectionInfo) -> bool {
    &&& info.direction is Inbound
    &&& info.verdict is Undecided
    &&& info.process_id == 0 || info.process_id == SYSTEM_PROCESS_ID
}

/// What the policy of a known connection does with a packet.
pub open spec fn decided_by(
    info: ConnectionInfo,
    key: Key,
    context: PacketContext,
) -> PacketDecision {
    let inject_info = spec_packet_inject_info(context, context.direction, key.spec_is_loopback());
    if awaits_accept(info) {
        PacketDecision::PermitIndication
    } else {
        match info.verdict {
            Verdict::PermanentAccept => PacketDecision::Permit,
            Verdict::PermanentBlock => PacketDecision::BlockHard,
            Verdict::Undeterminable | Verdict::PermanentDrop | Verdict::Failed =>
                PacketDecision::Absorb,
            Verdict::RedirectNameServer | Verdict::RedirectTunnel | Verdict::RedirectSplitTunnel =>
                match info.redirect_info {
                    Some(redirect_info) => PacketDecision::Redirect(redirect_info, inject_info),
                    None => PacketDecision::Absorb,
                },
            Verdict::Undecided | Verdict::Accept | Verdict::Block | Verdict::Drop =>
                PacketDecision::Ask(
                    PacketRequest {
                        key,
                        process_id: info.process_id,
                        connection_instance_id: Some(info.instance_id),
                        direction: context.direction,
                        inject_info,
                    },
                ),
        }
    }
}

/// Decides by the policy of a known connection.
fn decide_by(info: &ConnectionInfo, key: &Key, context: &PacketContext) -> (decision:
    PacketDecision)
    ensures
        decision == decided_by(*info, *key, *context),
{
    if info.direction == Direction::Inbound && info.verdict == Verdict::Undecided && (
    info.process_id == 0 || info.process_id == SYSTEM_PROCESS_ID) {
        // A new inbound connection must reach ALE_AUTH_RECV_ACCEPT so it can be
        // attributed and authorized there.
        return PacketDecision::PermitIndication;
    }
    let inject_info = packet_inject_info(context, context.direction, key.is_loopback());
    match info.verdict {
        Verdict::PermanentAccept => PacketDecision::Permit,
        Verdict::PermanentBlock => PacketDecision::BlockHard,
        Verdict::Undeterminable | Verdict::PermanentDrop | Verdict::Failed =>
            PacketDecision::Absorb,
        Verdict::RedirectNameServer | Verdict::RedirectTunnel | Verdict::RedirectSplitTunnel =>
            match info.redirect_info {
                Some(redirect_info) => PacketDecision::Redirect(redirect_info, inject_info),
                None => PacketDecision::Absorb,
            },
        Verdict::Undecided | Verdict::Accept | Verdict::Block | Verdict::Drop =>
            PacketDecision::Ask(
                PacketRequest {
                    key: *key,
                    process_id: info.process_id,
                    connection_instance_id: Some(info.instance_id),
                    direction: context.direction,
                    inject_info,
                },
            ),
    }
}

/// A packet of a protocol with ports.
pub open spec fn is_transport(key: Key) -> bool {
    key.protocol is Tcp || key.protocol is Udp
}

impl<H, C> DeviceView<H, C> {
    /// An error was recorded with its cause.
    pub open spec fn with_failure(self, text: Seq<char>, cause: Seq<char>) -> Self {
        self.with_error(encode_utf8(text) + encode_utf8(cause))
    }

    /// Whose packet without ports this is: its direction, and the process behind it.
    ///
    /// An outbound echo request belongs to the current process. A reply belongs to the
    /// process whose request it answers; one that is reported as outbound and answers a
    /// request of this machine is inbound in fact. Nothing else can be attributed.
    pub open spec fn originator(
        self,
        key: Key,
        echo: Option<IcmpEcho>,
        context: PacketContext,
    ) -> (Direction, u64) {
        match echo {
            None => (context.direction, 0),
            Some(echo) => if echo.is_request {
                match context.direction {
                    Direction::Outbound => (Direction::Outbound, context.current_process_id),
                    Direction::Inbound => (Direction::Inbound, 0),
                }
            } else {
                match sender(self.echoes, key.remote_address, echo.identifier) {
                    Some(process_id) => (Direction::Inbound, process_id),
                    None => (context.direction, 0),
                }
            },
        }
    }

    /// An outbound echo request was remembered, a reply consumed the request that it
    /// answers.
    pub open spec fn echo_seen(
        self,
        key: Key,
        echo: Option<IcmpEcho>,
        context: PacketContext,
        now: u64,
    ) -> Self {
        match echo {
            None => self,
            Some(echo) => {
                let others = without_request(self.echoes, key.remote_address, echo.identifier);
                if !echo.is_request {
                    DeviceView { echoes: others, ..self }
                } else if context.direction is Outbound {
                    DeviceView {
                        echoes: others.push(
                            EchoRequest {
                                remote_address: key.remote_address,
                                identifier: echo.identifier,
                                process_id: context.current_process_id,
                                sent_at_ms: now,
                            },
                        ),
                        ..self
                    }
                } else {
                    self
                }
            },
        }
    }

    /// What happens to a packet without ports.
    pub open spec fn other_decision(
        self,
        metadata: PacketMetadata,
        context: PacketContext,
    ) -> PacketDecision {
        let key = metadata.key;
        let (direction, process_id) = self.originator(key, metadata.icmp_echo, context);
        PacketDecision::Ask(
            PacketRequest {
                key,
                process_id,
                connection_instance_id: None,
                direction,
                inject_info: spec_packet_inject_info(context, direction, key.spec_is_loopback()),
            },
        )
    }

    /// What happens to an outbound packet of a connection that is not known. One that
    /// another driver injected is decided on its own; any other gets a connection whose
    /// end nothing will report.
    pub open spec fn unknown_outbound_decision(
        self,
        key: Key,
        context: PacketContext,
        now: u64,
    ) -> PacketDecision {
        let inject_info = spec_packet_inject_info(
            context,
            context.direction,
            key.spec_is_loopback(),
        );
        if context.injected_by_other {
            PacketDecision::Ask(
                PacketRequest {
                    key,
                    process_id: context.current_process_id,
                    connection_instance_id: None,
                    direction: context.direction,
                    inject_info,
                },
            )
        } else {
            match self.registration(key, 0, context.direction, false, now) {
                Some(registration) => PacketDecision::Ask(
                    PacketRequest {
                        key,
                        process_id: 0,
                        connection_instance_id: Some(registration.instance_id),
                        direction: context.direction,
                        inject_info,
                    },
                ),
                None => PacketDecision::Stop,
            }
        }
    }

    /// What happens to a packet.
    pub open spec fn packet_decision(
        self,
        inspection: PacketInspection,
        context: PacketContext,
        now: u64,
    ) -> PacketDecision {
        match inspection.metadata {
            Err(_) => PacketDecision::Stop,
            Ok(metadata) => {
                let key = metadata.key;
                let history = !context.injected_by_other && context.direction is Outbound;
                if unconditional(metadata) {
                    PacketDecision::PermitIndication
                } else if is_transport(key) {
                    match self.info(key, context.ipv6, history) {
                        Some(info) => decided_by(info, key, context),
                        None => if metadata.is_tcp_reset || context.direction is Inbound {
                            PacketDecision::PermitIndication
                        } else {
                            self.unknown_outbound_decision(key, context, now)
                        },
                    }
                } else if metadata.is_tcp_reset {
                    PacketDecision::PermitIndication
                } else {
                    self.other_decision(metadata, context)
                }
            },
        }
    }

    /// A packet was looked at.
    pub open spec fn packet_seen(
        self,
        inspection: PacketInspection,
        context: PacketContext,
        now: u64,
    ) -> Self {
        match inspection.metadata {
            Err(error) => self.with_failure(
                "failed to get key from nbl: "@,
                error.spec_message()@,
            ),
            Ok(metadata) => {
                let key = metadata.key;
                let history = !context.injected_by_other && context.direction is Outbound;
                if unconditional(metadata) {
                    self
                } else if is_transport(key) {
                    let s = self.looked_up(key, context.ipv6, history, now);
                    if self.info(key, context.ipv6, history) is Some || metadata.is_tcp_reset
                        || context.direction is Inbound || context.injected_by_other {
                        s
                    } else if s.registration(key, 0, context.direction, false, now) is Some {
                        s.registered(key, 0, context.direction, false, now)
                    } else {
                        s.with_failure("failed to build connection: "@, "wrong ip address version"@)
                    }
                } else if metadata.is_tcp_reset {
                    self
                } else {
                    self.echo_seen(key, metadata.icmp_echo, context, now)
                }
            },
        }
    }

    /// A clone waits for the decision about a packet. If the connection of the packet has
    /// ended in the meantime, the clone is completed as blocked.
    pub open spec fn packet_asked(self, request: PacketRequest, packet: Packet<H>) -> Self {
        if request.connection_instance_id matches Some(id) && !self.live_matching(request.key, id) {
            self.with_action(
                ActionView::Inject { packet: packet@, blocked: true, reset_first: false },
            )
        } else {
            self.asked(
                PendingPacket {
                    key: request.key,
                    packet,
                    connection_instance_id: request.connection_instance_id,
                },
                request.process_id,
                request.direction,
                false,
            )
        }
    }

    /// A clone was rewritten and injected, or given up.
    pub open spec fn clone_redirected(self, packet: PacketView<H>, info: RedirectInfo) -> Self {
        match packet_failure(packet, info) {
            None => self.with_action(
                ActionView::Inject {
                    packet: packet_redirected(packet, info),
                    blocked: false,
                    reset_first: false,
                },
            ),
            Some(error) => self.with_failure("failed to redirect packet: "@, error),
        }
    }
}

impl<H, C> Device<H, C> {
    /// Records an error with its cause.
    pub fn record_failure(&mut self, text: &str, cause: &str)
        requires
            old(self).wf(),
        ensures
            final(self).wf(),
            final(self)@ == old(self)@.with_failure(text@, cause@),
    {
        let mut line: Vec<u8> = Vec::new();
        push_text(&mut line, text);
        push_text(&mut line, cause);
        assert(line@ =~= encode_utf8(text@) + encode_utf8(cause@));
        self.record_error(line.as_slice());
    }

    /// Decides what happens to one packet.
    pub fn classify_packet(
        &mut self,
        inspection: &PacketInspection,
        context: &PacketContext,
        now: u64,
    ) -> (decision: PacketDecision)
        requires
            old(self).wf(),
        ensures
            final(self).wf(),
            decision == old(self)@.packet_decision(*inspection, *context, now),
            final(self)@ == old(self)@.packet_seen(*inspection, *context, now),
    {
        let metadata: PacketMetadata = match inspection.metadata {
            Ok(metadata) => metadata,
            Err(error) => {
                self.record_failure("failed to get key from nbl: ", error.message());
                return PacketDecision::Stop;
            },
        };
        let key: Key = metadata.key;
        if fast_track_pm_packets(&key) || metadata.is_icmp_port_unreachable {
            return PacketDecision::PermitIndication;
        }
        let transport: bool = key.protocol == IpProtocol::Tcp || key.protocol == IpProtocol::Udp;
        if transport {
            let info: Option<ConnectionInfo> = self.get_connection_info(
                &key,
                context.ipv6,
                context.direction,
                !context.injected_by_other,
                now,
            );
            match info {
                Some(info) => decide_by(&info, &key, context),
                None => {
                    // A reset from the local stack for which no socket is listening has no
                    // connection behind it. An inbound packet goes on to
                    // ALE_AUTH_RECV_ACCEPT, where its process is known.
                    if metadata.is_tcp_reset || context.direction == Direction::Inbound {
                        PacketDecision::PermitIndication
                    } else {
                        self.classify_unknown_outbound(&key, context, now)
                    }
                },
            }
        } else if metadata.is_tcp_reset {
            PacketDecision::PermitIndication
        } else {
            let (direction, process_id): (Direction, u64) = self.attribute_echo(
                &key,
                metadata.icmp_echo,
                context,
                now,
            );
            PacketDecision::Ask(
                PacketRequest {
                    key,
                    process_id,
                    connection_instance_id: None,
                    direction,
                    inject_info: packet_inject_info(context, direction, key.is_loopback()),
                },
            )
        }
    }

    fn classify_unknown_outbound(
        &mut self,
        key: &Key,
        context: &PacketContext,
        now: u64,
    ) -> (decision: PacketDecision)
        requires
            old(self).wf(),
        ensures
            final(self).wf(),
            decision == old(self)@.unknown_outbound_decision(*key, *context, now),
            final(self)@ == if context.injected_by_other {
                old(self)@
            } else if old(self)@.registration(*key, 0, context.direction, false, now) is Some {
                old(self)@.registered(*key, 0, context.direction, false, now)
            } else {
                old(self)@.with_failure(
                    "failed to build connection: "@,
                    "wrong ip address version"@,
                )
            },
    {
        let inject_info = packet_inject_info(context, context.direction, key.is_loopback());
        if context.injected_by_other {
            return PacketDecision::Ask(
                PacketRequest {
                    key: *key,
                    process_id: context.current_process_id,
                    connection_instance_id: None,
                    direction: context.direction,
                    inject_info,
                },
            );
        }
        match self.register(key, 0, context.direction, false, now) {
            Ok(registration) => PacketDecision::Ask(
                PacketRequest {
                    key: *key,
                    process_id: 0,
                    connection_instance_id: Some(registration.instance_id),
                    direction: context.direction,
                    inject_info,
                },
            ),
            Err(_) => {
                self.record_failure("failed to build connection: ", "wrong ip address version");
                PacketDecision::Stop
            },
        }
    }

    fn attribute_echo(
        &mut self,
        key: &Key,
        echo: Option<IcmpEcho>,
        context: &PacketContext,
        now: u64,
    ) -> (originator: (Direction, u64))
        requires
            old(self).wf(),
        ensures
            final(self).wf(),
            originator == old(self)@.originator(*key, echo, *context),
            final(self)@ == old(self)@.echo_seen(*key, echo, *context, now),
    {
        let echo: IcmpEcho = match echo {
            Some(echo) => echo,
            None => {
                return (context.direction, 0);
            },
        };
        let originator: (Direction, u64) = if echo.is_request {
            match context.direction {
                Direction::Outbound => {
                    self.icmp_echo_cache.insert_request(
                        key.remote_address,
                        echo.identifier,
                        context.current_process_id,
                        now,
                    );
                    (Direction::Outbound, context.current_process_id)
                },
                Direction::Inbound => (Direction::Inbound, 0),
            }
        } else {
            let sent_by: Option<u64> = self.icmp_echo_cache.take_request_pid(
                key.remote_address,
                echo.identifier,
            );
            match sent_by {
                Some(process_id) => (Direction::Inbound, process_id),
                None => (context.direction, 0),
            }
        };
        assert(self@ =~= old(self)@.echo_seen(*key, Some(echo), *context, now));
        originator
    }

    /// Lets a clone wait for the decision about its packet.
    pub fn ask(&mut self, request: PacketRequest, packet: Packet<H>)
        requires
            old(self).wf(),
            old(self)@.can_ask(request.key, packet),
        ensures
            final(self).wf(),
            final(self)@ == old(self)@.packet_asked(request, packet),
    {
        let rejected: Option<PendingPacket<H>> = self.publish_pending_packet(
            (request.key, packet),
            request.connection_instance_id,
            request.process_id,
            request.direction,
            false,
        );
        if let Some(pending) = rejected {
            self.push_action(
                Action::Inject { packet: pending.packet, blocked: true, reset_first: false },
            );
        }
    }

    /// Rewrites a clone and injects it in place of its packet. A clone that cannot be
    /// rewritten is dropped rather than bypassing the redirect policy.
    pub fn redirect_clone(&mut self, packet: Packet<H>, redirect_info: RedirectInfo)
        requires
            old(self).wf(),
        ensures
            final(self).wf(),
            final(self)@ == old(self)@.clone_redirected(packet@, redirect_info),
    {
        let mut clone = packet;
        match clone.redirect(redirect_info) {
            Ok(()) => {
                self.push_action(
                    Action::Inject { packet: clone, blocked: false, reset_first: false },
                );
            },
            Err(error) => {
                self.record_failure("failed to redirect packet: ", error.as_str());
            },
        }
    }
}

/// Whether a clone gets its checksums now or when it is redirected.
#[derive(Clone, Copy, Debug, PartialEq, Eq, Structural)]
pub enum CloneChecksum {
    Recalculate,
    RedirectWillRecalculate,
}

/// Clones of the packets of one net buffer list.
pub enum NetBufferListClones<H> {
    Single(NetBuffer<H>),
    Batch(Vec<NetBuffer<H>>),
}

/// The error with which a clone gets no checksums.
pub open spec fn clone_failure<H>(clone: NetBufferView<H>, ipv6: bool) -> Option<Seq<char>> {
    if !clone.writable {
        Some("failed to access cloned packet data"@)
    } else {
        recalc_failure(clone.data, ipv6)
    }
}

/// A clone with its checksums.
pub open spec fn clone_completed<H>(clone: NetBufferView<H>, ipv6: bool) -> NetBufferView<H> {
    NetBufferView { data: with_checksums(clone.data, ipv6), ..clone }
}

/// The error with which the first of some clones fails.
pub open spec fn clones_failure<H>(clones: Seq<NetBufferView<H>>, ipv6: bool) -> Option<Seq<char>>
    decreases clones.len(),
{
    if clones.len() == 0 {
        None
    } else {
        match clones_failure(clones.drop_last(), ipv6) {
            Some(error) => Some(error),
            None => clone_failure(clones.last(), ipv6),
        }
    }
}

/// The error with which a packet is not made of its clones.
pub open spec fn clone_packet_failure<H>(
    clones: NetBufferListClones<H>,
    ipv6: bool,
    checksum: CloneChecksum,
) -> Option<Seq<char>> {
    match checksum {
        CloneChecksum::RedirectWillRecalculate => None,
        CloneChecksum::Recalculate => match clones {
            NetBufferListClones::Single(clone) => clone_failure(clone@, ipv6),
            NetBufferListClones::Batch(clones) => clones_failure(buffer_views(clones@), ipv6),
        },
    }
}

/// The packet that is made of its clones.
pub open spec fn packet_of_clones<H>(
    clones: NetBufferListClones<H>,
    inject_info: InjectInfo,
    checksum: CloneChecksum,
) -> PacketView<H> {
    let completed = |clone: NetBufferView<H>|
        match checksum {
            CloneChecksum::Recalculate => clone_completed(clone, inject_info.ipv6),
            CloneChecksum::RedirectWillRecalculate => clone,
        };
    match clones {
        NetBufferListClones::Single(clone) => PacketView::Network(completed(clone@), inject_info),
        NetBufferListClones::Batch(clones) => PacketView::NetworkBatch(
            buffer_views(clones@).map_values(completed),
            inject_info,
        ),
    }
}

/// Gives a clone complete software checksums.
///
/// Outbound packets intercepted at the IP layer may carry only a partial
/// pseudo-header checksum because the TCP/IP stack asked the NIC to finish
/// checksum offload. Packet cloning copies the bytes but not the offload metadata.
pub fn recalculate_clone_checksum<H>(clone: &mut NetBuffer<H>, ipv6: bool) -> (r: Result<
    (),
    String,
>)
    ensures
        match r {
            Ok(()) => {
                &&& clone_failure(old(clone)@, ipv6) is None
                &&& final(clone)@ == clone_completed(old(clone)@, ipv6)
            },
            Err(error) => {
                &&& clone_failure(old(clone)@, ipv6) == Some(error@)
                &&& final(clone)@ == old(clone)@
            },
        },
{
    if !clone.writable {
        return Err("failed to access cloned packet data".to_string());
    }
    recalc_header_checksums(clone.data.as_mut_slice(), ipv6)
}

/// A batch fails where a shorter one does.
proof fn lemma_clones_failure_stays<H>(clones: Seq<NetBufferView<H>>, i: int, ipv6: bool)
    requires
        0 <= i <= clones.len(),
        clones_failure(clones.take(i), ipv6) is Some,
    ensures
        clones_failure(clones, ipv6) == clones_failure(clones.take(i), ipv6),
    decreases clones.len(),
{
    if i == clones.len() {
        assert(clones.take(i) =~= clones);
    } else {
        assert(clones.drop_last().take(i) =~= clones.take(i));
        lemma_clones_failure_stays(clones.drop_last(), i, ipv6);
    }
}

/// Gives some clones complete software checksums.
fn recalculate_clone_checksums<H>(clones: &mut Vec<NetBuffer<H>>, ipv6: bool) -> (r: Result<
    (),
    String,
>)
    ensures
        match r {
            Ok(()) => {
                &&& clones_failure(buffer_views(old(clones)@), ipv6) is None
                &&& buffer_views(final(clones)@) == buffer_views(old(clones)@).map_values(
                    |c: NetBufferView<H>| clone_completed(c, ipv6),
                )
            },
            Err(error) => clones_failure(buffer_views(old(clones)@), ipv6) == Some(error@),
        },
{
    let ghost all = buffer_views(clones@);
    let mut index: usize = 0;
    while index < clones.len()
        invariant
            index <= clones@.len() == all.len(),
            all == buffer_views(old(clones)@),
            clones_failure(all.take(index as int), ipv6) is None,
            forall|i: int|
                0 <= i < index ==> (#[trigger] clones@[i])@ == clone_completed(all[i], ipv6),
            forall|i: int| index <= i < all.len() ==> (#[trigger] clones@[i])@ == all[i],
        decreases clones@.len() - index,
    {
        let ghost k = index as int;
        assert(all.take(k + 1).drop_last() =~= all.take(k));
        assert(all.take(k + 1).last() == all[k]);
        match recalculate_clone_checksum(&mut clones[index], ipv6) {
            Ok(()) => {},
            Err(error) => {
                proof {
                    lemma_clones_failure_stays(all, k + 1, ipv6);
                }
                return Err(error);
            },
        }
        index = index + 1;
    }
    proof {
        assert(all.take(all.len() as int) =~= all);
        assert(buffer_views(clones@) =~= all.map_values(
            |c: NetBufferView<H>| clone_completed(c, ipv6),
        ));
    }
    Ok(())
}

/// Makes a packet of its clones. Packets that wait for a decision get their checksums now;
/// redirecting writes the final addresses, port and checksum in one pass.
pub fn clone_packet<H>(
    clones: NetBufferListClones<H>,
    inject_info: InjectInfo,
    checksum: CloneChecksum,
) -> (r: Result<Packet<H>, String>)
    ensures
        match r {
            Ok(packet) => {
                &&& clone_packet_failure(clones, inject_info.ipv6, checksum) is None
                &&& packet@ == packet_of_clones(clones, inject_info, checksum)
            },
            Err(error) => clone_packet_failure(clones, inject_info.ipv6, checksum) == Some(error@),
        },
{
    let ghost given = clones;
    match clones {
        NetBufferListClones::Single(buffer) => {
            let mut clone = buffer;
            if checksum == CloneChecksum::Recalculate {
                match recalculate_clone_checksum(&mut clone, inject_info.ipv6) {
                    Ok(()) => {},
                    Err(error) => {
                        return Err(error);
                    },
                }
            }
            Ok(Packet::Network(clone, inject_info))
        },
        NetBufferListClones::Batch(buffers) => {
            let mut batch = buffers;
            if checksum == CloneChecksum::Recalculate {
                match recalculate_clone_checksums(&mut batch, inject_info.ipv6) {
                    Ok(()) => {},
                    Err(error) => {
                        return Err(error);
                    },
                }
            }
            let packet = Packet::NetworkBatch(batch, inject_info);
            assert(packet@ =~= packet_of_clones(given, inject_info, checksum)) by {
                assert(packet@->NetworkBatch_0 =~= packet_of_clones(
                    given,
                    inject_info,
                    checksum,
                )->NetworkBatch_0);
            }
            Ok(packet)
        },
    }
}

/// An indication is permitted only by a decision that permits.
pub proof fn indication_fails_closed(
    indication: Indication,
    decision: PacketDecision,
    cloned: bool,
)
    requires
        !(indication.action is Permit),
        !(decision is Permit || decision is PermitIndication),
    ensures
        !(indication.spec_after_packet(decision, cloned).action is Permit),
{
}

/// A packet that another driver injected and that belongs to no live connection is decided
/// on its own: it leaves no connection behind, and its request names none.
pub proof fn foreign_packet_is_stateless<H, C>(
    s: DeviceView<H, C>,
    inspection: PacketInspection,
    metadata: PacketMetadata,
    context: PacketContext,
    now: u64,
)
    requires
        inspection.metadata == Ok::<PacketMetadata, PacketMetadataError>(metadata),
        is_transport(metadata.key),
        !unconditional(metadata),
        !metadata.is_tcp_reset,
        context.injected_by_other,
        context.direction is Outbound,
        s.info(metadata.key, context.ipv6, false) is None,
    ensures
        s.packet_seen(inspection, context, now) == s,
        s.packet_decision(inspection, context, now) matches PacketDecision::Ask(request)
            && request.connection_instance_id is None && request.process_id
            == context.current_process_id,
{
}

/// A reply is attributed to the process that sent the request which it answers, and counts
/// as inbound, from whichever side the stack reports it.
pub proof fn echo_reply_belongs_to_its_request<H, C>(
    s: DeviceView<H, C>,
    key: Key,
    identifier: u16,
    request_context: PacketContext,
    reply_context: PacketContext,
    now: u64,
)
    requires
        request_context.direction is Outbound,
    ensures
        s.echo_seen(
            key,
            Some(IcmpEcho { is_request: true, identifier }),
            request_context,
            now,
        ).originator(key, Some(IcmpEcho { is_request: false, identifier }), reply_context) == (
            Direction::Inbound,
            request_context.current_process_id,
        ),
{
    let others = without_request(s.echoes, key.remote_address, identifier);
    let request = EchoRequest {
        remote_address: key.remote_address,
        identifier,
        process_id: request_context.current_process_id,
        sent_at_ms: now,
    };
    let echoes = others.push(request);
    let keep = |r: EchoRequest| !answers(r, key.remote_address, identifier);
    assert(answers(echoes[echoes.len() - 1], key.remote_address, identifier));
    assert forall|i: int| 0 <= i < others.len() implies !answers(
        #[trigger] echoes[i],
        key.remote_address,
        identifier,
    ) by {
        lemma_filter_member(s.echoes, keep, i);
    }
}

} // verus!
