//! How an indication is led through a layer, from the first question to its action.

use crate::ale_callouts::{AleDecision, AleLayerData};
use crate::ale_layer::{AleAction, AleEvent, AleHeaders, AleStage};
use crate::ale_policy::InjectionStatus;
use crate::connection::Direction;
use crate::device_state::DeviceView;
use crate::id_cache::packet_parts;
use crate::packet::Packet;
use crate::packet_callouts::{ClassifyAction, PacketContext, PacketDecision};
use crate::packet_laws::on_redirect_entry;
use crate::packet_layer::{layer_step, LayerAction, LayerEvent, LayerStage, LayerState, PacketLayer};
use crate::packet_metadata::PacketInspection;
use crate::record_laws::small_packet_can_be_asked_about;
use crate::verdict_laws::completes;
use vstd::prelude::*;

verus! {

/// The size of an IP header as the platform reports it, where that can be right, and else that
/// of a header without options.
pub open spec fn header_size(layer: PacketLayer) -> u32 {
    let (least, most): (u32, u32) = if layer.ipv6 {
        (40, 128)
    } else {
        (20, 128)
    };
    match layer.ip_header_size {
        Some(size) => if least <= size && size <= most {
            size
        } else {
            least
        },
        None => least,
    }
}

/// A packet is looked at next: one that comes in starts behind its IP header and has to be
/// moved back first.
pub open spec fn looks_at(layer: PacketLayer, packet: int, action: LayerAction) -> bool {
    match layer.direction {
        Direction::Inbound => action matches LayerAction::Retreat { packet: p, size } && p == packet
            && size == header_size(layer),
        Direction::Outbound => action matches LayerAction::Inspect { packet: p } && p == packet,
    }
}

/// The chain is done with a packet: the next one is looked at, and behind the last one the
/// indication is left with its action.
pub open spec fn goes_on(
    layer: PacketLayer,
    packet: int,
    next: (LayerState, LayerAction),
    action: ClassifyAction,
) -> bool {
    &&& next.0.indication.action == action
    &&& if packet + 1 < layer.packet_count {
        looks_at(layer, packet + 1, next.1)
    } else {
        next.1 == LayerAction::Finish(action)
    }
}

/// An indication begins with its first packet. Nothing is read of an empty chain, and a chain
/// that was put together from fragments is not searched for them again. Until something is
/// decided, the indication is blocked, and without a device it stays so.
pub proof fn classification_begins(layer: PacketLayer)
    ensures
        ({
            let next = layer.spec_begin();
            &&& next.0.indication.action is DefaultBlock
            &&& layer.packet_count == 0 ==> next.1 == LayerAction::Finish(
                ClassifyAction::DefaultBlock,
            )
            &&& layer.packet_count > 0 && !layer.reassembled ==> looks_at(layer, 0, next.1)
            &&& layer.packet_count > 0 && layer.reassembled ==> next.1 == if layer.has_device {
                LayerAction::QueryInjection
            } else {
                LayerAction::Finish(ClassifyAction::DefaultBlock)
            }
        }),
{
}

/// The first packet is read once its header is reached. A fragment is permitted whether or not
/// there is a device. So is, where there is one, a packet of a redirect entry and an
/// unreachable port that this machine reports. Every other chain is asked for who injected it.
pub proof fn first_packet_is_read<H, C>(
    s: DeviceView<H, C>,
    t: DeviceView<H, C>,
    layer: PacketLayer,
    state: LayerState,
    event: LayerEvent<H>,
    now: u64,
    next: (LayerState, LayerAction),
)
    requires
        state.stage is ProbeRetreat || state.stage is ProbeInspect,
        layer_step(s, t, layer, state, event, now, next),
    ensures
        t == s,
        match (state.stage, event) {
            (LayerStage::ProbeRetreat, LayerEvent::Retreated(reached)) => if reached {
                next.1 == LayerAction::Inspect { packet: 0 }
            } else if layer.has_device {
                next.1 is QueryInjection
            } else {
                next.1 == LayerAction::Finish(ClassifyAction::DefaultBlock)
            },
            (LayerStage::ProbeInspect { .. }, LayerEvent::Inspected(read)) => {
                let passes = read.is_fragment || (layer.has_device && (read.metadata matches Ok(m)
                    && (on_redirect_entry(m.key) || m.is_icmp_port_unreachable)));
                if passes {
                    next.1 == LayerAction::Finish(ClassifyAction::Permit)
                } else if layer.has_device {
                    &&& next.1 is QueryInjection
                    &&& next.0.stage matches LayerStage::Query { inspection, .. }
                        && (read.metadata is Ok ==> inspection == Some(read))
                } else {
                    next.1 == LayerAction::Finish(ClassifyAction::DefaultBlock)
                }
            },
            _ => next.1 == LayerAction::Finish(state.indication.action),
        },
{
}

/// The context of an indication repeats what the platform says of it. Only of a packet that
/// leaves does the running process say anything.
pub open spec fn repeats(
    context: PacketContext,
    layer: PacketLayer,
    status: InjectionStatus,
    process_id: u64,
) -> bool {
    &&& context.ipv6 == layer.ipv6
    &&& context.direction == layer.direction
    &&& context.compartment_id == layer.compartment_id
    &&& context.interface_index == layer.interface_index
    &&& context.sub_interface_index == layer.sub_interface_index
    &&& context.injected_by_other == status.injected_by_other
    &&& context.current_process_id == match layer.direction {
        Direction::Outbound => process_id,
        Direction::Inbound => 0,
    }
}

/// A decision leads the chain on: a packet that waits or is rewritten is cloned, one that was
/// decided leaves its action and hands on to the next, and one that decides for the whole
/// chain, or about which nothing can be said, ends it.
pub open spec fn leads_on(
    layer: PacketLayer,
    packet: usize,
    before: ClassifyAction,
    decision: PacketDecision,
    next: (LayerState, LayerAction),
) -> bool {
    match decision {
        PacketDecision::PermitIndication => next.1 == LayerAction::Finish(ClassifyAction::Permit),
        PacketDecision::Stop => next.1 == LayerAction::Finish(before),
        PacketDecision::Permit => goes_on(layer, packet as int, next, ClassifyAction::Permit),
        PacketDecision::BlockHard => goes_on(layer, packet as int, next, ClassifyAction::BlockHard),
        PacketDecision::Absorb => goes_on(
            layer,
            packet as int,
            next,
            ClassifyAction::BlockAndAbsorb,
        ),
        PacketDecision::Redirect(info, inject) => {
            &&& next.1 == LayerAction::Clone { packet }
            &&& next.0.indication.action == before
            &&& next.0.stage matches LayerStage::CloneRedirected {
                packet: p,
                redirect_info,
                inject_info,
                ..
            } && p == packet && redirect_info == info && inject_info == inject
        },
        PacketDecision::Ask(asked) => {
            &&& next.1 == LayerAction::Clone { packet }
            &&& next.0.indication.action == before
            &&& next.0.stage matches LayerStage::CloneAsked { packet: p, request, .. } && p
                == packet && request == asked
        },
    }
}

/// What this driver injected itself is permitted, and leaves no trace. Every other chain goes
/// on with its first packet, in the context that the platform tells: a packet that was already
/// read is decided at once.
pub proof fn injected_chain_is_permitted<H, C>(
    s: DeviceView<H, C>,
    t: DeviceView<H, C>,
    layer: PacketLayer,
    retreated: bool,
    inspection: Option<PacketInspection>,
    state: LayerState,
    status: InjectionStatus,
    process_id: u64,
    now: u64,
    next: (LayerState, LayerAction),
)
    requires
        state.stage == (LayerStage::Query { retreated, inspection }),
        layer_step(
            s,
            t,
            layer,
            state,
            LayerEvent::InjectionRead { status, current_process_id: process_id },
            now,
            next,
        ),
    ensures
        status.self_injected ==> t == s && next.1 == LayerAction::Finish(ClassifyAction::Permit),
        !status.self_injected && (layer.direction is Inbound && !retreated || inspection is None)
            ==> {
            &&& t == s
            &&& next.0.indication.action is DefaultBlock
            &&& match next.0.stage {
                LayerStage::Retreat { packet, context } => packet == 0 && repeats(
                    context,
                    layer,
                    status,
                    process_id,
                ),
                LayerStage::Inspect { packet, context } => packet == 0 && repeats(
                    context,
                    layer,
                    status,
                    process_id,
                ),
                _ => false,
            }
            &&& layer.direction is Inbound && retreated || looks_at(layer, 0, next.1)
        },
        !status.self_injected && (layer.direction is Outbound || retreated) ==> (inspection matches
            Some(read) ==> exists|context: PacketContext| #[trigger]
            repeats(context, layer, status, process_id) && leads_on(
                layer,
                0,
                ClassifyAction::DefaultBlock,
                s.packet_decision(read, context, now),
                next,
            ) && t == s.packet_seen(read, context, now)),
{
    let context = layer.context(status, process_id);
    assert(repeats(context, layer, status, process_id));
}

/// Every packet of a chain is looked at in turn and decided by itself. The chain ends early
/// only where a header cannot be reached, with the action that it had.
pub proof fn each_packet_is_decided<H, C>(
    s: DeviceView<H, C>,
    t: DeviceView<H, C>,
    layer: PacketLayer,
    state: LayerState,
    event: LayerEvent<H>,
    now: u64,
    next: (LayerState, LayerAction),
)
    requires
        layer_step(s, t, layer, state, event, now, next),
        !state.indication.finished,
    ensures
        match (state.stage, event) {
            (LayerStage::Retreat { packet, .. }, LayerEvent::Retreated(reached)) => {
                &&& t == s
                &&& next.0.indication.action == state.indication.action
                &&& next.1 == if reached {
                    LayerAction::Inspect { packet }
                } else {
                    LayerAction::Finish(state.indication.action)
                }
            },
            (LayerStage::Inspect { packet, context }, LayerEvent::Inspected(read)) => {
                &&& t == s.packet_seen(read, context, now)
                &&& leads_on(
                    layer,
                    packet,
                    state.indication.action,
                    s.packet_decision(read, context, now),
                    next,
                )
            },
            _ => true,
        },
{
}

/// A packet that cannot be cloned is not let through: where it should have waited, the chain
/// ends with the action that it had; where it should have been redirected, it is absorbed.
/// Only the log tells of it.
pub proof fn missing_clone_is_not_permitted<H, C>(
    s: DeviceView<H, C>,
    t: DeviceView<H, C>,
    layer: PacketLayer,
    state: LayerState,
    error: String,
    now: u64,
    next: (LayerState, LayerAction),
)
    requires
        layer_step(s, t, layer, state, LayerEvent::Cloned(Err(error)), now, next),
        !state.indication.finished,
    ensures
        t == (DeviceView { log: t.log, ..s }),
        state.stage is CloneAsked ==> next.1 == LayerAction::Finish(state.indication.action),
        state.stage matches LayerStage::CloneRedirected { packet, .. } ==> goes_on(
            layer,
            packet as int,
            next,
            ClassifyAction::BlockAndAbsorb,
        ),
{
}

/// The chain goes on behind a clone. The packet itself is absorbed: its clone returns in its
/// place, or waits.
pub proof fn cloned_packet_is_absorbed<H, C>(
    s: DeviceView<H, C>,
    t: DeviceView<H, C>,
    layer: PacketLayer,
    state: LayerState,
    event: LayerEvent<H>,
    now: u64,
    next: (LayerState, LayerAction),
)
    requires
        layer_step(s, t, layer, state, event, now, next),
        event is Cloned,
        !state.indication.finished,
    ensures
        state.stage matches LayerStage::CloneRedirected { packet, .. } ==> goes_on(
            layer,
            packet as int,
            next,
            ClassifyAction::BlockAndAbsorb,
        ),
        state.stage matches LayerStage::CloneAsked { packet, .. } ==> goes_on(
            layer,
            packet as int,
            next,
            ClassifyAction::BlockAndAbsorb,
        ) || next.1 == LayerAction::Finish(state.indication.action),
        state.stage is CloneAsked && t.queue != s.queue ==> !(next.0.indication.action is Permit),
{
    if let LayerStage::CloneAsked { packet, context, request } = state.stage {
        if let LayerEvent::Cloned(Ok(clones)) = event {
            if t.queue != s.queue {
                assert(next.0.indication.action is BlockAndAbsorb);
            }
        }
    }
}

/// An indication carries a packet that can return later: it is no outbound TCP packet of a
/// connection that is just being made, and no inbound packet that is seen while the outbound
/// side is authorized again.
pub open spec fn carries_packet(data: AleLayerData, headers: AleHeaders) -> bool {
    &&& headers.has_packet
    &&& data.reauthorize || !(data.protocol is Tcp) || data.packet_direction is Inbound
    &&& !data.reauthorize || data.direction is Inbound || data.packet_direction is Outbound
}

/// The headers of an inbound packet as the platform reports them can be right.
pub open spec fn plausible(data: AleLayerData, ip: u32, transport: u32) -> bool {
    let least: int = if data.is_ipv6 {
        40
    } else {
        20
    };
    let minimum: int = if data.protocol is Tcp {
        20
    } else if data.protocol is Udp {
        8
    } else {
        0
    };
    least <= ip && minimum <= transport && ip + transport < 0x1_0000_0000
}

/// The indication is absorbed, and only the log tells why.
pub open spec fn gives_up<H, C>(
    s: DeviceView<H, C>,
    t: DeviceView<H, C>,
    next: (AleStage, AleAction),
) -> bool {
    &&& next.1 == AleAction::Finish { action: ClassifyAction::BlockAndAbsorb, protect: false }
    &&& t == (DeviceView { log: t.log, ..s })
}

/// The indication is held. The first one of a TCP or UDP connection is pended as an operation;
/// all others only keep the remaining filters waiting.
pub open spec fn holds(
    data: AleLayerData,
    instance_id: Option<u64>,
    pend: bool,
    next: (AleStage, AleAction),
) -> bool {
    &&& next.0 == AleStage::Hold { instance_id }
    &&& next.1 matches AleAction::Hold(hold) && (hold is PendOperation <==> pend
        && (data.protocol is Tcp || data.protocol is Udp))
}

/// An authorization that waits is captured and held. An outbound packet is cloned where it
/// stands. An inbound one is cloned from its IP header on, and what user space sees of it
/// starts behind that header. An inbound connection without a packet cannot be pended.
pub proof fn waiting_authorization_is_captured<H, C>(
    s: DeviceView<H, C>,
    data: AleLayerData,
    headers: AleHeaders,
    injection: InjectionStatus,
    now: u64,
)
    ensures
        ({
            let seen = s.ale_seen(data, injection, now);
            let (next, t) = s.ale_begun(data, headers, injection, now);
            match s.ale_decision(data, injection) {
                AleDecision::Act { action, protect } => {
                    &&& next.1 == AleAction::Finish { action, protect }
                    &&& t == seen
                },
                AleDecision::Save { instance_id } => {
                    let pend = instance_id is None && !data.reauthorize;
                    if !carries_packet(data, headers) {
                        if pend && data.direction is Inbound {
                            gives_up(seen, t, next)
                        } else {
                            holds(data, instance_id, pend, next) && t == seen
                        }
                    } else if data.direction is Outbound {
                        &&& next.1 == AleAction::Capture { retreat: 0, event_data_offset: 0 }
                        &&& next.0 == AleStage::Capture { instance_id, pend }
                        &&& t == seen
                    } else {
                        match (headers.ip_header_size, headers.transport_header_size) {
                            (Some(ip), Some(transport)) => if plausible(data, ip, transport) {
                                &&& next.1 matches AleAction::Capture {
                                    retreat,
                                    event_data_offset,
                                } && retreat == ip + transport && event_data_offset == ip
                                &&& next.0 == AleStage::Capture { instance_id, pend }
                                &&& t == seen
                            } else {
                                gives_up(seen, t, next)
                            },
                            _ => gives_up(seen, t, next),
                        }
                    }
                },
            }
        }),
{
}

/// An authorization goes on as the platform answers: what was cloned is held, what is held is
/// saved, or completed as blocked where no ID is left to ask for it, and what could not be
/// cloned or held is absorbed, and only the log tells of it.
pub proof fn captured_authorization_is_held<H, C>(
    s: DeviceView<H, C>,
    data: AleLayerData,
    stage: AleStage,
    event: AleEvent<H>,
    now: u64,
)
    ensures
        ({
            let (next, t) = s.ale_stepped(data, stage, event, now);
            match (stage, event) {
                (AleStage::Capture { instance_id, pend }, AleEvent::Captured) => {
                    holds(data, instance_id, pend, next) && t == s
                },
                (AleStage::Hold { instance_id }, AleEvent::Held(Ok(defer))) => {
                    let packet = Packet::AleLayer(defer);
                    &&& next.1 == AleAction::Finish {
                        action: ClassifyAction::BlockAndAbsorb,
                        protect: false,
                    }
                    &&& s.next_request < u64::MAX && defer.data@.len() <= 0xffff_ffc4 && (
                    data.local_ip is Ipv6 <==> data.remote_ip is Ipv6) ==> t == s.ale_saved(
                        data,
                        instance_id,
                        packet,
                        now,
                    )
                    &&& s.next_request == u64::MAX ==> completes(
                        t,
                        s.actions.len() as int,
                        packet@,
                        true,
                        false,
                    ) && t.queue == s.queue
                },
                _ => gives_up(s, t, next),
            }
        }),
{
    if let AleEvent::Held(Ok(defer)) = event {
        let packet = Packet::AleLayer(defer);
        assert(packet_parts(packet) == seq![packet]);
        if s.next_request < u64::MAX && defer.data@.len() <= 0xffff_ffc4 && (data.local_ip is Ipv6
            <==> data.remote_ip is Ipv6) {
            small_packet_can_be_asked_about(s, data.spec_as_key(), packet);
        }
    }
}

} // verus!
