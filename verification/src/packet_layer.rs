//! One indication at an IP packet layer, step by step.
//!
//! What has to be read from the indicated chain, and what has to be cloned, is asked for
//! one thing at a time. Each answer leads to the next step, and at the end the whole
//! indication is left with one action.

use crate::ale_policy::InjectionStatus;
use crate::connection::{Direction, RedirectInfo};
use crate::device::Device;
use crate::device_state::DeviceView;
use crate::packet::{InjectInfo, Packet};
use crate::packet_callouts::{
    base_header_len, clone_packet, clone_packet_failure, ip_header_retreat, packet_of_clones,
    ClassifyAction, CloneChecksum, FirstPacket, Indication, NetBufferListClones, PacketContext,
    PacketDecision, PacketRequest, unconditional, MAX_IP_HEADER_RETREAT,
};
use crate::packet_metadata::PacketInspection;
use vstd::prelude::*;

verus! {

/// What is fixed for one indication.
#[derive(Clone, Copy, Debug, PartialEq, Eq, Structural)]
pub struct PacketLayer {
    pub ipv6: bool,
    pub direction: Direction,
    /// The size that the platform reports for the IP header.
    pub ip_header_size: Option<u32>,
    pub compartment_id: Option<u32>,
    pub interface_index: u32,
    pub sub_interface_index: u32,
    /// The datagram was put together from fragments.
    pub reassembled: bool,
    /// Number of packets in the chain.
    pub packet_count: usize,
    /// There is a device to decide. Without one only fragments get through.
    pub has_device: bool,
}

/// What is asked for next.
#[derive(Clone, Copy, Debug, PartialEq, Eq, Structural)]
pub enum LayerAction {
    /// Move the start of a packet back to its IP header.
    Retreat { packet: usize, size: u32 },
    /// Read the headers of a packet.
    Inspect { packet: usize },
    /// Tell who injected the chain.
    QueryInjection,
    /// Clone a packet.
    Clone { packet: usize },
    /// Leave the indication with this action.
    Finish(ClassifyAction),
}

/// An answer to what was asked for.
pub enum LayerEvent<H> {
    /// The IP header of the packet was reached, or was not.
    Retreated(bool),
    Inspected(PacketInspection),
    /// Who injected the chain, and the process on whose thread the callout runs.
    InjectionRead { status: InjectionStatus, current_process_id: u64 },
    Cloned(Result<NetBufferListClones<H>, String>),
}

/// Where the classification stands.
#[derive(Clone, Copy, Debug, PartialEq, Eq)]
pub enum LayerStage {
    /// The header of the first packet is being reached.
    ProbeRetreat,
    /// The first packet is being read.
    ProbeInspect { retreated: bool },
    /// The injection state is being read.
    Query { retreated: bool, inspection: Option<PacketInspection> },
    /// The header of a packet is being reached.
    Retreat { packet: usize, context: PacketContext },
    /// A packet is being read.
    Inspect { packet: usize, context: PacketContext },
    /// A packet that waits for a decision is being cloned.
    CloneAsked { packet: usize, context: PacketContext, request: PacketRequest },
    /// A packet that is redirected is being cloned.
    CloneRedirected {
        packet: usize,
        context: PacketContext,
        redirect_info: RedirectInfo,
        inject_info: InjectInfo,
    },
    Done,
}

/// The state of one classification.
#[derive(Clone, Copy, Debug, PartialEq, Eq)]
pub struct LayerState {
    pub stage: LayerStage,
    pub indication: Indication,
}

/// How far a packet is moved back.
pub open spec fn retreat_size(layer: PacketLayer) -> u32 {
    match layer.ip_header_size {
        Some(reported) => if base_header_len(layer.ipv6) <= reported <= MAX_IP_HEADER_RETREAT {
            reported
        } else {
            base_header_len(layer.ipv6)
        },
        None => base_header_len(layer.ipv6),
    }
}

/// The classification ends with the action that it has.
pub open spec fn ended_with(indication: Indication) -> (LayerState, LayerAction) {
    (
        LayerState { stage: LayerStage::Done, indication },
        LayerAction::Finish(indication.action),
    )
}

fn end_with(indication: Indication) -> (next: (LayerState, LayerAction))
    ensures
        next == ended_with(indication),
{
    (
        LayerState { stage: LayerStage::Done, indication },
        LayerAction::Finish(indication.action),
    )
}

impl PacketLayer {
    /// The first step. Only a chain that was not reassembled is probed for fragments.
    pub open spec fn spec_begin(self) -> (LayerState, LayerAction) {
        let indication = Indication::spec_new();
        if self.packet_count == 0 {
            ended_with(indication)
        } else if self.reassembled {
            self.querying(false, None)
        } else if self.direction is Inbound {
            (
                LayerState { stage: LayerStage::ProbeRetreat, indication },
                LayerAction::Retreat { packet: 0, size: retreat_size(self) },
            )
        } else {
            (
                LayerState { stage: LayerStage::ProbeInspect { retreated: false }, indication },
                LayerAction::Inspect { packet: 0 },
            )
        }
    }

    /// The injection state is asked for, if there is a device to decide.
    pub open spec fn querying(
        self,
        retreated: bool,
        inspection: Option<PacketInspection>,
    ) -> (LayerState, LayerAction) {
        if self.has_device {
            (
                LayerState {
                    stage: LayerStage::Query { retreated, inspection },
                    indication: Indication::spec_new(),
                },
                LayerAction::QueryInjection,
            )
        } else {
            ended_with(Indication::spec_new())
        }
    }

    fn query(&self, retreated: bool, inspection: Option<PacketInspection>) -> (next: (
        LayerState,
        LayerAction,
    ))
        ensures
            next == self.querying(retreated, inspection),
    {
        let indication = Indication { action: ClassifyAction::DefaultBlock, finished: false };
        if !self.has_device {
            return end_with(indication);
        }
        (
            LayerState { stage: LayerStage::Query { retreated, inspection }, indication },
            LayerAction::QueryInjection,
        )
    }

    /// Begins the classification of an indication.
    pub fn begin(&self) -> (next: (LayerState, LayerAction))
        ensures
            next == self.spec_begin(),
    {
        let indication = Indication { action: ClassifyAction::DefaultBlock, finished: false };
        if self.packet_count == 0 {
            end_with(indication)
        } else if self.reassembled {
            self.query(false, None)
        } else if self.direction == Direction::Inbound {
            (
                LayerState { stage: LayerStage::ProbeRetreat, indication },
                LayerAction::Retreat {
                    packet: 0,
                    size: ip_header_retreat(self.ipv6, self.ip_header_size),
                },
            )
        } else {
            (
                LayerState { stage: LayerStage::ProbeInspect { retreated: false }, indication },
                LayerAction::Inspect { packet: 0 },
            )
        }
    }

    /// The step after the header of the first packet was reached, or was not. A chain whose
    /// header could not be reached still gets its injection state read.
    pub open spec fn spec_probe_retreated(self, reached: bool) -> (LayerState, LayerAction) {
        if reached {
            (
                LayerState {
                    stage: LayerStage::ProbeInspect { retreated: true },
                    indication: Indication::spec_new(),
                },
                LayerAction::Inspect { packet: 0 },
            )
        } else {
            self.querying(false, None)
        }
    }

    /// Goes on after the header of the first packet was reached, or was not.
    fn probe_retreated(&self, reached: bool) -> (next: (LayerState, LayerAction))
        ensures
            next == self.spec_probe_retreated(reached),
    {
        if reached {
            (
                LayerState {
                    stage: LayerStage::ProbeInspect { retreated: true },
                    indication: Indication {
                        action: ClassifyAction::DefaultBlock,
                        finished: false,
                    },
                },
                LayerAction::Inspect { packet: 0 },
            )
        } else {
            self.query(false, None)
        }
    }

    /// The step after the first packet was read.
    pub open spec fn spec_probe_inspected(
        self,
        retreated: bool,
        inspection: PacketInspection,
    ) -> (LayerState, LayerAction) {
        let first = Indication::spec_after_first(Some(inspection));
        if first.indication.finished && (inspection.is_fragment || self.has_device) {
            ended_with(first.indication)
        } else {
            self.querying(retreated, first.inspection)
        }
    }

    /// Goes on after the first packet was read.
    fn probe_inspected(&self, retreated: bool, inspection: PacketInspection) -> (next: (
        LayerState,
        LayerAction,
    ))
        ensures
            next == self.spec_probe_inspected(retreated, inspection),
    {
        let first: FirstPacket = Indication::after_first(Some(inspection));
        if first.indication.finished && (inspection.is_fragment || self.has_device) {
            end_with(first.indication)
        } else {
            self.query(retreated, first.inspection)
        }
    }

    /// What holds for the whole indication.
    pub open spec fn context(
        self,
        injection: InjectionStatus,
        current_process_id: u64,
    ) -> PacketContext {
        PacketContext {
            ipv6: self.ipv6,
            direction: self.direction,
            compartment_id: self.compartment_id,
            interface_index: self.interface_index,
            sub_interface_index: self.sub_interface_index,
            injected_by_other: injection.injected_by_other,
            current_process_id: if self.direction is Outbound {
                current_process_id
            } else {
                0
            },
        }
    }

    /// A packet is read next. Inbound packets start behind their IP header.
    pub open spec fn reading(
        self,
        packet: usize,
        indication: Indication,
        context: PacketContext,
    ) -> (LayerState, LayerAction) {
        if self.direction is Inbound {
            (
                LayerState { stage: LayerStage::Retreat { packet, context }, indication },
                LayerAction::Retreat { packet, size: retreat_size(self) },
            )
        } else {
            self.inspecting(packet, indication, context)
        }
    }

    /// The headers of a packet are read next.
    pub open spec fn inspecting(
        self,
        packet: usize,
        indication: Indication,
        context: PacketContext,
    ) -> (LayerState, LayerAction) {
        (
            LayerState { stage: LayerStage::Inspect { packet, context }, indication },
            LayerAction::Inspect { packet },
        )
    }

    /// A packet is done: the next one is read, unless the classification ended with it.
    pub open spec fn advanced(
        self,
        packet: usize,
        indication: Indication,
        context: PacketContext,
    ) -> (LayerState, LayerAction) {
        if indication.finished || packet + 1 >= self.packet_count {
            ended_with(indication)
        } else {
            self.reading((packet + 1) as usize, indication, context)
        }
    }

    fn read(&self, packet: usize, indication: Indication, context: PacketContext) -> (next: (
        LayerState,
        LayerAction,
    ))
        ensures
            next == self.reading(packet, indication, context),
    {
        if self.direction == Direction::Inbound {
            (
                LayerState { stage: LayerStage::Retreat { packet, context }, indication },
                LayerAction::Retreat {
                    packet,
                    size: ip_header_retreat(self.ipv6, self.ip_header_size),
                },
            )
        } else {
            (
                LayerState { stage: LayerStage::Inspect { packet, context }, indication },
                LayerAction::Inspect { packet },
            )
        }
    }

    fn advance(&self, packet: usize, indication: Indication, context: PacketContext) -> (next: (
        LayerState,
        LayerAction,
    ))
        ensures
            next == self.advanced(packet, indication, context),
    {
        if indication.finished || packet >= self.packet_count || packet + 1 >= self.packet_count {
            end_with(indication)
        } else {
            self.read(packet + 1, indication, context)
        }
    }

    /// The step after the header of a packet was reached, or was not.
    pub open spec fn spec_retreated(
        self,
        packet: usize,
        indication: Indication,
        context: PacketContext,
        reached: bool,
    ) -> (LayerState, LayerAction) {
        if reached {
            self.inspecting(packet, indication, context)
        } else {
            ended_with(indication)
        }
    }

    /// Goes on after the header of a packet was reached, or was not.
    fn retreated(
        &self,
        packet: usize,
        indication: Indication,
        context: PacketContext,
        reached: bool,
    ) -> (next: (LayerState, LayerAction))
        ensures
            next == self.spec_retreated(packet, indication, context, reached),
    {
        if reached {
            (
                LayerState { stage: LayerStage::Inspect { packet, context }, indication },
                LayerAction::Inspect { packet },
            )
        } else {
            end_with(indication)
        }
    }

    /// The step after a packet was decided.
    pub open spec fn decided(
        self,
        packet: usize,
        indication: Indication,
        context: PacketContext,
        decision: PacketDecision,
    ) -> (LayerState, LayerAction) {
        match decision {
            PacketDecision::Ask(request) => (
                LayerState {
                    stage: LayerStage::CloneAsked { packet, context, request },
                    indication,
                },
                LayerAction::Clone { packet },
            ),
            PacketDecision::Redirect(redirect_info, inject_info) => (
                LayerState {
                    stage: LayerStage::CloneRedirected {
                        packet,
                        context,
                        redirect_info,
                        inject_info,
                    },
                    indication,
                },
                LayerAction::Clone { packet },
            ),
            other => self.advanced(packet, indication.spec_after_packet(other, false), context),
        }
    }

    fn decide(
        &self,
        packet: usize,
        indication: Indication,
        context: PacketContext,
        decision: PacketDecision,
    ) -> (next: (LayerState, LayerAction))
        ensures
            next == self.decided(packet, indication, context, decision),
    {
        match decision {
            PacketDecision::Ask(request) => (
                LayerState {
                    stage: LayerStage::CloneAsked { packet, context, request },
                    indication,
                },
                LayerAction::Clone { packet },
            ),
            PacketDecision::Redirect(redirect_info, inject_info) => (
                LayerState {
                    stage: LayerStage::CloneRedirected {
                        packet,
                        context,
                        redirect_info,
                        inject_info,
                    },
                    indication,
                },
                LayerAction::Clone { packet },
            ),
            other => self.advance(packet, indication.after_packet(&other, false), context),
        }
    }
}

impl PacketLayer {
    /// The step that an answer leads to as long as the device is not needed. An answer to
    /// something else ends the classification with the action that it has.
    pub open spec fn spec_probe_step<H>(self, state: LayerState, event: LayerEvent<H>) -> (
        LayerState,
        LayerAction,
    ) {
        match (state.stage, event) {
            (
                LayerStage::ProbeRetreat,
                LayerEvent::Retreated(reached),
            ) => self.spec_probe_retreated(reached),
            (
                LayerStage::ProbeInspect { retreated },
                LayerEvent::Inspected(inspection),
            ) => self.spec_probe_inspected(retreated, inspection),
            _ => ended_with(state.indication),
        }
    }

    /// Goes on with an answer for which the device is not needed.
    pub fn probe_step<H>(&self, state: LayerState, event: &LayerEvent<H>) -> (next: (
        LayerState,
        LayerAction,
    ))
        ensures
            next == self.spec_probe_step(state, *event),
    {
        match (state.stage, event) {
            (LayerStage::ProbeRetreat, LayerEvent::Retreated(reached)) => self.probe_retreated(
                *reached,
            ),
            (
                LayerStage::ProbeInspect { retreated },
                LayerEvent::Inspected(inspection),
            ) => self.probe_inspected(retreated, *inspection),
            _ => end_with(state.indication),
        }
    }
}

/// The step after the injection state was read, and what it leaves of the device.
pub open spec fn injection_step<H, C>(
    s: DeviceView<H, C>,
    layer: PacketLayer,
    retreated: bool,
    inspection: Option<PacketInspection>,
    injection: InjectionStatus,
    current_process_id: u64,
    now: u64,
) -> ((LayerState, LayerAction), DeviceView<H, C>) {
    let context = layer.context(injection, current_process_id);
    let indication = Indication::spec_new();
    if injection.self_injected {
        (ended_with(Indication::spec_permitted()), s)
    } else if layer.direction is Inbound && !retreated {
        (layer.reading(0, indication, context), s)
    } else {
        match inspection {
            Some(inspection) => inspection_step(
                s,
                layer,
                0,
                indication,
                context,
                inspection,
                now,
            ),
            None => (layer.inspecting(0, indication, context), s),
        }
    }
}

/// The step after a packet was read, and what it leaves of the device.
pub open spec fn inspection_step<H, C>(
    s: DeviceView<H, C>,
    layer: PacketLayer,
    packet: usize,
    indication: Indication,
    context: PacketContext,
    inspection: PacketInspection,
    now: u64,
) -> ((LayerState, LayerAction), DeviceView<H, C>) {
    (
        layer.decided(
            packet,
            indication,
            context,
            s.packet_decision(inspection, context, now),
        ),
        s.packet_seen(inspection, context, now),
    )
}

/// What a packet that waits leaves of the device: it is asked about, unless it cannot be
/// reported.
pub open spec fn clone_asked<H, C>(
    s: DeviceView<H, C>,
    request: PacketRequest,
    packet: Packet<H>,
) -> DeviceView<H, C> {
    if s.can_ask(request.key, packet) {
        s.packet_asked(request, packet)
    } else {
        s.with_failure("failed to clone packet: "@, "packet cannot be reported"@)
    }
}

/// `next` and `t` are what follows when the clones of a packet that waits are there, or are
/// not.
pub open spec fn asked_clone_step<H, C>(
    s: DeviceView<H, C>,
    t: DeviceView<H, C>,
    layer: PacketLayer,
    packet: usize,
    indication: Indication,
    context: PacketContext,
    request: PacketRequest,
    clones: Result<NetBufferListClones<H>, String>,
    next: (LayerState, LayerAction),
) -> bool {
    let asked = PacketDecision::Ask(request);
    let failed = layer.advanced(packet, indication.spec_after_packet(asked, false), context);
    let checksum = CloneChecksum::Recalculate;
    match clones {
        Err(error) => next == failed && t == s.with_failure(
            "failed to clone packet: "@,
            error@,
        ),
        Ok(clones) => match clone_packet_failure(clones, request.inject_info.ipv6, checksum) {
            Some(error) => next == failed && t == s.with_failure(
                "failed to clone packet: "@,
                error,
            ),
            None => exists|clone: Packet<H>| #[trigger]
                is_packet_of(clone, clones, request.inject_info, checksum) && t == clone_asked(
                    s,
                    request,
                    clone,
                ) && next == layer.advanced(
                    packet,
                    indication.spec_after_packet(asked, s.can_ask(request.key, clone)),
                    context,
                ),
        },
    }
}

/// The packet is made of its clones.
pub open spec fn is_packet_of<H>(
    packet: Packet<H>,
    clones: NetBufferListClones<H>,
    inject_info: InjectInfo,
    checksum: CloneChecksum,
) -> bool {
    packet@ == packet_of_clones(clones, inject_info, checksum)
}

/// What the clones of a redirected packet, or their absence, leave of the device.
pub open spec fn redirected_clone<H, C>(
    s: DeviceView<H, C>,
    redirect_info: RedirectInfo,
    inject_info: InjectInfo,
    clones: Result<NetBufferListClones<H>, String>,
) -> DeviceView<H, C> {
    match clones {
        Err(error) => s.with_failure("failed to clone packet: "@, error@),
        Ok(clones) => s.clone_redirected(
            packet_of_clones(clones, inject_info, CloneChecksum::RedirectWillRecalculate),
            redirect_info,
        ),
    }
}

/// `next` and `t` are what an answer leads to.
pub open spec fn layer_step<H, C>(
    s: DeviceView<H, C>,
    t: DeviceView<H, C>,
    layer: PacketLayer,
    state: LayerState,
    event: LayerEvent<H>,
    now: u64,
    next: (LayerState, LayerAction),
) -> bool {
    let indication = state.indication;
    match (state.stage, event) {
        (
            LayerStage::Query { retreated, inspection },
            LayerEvent::InjectionRead { status, current_process_id },
        ) => (next, t) == injection_step(
            s,
            layer,
            retreated,
            inspection,
            status,
            current_process_id,
            now,
        ),
        (LayerStage::Retreat { packet, context }, LayerEvent::Retreated(reached)) => {
            &&& t == s
            &&& next == layer.spec_retreated(packet, indication, context, reached)
        },
        (LayerStage::Inspect { packet, context }, LayerEvent::Inspected(inspection)) => (next, t)
            == inspection_step(s, layer, packet, indication, context, inspection, now),
        (
            LayerStage::CloneAsked { packet, context, request },
            LayerEvent::Cloned(clones),
        ) => asked_clone_step(s, t, layer, packet, indication, context, request, clones, next),
        (
            LayerStage::CloneRedirected { packet, context, redirect_info, inject_info },
            LayerEvent::Cloned(clones),
        ) => {
            &&& t == redirected_clone(s, redirect_info, inject_info, clones)
            &&& next == layer.advanced(
                packet,
                Indication { action: ClassifyAction::BlockAndAbsorb, ..indication },
                context,
            )
        },
        _ => t == s && next == layer.spec_probe_step(state, event),
    }
}

impl<H, C> Device<H, C> {
    /// Goes on with an answer: returns where the classification stands then, and what is
    /// asked for next.
    pub fn packet_step(
        &mut self,
        layer: &PacketLayer,
        state: LayerState,
        event: LayerEvent<H>,
        now: u64,
    ) -> (next: (LayerState, LayerAction))
        requires
            old(self).wf(),
        ensures
            final(self).wf(),
            layer_step(old(self)@, final(self)@, *layer, state, event, now, next),
    {
        let indication: Indication = state.indication;
        match (state.stage, event) {
            (
                LayerStage::Query { retreated, inspection },
                LayerEvent::InjectionRead { status, current_process_id },
            ) => self.after_injection_query(
                layer,
                retreated,
                inspection,
                status,
                current_process_id,
                now,
            ),
            (
                LayerStage::Retreat { packet, context },
                LayerEvent::Retreated(reached),
            ) => layer.retreated(packet, indication, context, reached),
            (
                LayerStage::Inspect { packet, context },
                LayerEvent::Inspected(inspection),
            ) => self.after_inspection(layer, packet, indication, context, &inspection, now),
            (
                LayerStage::CloneAsked { packet, context, request },
                LayerEvent::Cloned(clones),
            ) => self.after_asked_clone(layer, packet, indication, context, request, clones),
            (
                LayerStage::CloneRedirected { packet, context, redirect_info, inject_info },
                LayerEvent::Cloned(clones),
            ) => self.after_redirected_clone(
                layer,
                packet,
                indication,
                context,
                redirect_info,
                inject_info,
                clones,
            ),
            (_, event) => layer.probe_step(state, &event),
        }
    }

    /// Goes on after the injection state of a chain was read.
    fn after_injection_query(
        &mut self,
        layer: &PacketLayer,
        retreated: bool,
        inspection: Option<PacketInspection>,
        injection: InjectionStatus,
        current_process_id: u64,
        now: u64,
    ) -> (next: (LayerState, LayerAction))
        requires
            old(self).wf(),
        ensures
            final(self).wf(),
            (next, final(self)@) == injection_step(
                old(self)@,
                *layer,
                retreated,
                inspection,
                injection,
                current_process_id,
                now,
            ),
    {
        let open = Indication { action: ClassifyAction::DefaultBlock, finished: false };
        let indication = open.after_injection_query(injection);
        if indication.finished {
            return end_with(indication);
        }
        let context = PacketContext {
            ipv6: layer.ipv6,
            direction: layer.direction,
            compartment_id: layer.compartment_id,
            interface_index: layer.interface_index,
            sub_interface_index: layer.sub_interface_index,
            injected_by_other: injection.is_injected_by_other(),
            current_process_id: if layer.direction == Direction::Outbound {
                current_process_id
            } else {
                0
            },
        };
        if layer.direction == Direction::Inbound && !retreated {
            return layer.read(0, indication, context);
        }
        match inspection {
            Some(inspection) => self.after_inspection(
                layer,
                0,
                indication,
                context,
                &inspection,
                now,
            ),
            None => (
                LayerState { stage: LayerStage::Inspect { packet: 0, context }, indication },
                LayerAction::Inspect { packet: 0 },
            ),
        }
    }

    /// Goes on after a packet was read.
    fn after_inspection(
        &mut self,
        layer: &PacketLayer,
        packet: usize,
        indication: Indication,
        context: PacketContext,
        inspection: &PacketInspection,
        now: u64,
    ) -> (next: (LayerState, LayerAction))
        requires
            old(self).wf(),
        ensures
            final(self).wf(),
            (next, final(self)@) == inspection_step(
                old(self)@,
                *layer,
                packet,
                indication,
                context,
                *inspection,
                now,
            ),
    {
        let decision: PacketDecision = self.classify_packet(inspection, &context, now);
        layer.decide(packet, indication, context, decision)
    }

    /// Goes on after a packet that waits for a decision was cloned, or could not be.
    fn after_asked_clone(
        &mut self,
        layer: &PacketLayer,
        packet: usize,
        indication: Indication,
        context: PacketContext,
        request: PacketRequest,
        clones: Result<NetBufferListClones<H>, String>,
    ) -> (next: (LayerState, LayerAction))
        requires
            old(self).wf(),
        ensures
            final(self).wf(),
            asked_clone_step(
                old(self)@,
                final(self)@,
                *layer,
                packet,
                indication,
                context,
                request,
                clones,
                next,
            ),
    {
        let ghost given = clones;
        let checksum = CloneChecksum::Recalculate;
        let made: Result<Packet<H>, String> = match clones {
            Ok(clones) => clone_packet(clones, request.inject_info, checksum),
            Err(error) => Err(error),
        };
        let cloned: bool = match made {
            Ok(clone) => {
                assert(is_packet_of(clone, given->Ok_0, request.inject_info, checksum));
                if self.can_publish(&request.key, &clone) {
                    self.ask(request, clone);
                    true
                } else {
                    self.record_failure("failed to clone packet: ", "packet cannot be reported");
                    false
                }
            },
            Err(error) => {
                self.record_failure("failed to clone packet: ", error.as_str());
                false
            },
        };
        let asked = PacketDecision::Ask(request);
        layer.advance(packet, indication.after_packet(&asked, cloned), context)
    }

    /// Goes on after a packet that is redirected was cloned, or could not be. The packet
    /// itself is absorbed in any case.
    fn after_redirected_clone(
        &mut self,
        layer: &PacketLayer,
        packet: usize,
        indication: Indication,
        context: PacketContext,
        redirect_info: RedirectInfo,
        inject_info: InjectInfo,
        clones: Result<NetBufferListClones<H>, String>,
    ) -> (next: (LayerState, LayerAction))
        requires
            old(self).wf(),
        ensures
            final(self).wf(),
            final(self)@ == redirected_clone(old(self)@, redirect_info, inject_info, clones),
            next == layer.advanced(
                packet,
                (Indication { action: ClassifyAction::BlockAndAbsorb, ..indication }),
                context,
            ),
    {
        match clones {
            Ok(clones) => {
                let made = clone_packet(
                    clones,
                    inject_info,
                    CloneChecksum::RedirectWillRecalculate,
                );
                if let Ok(clone) = made {
                    self.redirect_clone(clone, redirect_info);
                }
            },
            Err(error) => {
                self.record_failure("failed to clone packet: ", error.as_str());
            },
        }
        let decision = PacketDecision::Redirect(redirect_info, inject_info);
        layer.advance(packet, indication.after_packet(&decision, true), context)
    }
}

/// How many more answers a classification can ask for at most.
pub open spec fn answers_left(layer: PacketLayer, state: LayerState) -> int {
    match state.stage {
        LayerStage::ProbeRetreat => 3 * layer.packet_count + 3,
        LayerStage::ProbeInspect { .. } => 3 * layer.packet_count + 2,
        LayerStage::Query { .. } => 3 * layer.packet_count + 1,
        LayerStage::Retreat { packet, .. } => 3 * (layer.packet_count - packet),
        LayerStage::Inspect { packet, .. } => 3 * (layer.packet_count - packet) - 1,
        LayerStage::CloneAsked { packet, .. } => 3 * (layer.packet_count - packet) - 2,
        LayerStage::CloneRedirected { packet, .. } => 3 * (layer.packet_count - packet) - 2,
        LayerStage::Done => 0,
    }
}

/// A stage that looks at a packet of the chain.
pub open spec fn in_chain(layer: PacketLayer, state: LayerState) -> bool {
    match state.stage {
        LayerStage::ProbeRetreat | LayerStage::ProbeInspect { .. } => layer.packet_count > 0,
        LayerStage::Query { .. } => layer.packet_count > 0,
        LayerStage::Retreat { packet, .. } => packet < layer.packet_count,
        LayerStage::Inspect { packet, .. } => packet < layer.packet_count,
        LayerStage::CloneAsked { packet, .. } => packet < layer.packet_count,
        LayerStage::CloneRedirected { packet, .. } => packet < layer.packet_count,
        LayerStage::Done => true,
    }
}

/// Every classification ends: it begins within its chain, every answer leaves it there, and
/// every answer brings it closer to its end. At most three answers are asked for each packet,
/// and three more.
pub proof fn classification_ends<H, C>(
    s: DeviceView<H, C>,
    t: DeviceView<H, C>,
    layer: PacketLayer,
    state: LayerState,
    event: LayerEvent<H>,
    now: u64,
    next: (LayerState, LayerAction),
)
    requires
        in_chain(layer, state),
        layer_step(s, t, layer, state, event, now, next),
    ensures
        in_chain(layer, layer.spec_begin().0),
        answers_left(layer, layer.spec_begin().0) <= 3 * layer.packet_count + 3,
        in_chain(layer, next.0),
        answers_left(layer, next.0) >= 0,
        state.stage is Done || answers_left(layer, next.0) < answers_left(layer, state),
        next.1 is Finish <==> next.0.stage is Done,
{
}

/// An indication is permitted only by a packet that is: if the action was no permit before an
/// answer and is one after it, then the answer was a fragment or a packet that needs no
/// decision, or told of a chain that this driver injected itself, or the policy permitted
/// the packet.
pub proof fn only_a_decision_permits<H, C>(
    s: DeviceView<H, C>,
    t: DeviceView<H, C>,
    layer: PacketLayer,
    state: LayerState,
    event: LayerEvent<H>,
    now: u64,
    next: (LayerState, LayerAction),
)
    requires
        layer_step(s, t, layer, state, event, now, next),
        !(state.indication.action is Permit),
        next.0.indication.action is Permit,
    ensures
        match (state.stage, event) {
            (LayerStage::ProbeInspect { .. }, LayerEvent::Inspected(inspection)) => {
                ||| inspection.is_fragment
                ||| inspection.metadata matches Ok(metadata) && unconditional(metadata)
            },
            (
                LayerStage::Query { inspection, .. },
                LayerEvent::InjectionRead { status, current_process_id },
            ) => {
                ||| status.self_injected
                ||| inspection matches Some(inspection) && permits(
                    s.packet_decision(inspection, layer.context(status, current_process_id), now),
                )
            },
            (LayerStage::Inspect { context, .. }, LayerEvent::Inspected(inspection)) => permits(
                s.packet_decision(inspection, context, now),
            ),
            _ => false,
        },
{
}

/// The decision lets a packet through.
pub open spec fn permits(decision: PacketDecision) -> bool {
    decision is Permit || decision is PermitIndication
}

} // verus!
