//! One indication at an ALE authorization layer, step by step.
//!
//! An indication that has to wait is cloned where it carries a packet, then held, and saved
//! until user space has decided. What only the platform can do is asked for one thing at a
//! time.

use crate::ale_callouts::{
    ale_capture, ale_hold, captures, header_failure, is_authorized_protocol, AleCapture,
    AleDecision, AleHold, AleLayerData,
};
use crate::ale_policy::InjectionStatus;
use crate::device::Device;
use crate::device_state::{Action, ActionView, DeviceView};
use crate::packet::{ClassifyDefer, Packet};
use crate::packet_callouts::ClassifyAction;
use crate::text::push_text;
use vstd::prelude::*;
use vstd::utf8::encode_utf8;

verus! {

/// What the platform reports of the packet of an indication.
#[derive(Clone, Copy, Debug, PartialEq, Eq, Structural)]
pub struct AleHeaders {
    pub has_packet: bool,
    pub ip_header_size: Option<u32>,
    pub transport_header_size: Option<u32>,
}

/// What is asked for next.
#[derive(Clone, Copy, Debug, PartialEq, Eq, Structural)]
pub enum AleAction {
    /// Move the start of the packet back and clone it. The bytes reported to user space
    /// start at an offset of the clone.
    Capture { retreat: u32, event_data_offset: u32 },
    /// Hold the indication, with the clone if there is one.
    Hold(AleHold),
    /// Leave the indication with an action. Where `protect` is set, later filters must not
    /// override it.
    Finish { action: ClassifyAction, protect: bool },
}

/// An answer to what was asked for.
pub enum AleEvent<H> {
    Captured,
    RetreatFailed(String),
    CloneFailed(String),
    Held(Result<ClassifyDefer<H>, String>),
}

/// Where the authorization of an indication stands.
#[derive(Clone, Copy, Debug, PartialEq, Eq, Structural)]
pub enum AleStage {
    /// The packet is being cloned. Only an indication that may be pended can be.
    Capture { instance_id: Option<u64>, pend: bool },
    /// The indication is being held.
    Hold { instance_id: Option<u64> },
    Done,
}

/// The indication is absorbed.
pub open spec fn absorbed() -> (AleStage, AleAction) {
    (
        AleStage::Done,
        AleAction::Finish { action: ClassifyAction::BlockAndAbsorb, protect: false },
    )
}

fn absorb() -> (next: (AleStage, AleAction))
    ensures
        next == absorbed(),
{
    (
        AleStage::Done,
        AleAction::Finish { action: ClassifyAction::BlockAndAbsorb, protect: false },
    )
}

/// How an indication is held.
pub open spec fn hold_of(data: AleLayerData, pend: bool) -> AleHold {
    if pend && is_authorized_protocol(data.protocol) {
        AleHold::PendOperation
    } else {
        AleHold::PendFilterRest
    }
}

impl<H, C> DeviceView<H, C> {
    /// A packet could not be saved.
    pub open spec fn with_pend_failure(self, cause: Seq<u8>) -> Self {
        self.with_error(encode_utf8("failed to pend packet: "@) + cause)
    }

    /// The step after it is clear whether there is a clone, and what it leaves of the
    /// device. A receive/accept indication without packet data cannot be completed later.
    pub open spec fn hold_step(
        self,
        data: AleLayerData,
        instance_id: Option<u64>,
        pend: bool,
        captured: bool,
    ) -> ((AleStage, AleAction), Self) {
        if pend && data.direction is Inbound && !captured {
            (
                absorbed(),
                self.with_pend_failure(
                    encode_utf8("ALE receive/accept indication has no packet data"@),
                ),
            )
        } else {
            ((AleStage::Hold { instance_id }, AleAction::Hold(hold_of(data, pend))), self)
        }
    }

    /// The step that begins to save a packet, and what it leaves of the device.
    pub open spec fn capture_step(
        self,
        data: AleLayerData,
        headers: AleHeaders,
        instance_id: Option<u64>,
        pend: bool,
    ) -> ((AleStage, AleAction), Self) {
        let stage = AleStage::Capture { instance_id, pend };
        if !captures(data, headers.has_packet) {
            self.hold_step(data, instance_id, pend, false)
        } else if data.direction is Outbound {
            ((stage, AleAction::Capture { retreat: 0, event_data_offset: 0 }), self)
        } else {
            match header_failure(data, headers.ip_header_size, headers.transport_header_size) {
                Some(error) => (absorbed(), self.with_pend_failure(error)),
                None => (
                    (
                        stage,
                        AleAction::Capture {
                            retreat: (headers.ip_header_size->Some_0
                                + headers.transport_header_size->Some_0) as u32,
                            event_data_offset: headers.ip_header_size->Some_0,
                        },
                    ),
                    self,
                ),
            }
        }
    }

    /// The first step of an indication, and what it leaves of the device. Only the first
    /// packet of a connection can be pended.
    pub open spec fn ale_begun(
        self,
        data: AleLayerData,
        headers: AleHeaders,
        injection: InjectionStatus,
        now: u64,
    ) -> ((AleStage, AleAction), Self) {
        let s = self.ale_seen(data, injection, now);
        match self.ale_decision(data, injection) {
            AleDecision::Act { action, protect } => (
                (AleStage::Done, AleAction::Finish { action, protect }),
                s,
            ),
            AleDecision::Save { instance_id } => s.capture_step(
                data,
                headers,
                instance_id,
                instance_id is None && !data.reauthorize,
            ),
        }
    }

    /// A held indication waits for a decision, unless it cannot be reported: then it is
    /// completed as blocked.
    pub open spec fn ale_held(
        self,
        data: AleLayerData,
        instance_id: Option<u64>,
        packet: Packet<H>,
        now: u64,
    ) -> Self {
        if self.can_ask(data.spec_as_key(), packet) {
            self.ale_saved(data, instance_id, packet, now)
        } else {
            self.with_pend_failure(encode_utf8("packet cannot be reported"@)).with_action(
                ActionView::Inject { packet: packet@, blocked: true, reset_first: false },
            )
        }
    }

    /// The step that an answer leads to, and what it leaves of the device. An answer to
    /// something else absorbs the indication.
    pub open spec fn ale_stepped(
        self,
        data: AleLayerData,
        stage: AleStage,
        event: AleEvent<H>,
        now: u64,
    ) -> ((AleStage, AleAction), Self) {
        match (stage, event) {
            (AleStage::Capture { instance_id, pend }, AleEvent::Captured) => self.hold_step(
                data,
                instance_id,
                pend,
                true,
            ),
            (AleStage::Capture { .. }, AleEvent::RetreatFailed(error)) => (
                absorbed(),
                self.with_pend_failure(
                    encode_utf8("failed to retreat ALE packet: "@) + encode_utf8(error@),
                ),
            ),
            (AleStage::Capture { .. }, AleEvent::CloneFailed(error)) => (
                absorbed(),
                self.with_pend_failure(
                    encode_utf8("failed to clone ALE packet: "@) + encode_utf8(error@),
                ),
            ),
            (AleStage::Hold { instance_id }, AleEvent::Held(Ok(defer))) => (
                absorbed(),
                self.ale_held(data, instance_id, Packet::AleLayer(defer), now),
            ),
            (AleStage::Hold { .. }, AleEvent::Held(Err(error))) => (
                absorbed(),
                self.with_pend_failure(
                    encode_utf8("failed to defer connection: "@) + encode_utf8(error@),
                ),
            ),
            _ => (absorbed(), self),
        }
    }
}

impl<H, C> Device<H, C> {
    fn record_pend_failure(&mut self, text: &str, cause: &str)
        requires
            old(self).wf(),
        ensures
            final(self).wf(),
            final(self)@ == old(self)@.with_pend_failure(encode_utf8(text@) + encode_utf8(cause@)),
    {
        let mut line: Vec<u8> = Vec::new();
        push_text(&mut line, "failed to pend packet: ");
        push_text(&mut line, text);
        push_text(&mut line, cause);
        assert(line@ =~= encode_utf8("failed to pend packet: "@) + (encode_utf8(text@)
            + encode_utf8(cause@)));
        self.record_error(line.as_slice());
    }

    fn record_pend_error(&mut self, cause: &[u8])
        requires
            old(self).wf(),
        ensures
            final(self).wf(),
            final(self)@ == old(self)@.with_pend_failure(cause@),
    {
        let mut line: Vec<u8> = Vec::new();
        push_text(&mut line, "failed to pend packet: ");
        line.extend_from_slice(cause);
        assert(line@ =~= encode_utf8("failed to pend packet: "@) + cause@);
        self.record_error(line.as_slice());
    }

    fn hold(
        &mut self,
        data: &AleLayerData,
        instance_id: Option<u64>,
        pend: bool,
        captured: bool,
    ) -> (next: (AleStage, AleAction))
        requires
            old(self).wf(),
        ensures
            final(self).wf(),
            (next, final(self)@) == old(self)@.hold_step(*data, instance_id, pend, captured),
    {
        match ale_hold(data, pend, captured) {
            Ok(hold) => (AleStage::Hold { instance_id }, AleAction::Hold(hold)),
            Err(error) => {
                let mut cause: Vec<u8> = Vec::new();
                push_text(&mut cause, error.message());
                assert(cause@ =~= encode_utf8(
                    "ALE receive/accept indication has no packet data"@,
                ));
                self.record_pend_error(cause.as_slice());
                absorb()
            },
        }
    }

    fn begin_saving(
        &mut self,
        data: &AleLayerData,
        headers: &AleHeaders,
        instance_id: Option<u64>,
        pend: bool,
    ) -> (next: (AleStage, AleAction))
        requires
            old(self).wf(),
        ensures
            final(self).wf(),
            (next, final(self)@) == old(self)@.capture_step(*data, *headers, instance_id, pend),
    {
        let capture: Result<AleCapture, Vec<u8>> = ale_capture(
            data,
            headers.has_packet,
            headers.ip_header_size,
            headers.transport_header_size,
        );
        let stage = AleStage::Capture { instance_id, pend };
        match capture {
            Ok(AleCapture::Nothing) => self.hold(data, instance_id, pend, false),
            Ok(AleCapture::InPlace) => (
                stage,
                AleAction::Capture { retreat: 0, event_data_offset: 0 },
            ),
            Ok(AleCapture::Retreat { header_size, event_data_offset }) => (
                stage,
                AleAction::Capture { retreat: header_size, event_data_offset },
            ),
            Err(error) => {
                self.record_pend_error(error.as_slice());
                absorb()
            },
        }
    }

    /// Begins the authorization of an indication.
    pub fn begin_ale(
        &mut self,
        data: &AleLayerData,
        headers: &AleHeaders,
        injection: InjectionStatus,
        now: u64,
    ) -> (next: (AleStage, AleAction))
        requires
            old(self).wf(),
        ensures
            final(self).wf(),
            (next, final(self)@) == old(self)@.ale_begun(*data, *headers, injection, now),
    {
        match self.authorize(data, injection, now) {
            AleDecision::Act { action, protect } => (
                AleStage::Done,
                AleAction::Finish { action, protect },
            ),
            AleDecision::Save { instance_id } => self.begin_saving(
                data,
                headers,
                instance_id,
                instance_id.is_none() && !data.reauthorize,
            ),
        }
    }

    fn keep_held(
        &mut self,
        data: &AleLayerData,
        instance_id: Option<u64>,
        packet: Packet<H>,
        now: u64,
    )
        requires
            old(self).wf(),
        ensures
            final(self).wf(),
            final(self)@ == old(self)@.ale_held(*data, instance_id, packet, now),
    {
        if self.can_publish(&data.as_key(), &packet) {
            self.save(data, instance_id, packet, now);
        } else {
            let mut cause: Vec<u8> = Vec::new();
            push_text(&mut cause, "packet cannot be reported");
            assert(cause@ =~= encode_utf8("packet cannot be reported"@));
            self.record_pend_error(cause.as_slice());
            self.push_action(Action::Inject { packet, blocked: true, reset_first: false });
        }
    }

    /// Goes on with an answer: returns where the authorization stands then, and what is
    /// asked for next.
    pub fn ale_step(
        &mut self,
        data: &AleLayerData,
        stage: AleStage,
        event: AleEvent<H>,
        now: u64,
    ) -> (next: (AleStage, AleAction))
        requires
            old(self).wf(),
        ensures
            final(self).wf(),
            (next, final(self)@) == old(self)@.ale_stepped(*data, stage, event, now),
    {
        match (stage, event) {
            (AleStage::Capture { instance_id, pend }, AleEvent::Captured) => self.hold(
                data,
                instance_id,
                pend,
                true,
            ),
            (AleStage::Capture { .. }, AleEvent::RetreatFailed(error)) => {
                self.record_pend_failure("failed to retreat ALE packet: ", error.as_str());
                absorb()
            },
            (AleStage::Capture { .. }, AleEvent::CloneFailed(error)) => {
                self.record_pend_failure("failed to clone ALE packet: ", error.as_str());
                absorb()
            },
            (AleStage::Hold { instance_id }, AleEvent::Held(Ok(defer))) => {
                self.keep_held(data, instance_id, Packet::AleLayer(defer), now);
                absorb()
            },
            (AleStage::Hold { .. }, AleEvent::Held(Err(error))) => {
                self.record_pend_failure("failed to defer connection: ", error.as_str());
                absorb()
            },
            _ => absorb(),
        }
    }
}

/// An indication that was not decided at once is absorbed, whatever the platform answers.
/// At most two answers are asked for.
pub proof fn saved_indication_is_absorbed<H, C>(
    s: DeviceView<H, C>,
    data: AleLayerData,
    headers: AleHeaders,
    injection: InjectionStatus,
    first: AleEvent<H>,
    second: AleEvent<H>,
    now: u64,
)
    requires
        s.ale_decision(data, injection) is Save,
    ensures
        ({
            let (begun, t) = s.ale_begun(data, headers, injection, now);
            let (next, u) = t.ale_stepped(data, begun.0, first, now);
            let (last, _) = u.ale_stepped(data, next.0, second, now);
            &&& begun.1 is Finish ==> begun == absorbed()
            &&& next.1 is Finish ==> next == absorbed()
            &&& last == absorbed()
        }),
{
}

} // verus!
