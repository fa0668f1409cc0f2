//! Flow contexts that the network stack holds for UDP peers, and policy resets.

use crate::device::Device;
use crate::device_state::{Action, ActionView, DeviceView};
use crate::ordered::ordered_keys;
use crate::text::{contains, decimal, push_decimal, push_text};
use crate::udp_flow_cache::{named, removable, removables, requested, UdpFlowRegistration};
use vstd::prelude::*;
use vstd::utf8::encode_utf8;

verus! {

/// What the network stack answers when a flow context is asked back.
#[derive(Debug, PartialEq, Eq)]
pub enum RemoveContextResult {
    /// The context was returned through the deletion callback.
    Removed,
    /// It will be returned once active classifications end.
    Pending,
    /// There is no association any more, and no callback will come.
    AlreadyGone,
    Failed(String),
}

/// The line that reports a context which the stack refused to return.
pub open spec fn removal_failure(flow_id: u64, error: Seq<char>) -> Seq<u8> {
    encode_utf8("failed to remove UDP flow context "@) + decimal(flow_id as nat) + encode_utf8(": "@)
        + encode_utf8(error)
}

/// The name under which a reset reports that another transaction is open.
pub open spec fn transaction_in_progress(error: Seq<u8>) -> bool {
    exists|i: int|
        0 <= i <= error.len() - encode_utf8("STATUS_FWP_TXN_IN_PROGRESS"@).len()
            && #[trigger] error.subrange(
            i,
            i + encode_utf8("STATUS_FWP_TXN_IN_PROGRESS"@).len(),
        ) == encode_utf8("STATUS_FWP_TXN_IN_PROGRESS"@)
}

impl<H, C> DeviceView<H, C> {
    /// The network stack answered for a context that was asked back.
    pub open spec fn flow_context_answered(
        self,
        registration: UdpFlowRegistration,
        result: RemoveContextResult,
    ) -> Self {
        let context = registration.flow_context;
        let known = named(self.flows, context, registration.connection_instance_id);
        match result {
            RemoveContextResult::Removed | RemoveContextResult::Pending => self,
            RemoveContextResult::AlreadyGone => if known {
                DeviceView { flows: self.flows.remove(context), ..self }
            } else {
                self
            },
            RemoveContextResult::Failed(error) => {
                let s = if known {
                    DeviceView {
                        flows: self.flows.insert(
                            context,
                            UdpFlowRegistration {
                                removal_requested: false,
                                ..self.flows[context]
                            },
                        ),
                        ..self
                    }
                } else {
                    self
                };
                s.with_error(removal_failure(registration.flow_id, error@))
            },
        }
    }

    /// The contexts that the network stack still holds were asked back.
    pub open spec fn flows_requested(self) -> Self {
        DeviceView {
            flows: self.flows.map_values(
                |r: UdpFlowRegistration|
                    if removable(r) {
                        requested(r)
                    } else {
                        r
                    },
            ),
            actions: self.actions + removables(
                ordered_keys(self.flows.dom()),
                self.flows,
            ).map_values(
                |r: UdpFlowRegistration| ActionView::<H, C>::RemoveFlowContext(requested(r)),
            ),
            ..self
        }
    }
}

impl<H, C> Device<H, C> {
    /// Takes the answer for a context that was asked back. Returns whether the context can
    /// be freed at once: without an association its deletion callback never comes.
    pub fn flow_context_answered(
        &mut self,
        registration: UdpFlowRegistration,
        result: RemoveContextResult,
    ) -> (reclaim: bool)
        requires
            old(self).wf(),
        ensures
            final(self).wf(),
            final(self)@ == old(self)@.flow_context_answered(registration, result),
            reclaim == (result is AlreadyGone && named(
                old(self)@.flows,
                registration.flow_context,
                registration.connection_instance_id,
            )),
    {
        let ghost before = self@;
        match result {
            RemoveContextResult::Removed | RemoveContextResult::Pending => false,
            RemoveContextResult::AlreadyGone => {
                let reclaim: bool = self.udp_flow_cache.cancel_registration(
                    registration.flow_context,
                    registration.connection_instance_id,
                );
                assert(self@ =~= before.flow_context_answered(registration, result));
                reclaim
            },
            RemoveContextResult::Failed(error) => {
                self.udp_flow_cache.retry_removal(
                    registration.flow_context,
                    registration.connection_instance_id,
                );
                let mut text: Vec<u8> = Vec::new();
                push_text(&mut text, "failed to remove UDP flow context ");
                push_decimal(&mut text, registration.flow_id);
                push_text(&mut text, ": ");
                push_text(&mut text, error.as_str());
                assert(text@ =~= removal_failure(registration.flow_id, error@));
                let ghost middle = self@;
                self.record_error(text.as_slice());
                assert(self@ =~= before.flow_context_answered(
                    registration,
                    RemoveContextResult::Failed(error),
                ));
                false
            },
        }
    }

    /// Stops new flow-context associations before the remaining asynchronous ALE
    /// operations are completed. Classify admission must already be closed and
    /// drained by the caller.
    pub fn begin_unload(&mut self)
        requires
            old(self).wf(),
        ensures
            final(self).wf(),
            final(self)@ == (DeviceView { flows_closing: true, ..old(self)@ }),
    {
        self.udp_flow_cache.start_shutdown();
        assert(self@ =~= (DeviceView { flows_closing: true, ..old(self)@ }));
    }

    /// Asks for every context that the network stack still holds. Returns whether nothing
    /// is outstanding. Each association is requested once unless the removal itself failed.
    pub fn drain_udp_flow_contexts(&mut self) -> (drained: bool)
        requires
            old(self).wf(),
        ensures
            final(self).wf(),
            drained == (old(self)@.flows.dom().len() == 0 && old(self)@.flow_callbacks == 0),
            final(self)@ == if drained {
                old(self)@
            } else {
                old(self)@.flows_requested()
            },
    {
        let ghost before = self@;
        if self.udp_flow_cache.is_drained() {
            return true;
        }
        let pending: Vec<UdpFlowRegistration> = self.udp_flow_cache.pending_removals();
        let ghost start = self@;
        let ghost asked = |r: UdpFlowRegistration| ActionView::<H, C>::RemoveFlowContext(r);
        let count: usize = pending.len();
        let mut n: usize = 0;
        assert(start =~= (DeviceView {
            actions: start.actions + pending@.take(0).map_values(asked),
            ..start
        }));
        while n < count
            invariant
                n <= count == pending@.len(),
                self.wf(),
                asked == (|r: UdpFlowRegistration| ActionView::<H, C>::RemoveFlowContext(r)),
                self@ == (DeviceView {
                    actions: start.actions + pending@.take(n as int).map_values(asked),
                    ..start
                }),
            decreases count - n,
        {
            let registration: UdpFlowRegistration = pending[n];
            self.push_action(Action::RemoveFlowContext(registration));
            n = n + 1;
            assert(pending@.take(n as int) =~= pending@.take(n - 1).push(registration));
            assert(self@.actions =~= start.actions + pending@.take(n as int).map_values(asked));
            assert(self@ =~= (DeviceView { actions: self@.actions, ..start }));
        }
        proof {
            assert(pending@.take(count as int) =~= pending@);
            assert(self@.actions =~= before.flows_requested().actions);
            assert(self@ =~= before.flows_requested());
        }
        false
    }
}

/// Decides whether resetting the filters succeeded for a deferred ALE verdict.
///
/// Reauthorization is already covered when another worker owns the transaction: the cached
/// verdict is visible to the next classification even when this particular reset loses the
/// race.
pub fn reset_filters_for_defer(result: Result<(), String>) -> (r: Result<(), String>)
    ensures
        match result {
            Ok(()) => r is Ok,
            Err(error) => if transaction_in_progress(encode_utf8(error@)) {
                r is Ok
            } else {
                r == result
            },
        },
{
    match result {
        Ok(()) => Ok(()),
        Err(error) => {
            if contains(error.as_str().as_bytes(), "STATUS_FWP_TXN_IN_PROGRESS".as_bytes()) {
                Ok(())
            } else {
                Err(error)
            }
        },
    }
}

} // verus!
