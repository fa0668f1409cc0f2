//! How the contexts that the network stack holds for UDP flows come back.

use crate::device_flows::RemoveContextResult;
use crate::device_state::{ActionView, DeviceView};
use crate::ordered::{lemma_integer_keys, ordered_keys, ordered_keys_list_the_set};
use crate::udp_flow_cache::{removables, Registrations, UdpFlowRegistration};
use vstd::prelude::*;

verus! {

/// The network stack holds the context and was not asked for it.
pub open spec fn is_held(flows: Registrations, context: u64) -> bool {
    flows.contains_key(context) && flows[context].associated
        && !flows[context].removal_requested
}

/// The context is asked back by the action at `place`.
pub open spec fn asks_back<H, C>(s: DeviceView<H, C>, place: int, context: u64) -> bool {
    s.actions[place] matches ActionView::RemoveFlowContext(r) && r.flow_context == context
        && r.removal_requested
}

/// Exactly the contexts that are held are listed.
pub proof fn lemma_removables_held(contexts: Seq<u64>, flows: Registrations)
    requires
        forall|i: int| 0 <= i < contexts.len() ==> flows.contains_key(#[trigger] contexts[i]),
        forall|c: u64| #[trigger] flows.contains_key(c) ==> flows[c].flow_context == c,
    ensures
        forall|j: int|
            0 <= j < removables(contexts, flows).len() ==> is_held(
                flows,
                (#[trigger] removables(contexts, flows)[j]).flow_context,
            ),
        forall|c: u64|
            contexts.contains(c) && is_held(flows, c) ==> exists|j: int|
                0 <= j < removables(contexts, flows).len() && (#[trigger] removables(
                    contexts,
                    flows,
                )[j]).flow_context == c,
    decreases contexts.len(),
{
    if contexts.len() > 0 {
        let shorter = contexts.drop_last();
        lemma_removables_held(shorter, flows);
        let rest = removables(shorter, flows);
        let all = removables(contexts, flows);
        assert(flows.contains_key(contexts.last()));
        assert forall|c: u64| contexts.contains(c) && is_held(flows, c) implies exists|j: int|
            0 <= j < all.len() && (#[trigger] all[j]).flow_context == c by {
            if c == contexts.last() {
                assert(all[all.len() - 1].flow_context == c);
            } else {
                let i = choose|i: int| 0 <= i < contexts.len() && contexts[i] == c;
                assert(shorter[i] == c);
                assert(shorter.contains(c));
                let j = choose|j: int| 0 <= j < rest.len() && (#[trigger] rest[j]).flow_context
                    == c;
                assert(all[j] == rest[j]);
            }
        }
    }
}

/// Every context that the network stack holds is asked back once: those that it holds, and no
/// others, are asked for, and are then marked. Nothing is forgotten.
pub proof fn held_contexts_are_asked_back<H, C>(s: DeviceView<H, C>, context: u64)
    requires
        s.flows.dom().finite(),
        forall|c: u64| #[trigger] s.flows.contains_key(c) ==> s.flows[c].flow_context == c,
    ensures
        ({
            let t = s.flows_requested();
            let n = s.actions.len() as int;
            &&& t.flows.dom() == s.flows.dom()
            &&& is_held(s.flows, context) ==> exists|place: int|
                n <= place < t.actions.len() && #[trigger] asks_back(t, place, context)
            &&& forall|place: int|
                n <= place < t.actions.len() ==> (#[trigger] t.actions[place] matches
                    ActionView::RemoveFlowContext(r) && is_held(s.flows, r.flow_context))
            &&& t.actions.take(n) == s.actions
            &&& s.flows.contains_key(context) ==> t.flows[context] == (UdpFlowRegistration {
                removal_requested: s.flows[context].removal_requested || is_held(s.flows, context),
                ..s.flows[context]
            })
            &&& !is_held(t.flows, context)
            &&& t == (DeviceView { flows: t.flows, actions: t.actions, ..s })
        }),
{
    lemma_integer_keys();
    let contexts = ordered_keys(s.flows.dom());
    ordered_keys_list_the_set(s.flows.dom());
    assert forall|i: int| 0 <= i < contexts.len() implies s.flows.contains_key(
        #[trigger] contexts[i],
    ) by {
        assert(contexts.to_set().contains(contexts[i]));
    }
    lemma_removables_held(contexts, s.flows);
    let list = removables(contexts, s.flows);
    let t = s.flows_requested();
    let n = s.actions.len() as int;
    assert(t.actions.take(n) =~= s.actions);
    assert forall|place: int| n <= place < t.actions.len() implies (#[trigger] t.actions[place]
        matches ActionView::RemoveFlowContext(r) && is_held(s.flows, r.flow_context)) by {
        assert(is_held(s.flows, list[place - n].flow_context));
    }
    if is_held(s.flows, context) {
        assert(contexts.to_set().contains(context));
        let j = choose|j: int| 0 <= j < list.len() && (#[trigger] list[j]).flow_context == context;
        assert(asks_back(t, n + j, context));
    }
}

/// The answer to such a request: a context that is gone is forgotten, one that the stack
/// refuses can be asked for again, and one that comes back through its callback is left to it.
/// A stale answer, for another generation at the same address, changes no context.
pub proof fn returned_context_is_forgotten<H, C>(
    s: DeviceView<H, C>,
    registration: UdpFlowRegistration,
    result: RemoveContextResult,
    other: u64,
)
    requires
        registration.flow_context != 0,
        registration.connection_instance_id != 0,
    ensures
        ({
            let t = s.flow_context_answered(registration, result);
            let context = registration.flow_context;
            let current = s.flows.contains_key(context)
                && s.flows[context].connection_instance_id == registration.connection_instance_id;
            &&& result is Removed || result is Pending ==> t == s
            &&& !current ==> t.flows == s.flows
            &&& current && result is AlreadyGone ==> !t.flows.contains_key(context)
            &&& current && result is Failed ==> t.flows.contains_key(context) && t.flows[context]
                == (UdpFlowRegistration { removal_requested: false, ..s.flows[context] })
            &&& other != context ==> t.flows.contains_key(other) == s.flows.contains_key(other)
                && t.flows[other] == s.flows[other]
            &&& t == (DeviceView { flows: t.flows, log: t.log, ..s })
            &&& !(result is Failed) ==> t.log == s.log
        }),
{
}

} // verus!
