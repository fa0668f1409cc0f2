//! What shutdown leaves of everything that waits, and what a closing endpoint waits for.

use crate::connection::{Direction, Verdict};
use crate::device_requests::with_awaited_range;
use crate::device_state::{ActionView, ClosureView, DeviceView};
use crate::id_cache::{packet_parts, PendingPacket, Request};
use crate::key::Key;
use crate::lifecycle_laws::{
    belongs_to, lemma_ended_keeps_missing, lemma_other_end_keeps, nothing_closes,
};
use crate::ordered::{lemma_integer_keys, ordered_keys, ordered_keys_list_the_set};
use crate::record_laws::part_count;
use crate::state_laws::{
    ending_removes_the_live_connection, knows, misses, verdict_reaches_its_connection, Known,
};
use crate::verdict_laws::{completes, lemma_nothing_closes};
use vstd::prelude::*;

verus! {

/// A packet that waits when the driver stops is completed as blocked, and its connection is
/// blocked for good. Other connections keep their verdicts.
pub proof fn stopped_request_is_blocked<H, C>(
    s: DeviceView<H, C>,
    request: Request<H>,
    known: Known,
    now: u64,
    other: Key,
    other_known: Known,
)
    requires
        nothing_closes(s),
        knows(s, request.value.key, known),
        known.instance_id != 0,
        request.value.connection_instance_id == Some(known.instance_id),
    ensures
        ({
            let t = s.request_resolved(request, now);
            &&& knows(
                t,
                request.value.key,
                Known { verdict: Verdict::PermanentBlock, ..known },
            )
            &&& knows(s, other, other_known) && other != request.value.key ==> knows(
                t,
                other,
                other_known,
            )
            &&& completes(t, s.actions.len() as int, request.value.packet@, true, false)
            &&& t.actions.len() == s.actions.len() + 1
            &&& t.events == s.events && t.log == s.log
        }),
{
    let key = request.value.key;
    verdict_reaches_its_connection(
        s,
        key,
        known,
        Verdict::PermanentBlock,
        now,
        other,
        other_known,
    );
    let decided = s.decided(key, known.instance_id, Verdict::PermanentBlock, now);
    let injected = decided.with_action(
        ActionView::Inject { packet: request.value.packet@, blocked: true, reset_first: false },
    );
    lemma_nothing_closes(injected, request.id, now);
}

/// A packet without a connection that waits when the driver stops is completed as blocked, and
/// nothing else changes.
pub proof fn stopped_stateless_request_is_blocked<H, C>(
    s: DeviceView<H, C>,
    request: Request<H>,
    now: u64,
)
    requires
        nothing_closes(s),
        request.value.connection_instance_id is None,
    ensures
        ({
            let t = s.request_resolved(request, now);
            &&& completes(t, s.actions.len() as int, request.value.packet@, true, false)
            &&& t == (DeviceView { actions: t.actions, in_progress: t.in_progress, ..s })
            &&& t.actions.len() == s.actions.len() + 1
        }),
{
    let injected = s.with_action(
        ActionView::Inject { packet: request.value.packet@, blocked: true, reset_first: false },
    );
    lemma_nothing_closes(injected, request.id, now);
}

/// The classification is completed by an action behind the first `n`.
pub open spec fn completes_classify<H, C>(s: DeviceView<H, C>, n: int, classify: C) -> bool {
    exists|place: int|
        n <= place < s.actions.len() && #[trigger] s.actions[place]
            == ActionView::<H, C>::CompleteClassify(classify)
}

proof fn lemma_drained_missing<H, C>(
    s: DeviceView<H, C>,
    closures: Seq<ClosureView<C>>,
    now: u64,
    key: Key,
)
    requires
        misses(s, key),
    ensures
        misses(s.closures_drained(closures, now), key),
    decreases closures.len(),
{
    if closures.len() > 0 {
        let c = closures[0];
        let e = s.ended(c.endpoint.key, c.endpoint.instance_id, c.process_id, now);
        lemma_ended_keeps_missing(
            s,
            key,
            c.endpoint.key,
            c.endpoint.instance_id,
            c.process_id,
            now,
        );
        lemma_drained_missing(
            e.with_action(ActionView::CompleteClassify(c.classify)),
            closures.drop_first(),
            now,
            key,
        );
    }
}

proof fn lemma_drained_actions<H, C>(s: DeviceView<H, C>, closures: Seq<ClosureView<C>>, now: u64)
    ensures
        ({
            let t = s.closures_drained(closures, now);
            &&& t.actions == s.actions + closures.map_values(
                |c: ClosureView<C>| ActionView::<H, C>::CompleteClassify(c.classify),
            )
            &&& t.closures == s.closures
        }),
    decreases closures.len(),
{
    let done = |c: ClosureView<C>| ActionView::<H, C>::CompleteClassify(c.classify);
    if closures.len() > 0 {
        let c = closures[0];
        let e = s.ended(c.endpoint.key, c.endpoint.instance_id, c.process_id, now);
        let next = e.with_action(ActionView::CompleteClassify(c.classify));
        lemma_drained_actions(next, closures.drop_first(), now);
        assert(next.actions + closures.drop_first().map_values(done) =~= s.actions
            + closures.map_values(done));
    } else {
        assert(s.actions + closures.map_values(done) =~= s.actions);
    }
}

proof fn lemma_drained_ends<H, C>(
    s: DeviceView<H, C>,
    closures: Seq<ClosureView<C>>,
    now: u64,
    n: int,
    known: Known,
)
    requires
        0 <= n < closures.len(),
        knows(s, closures[n].endpoint.key, known),
        known.instance_id == closures[n].endpoint.instance_id,
        known.instance_id != 0,
    ensures
        misses(s.closures_drained(closures, now), closures[n].endpoint.key),
    decreases closures.len(),
{
    let c = closures[0];
    let key = closures[n].endpoint.key;
    let e = s.ended(c.endpoint.key, c.endpoint.instance_id, c.process_id, now);
    let next = e.with_action(ActionView::CompleteClassify(c.classify));
    let rest = closures.drop_first();
    if c.endpoint.key == key && c.endpoint.instance_id == known.instance_id {
        ending_removes_the_live_connection(s, key, known, c.process_id, now, key, known);
        assert(misses(next, key));
        lemma_drained_missing(next, rest, now, key);
    } else {
        lemma_other_end_keeps(
            s,
            c.endpoint.key,
            c.endpoint.instance_id,
            c.process_id,
            now,
            key,
            known,
        );
        assert(knows(next, key, known));
        assert(rest[n - 1] == closures[n]);
        lemma_drained_ends(next, rest, now, n - 1, known);
    }
}

/// Every endpoint that still waits when the driver stops is completed: its connection ends,
/// and its classification is handed back once.
pub proof fn stopped_closures_are_completed<H, C>(
    s: DeviceView<H, C>,
    generation: u64,
    known: Known,
    now: u64,
)
    requires
        s.closures.dom().finite(),
        s.closures.contains_key(generation),
    ensures
        ({
            let t = s.all_closures_drained(now);
            let c = s.closures[generation];
            &&& nothing_closes(t)
            &&& completes_classify(t, s.actions.len() as int, c.classify)
            &&& t.actions.len() == s.actions.len() + s.closures.dom().len()
            &&& known.instance_id != 0 && known.instance_id == c.endpoint.instance_id && knows(
                s,
                c.endpoint.key,
                known,
            ) ==> misses(t, c.endpoint.key)
        }),
{
    lemma_integer_keys();
    let ids = ordered_keys(s.closures.dom());
    ordered_keys_list_the_set(s.closures.dom());
    let list = ids.map_values(|id: u64| s.closures[id]);
    let start = DeviceView { closures: Map::<u64, ClosureView<C>>::empty(), ..s };
    lemma_drained_actions(start, list, now);
    assert(ids.to_set().contains(generation));
    let n = choose|n: int| 0 <= n < ids.len() && ids[n] == generation;
    let t = s.all_closures_drained(now);
    assert(list[n] == s.closures[generation]);
    assert(t.actions[s.actions.len() + n] == ActionView::<H, C>::CompleteClassify(
        s.closures[generation].classify,
    ));
    if known.instance_id != 0 && known.instance_id == list[n].endpoint.instance_id && knows(
        s,
        list[n].endpoint.key,
        known,
    ) {
        assert(knows(start, list[n].endpoint.key, known));
        lemma_drained_ends(start, list, now, n, known);
    }
}

/// Shutdown asks the driver to stop before anything else.
pub proof fn shutdown_stops_the_driver_first<H, C>(s: DeviceView<H, C>, now: u64)
    requires
        nothing_closes(s),
        s.queue.len() == 0,
    ensures
        ({
            let t = s.shut_down(now);
            &&& t.actions == s.actions.push(ActionView::<H, C>::Stop)
            &&& t.flows_closing
            &&& t.connections_v4 == s.connections_v4 && t.connections_v6 == s.connections_v6
            &&& t.events == s.events && t.log == s.log && t.flows == s.flows
        }),
{
    lemma_integer_keys();
    let ids = ordered_keys(s.closures.dom());
    ordered_keys_list_the_set(s.closures.dom());
    let list = ids.map_values(|id: u64| s.closures[id]);
    assert(list =~= Seq::<ClosureView<C>>::empty());
    assert(s.queue =~= Seq::<Request<H>>::empty());
}

proof fn lemma_awaited_range<C>(
    closures: Map<u64, ClosureView<C>>,
    first: u64,
    count: nat,
    key: Key,
    instance_id: Option<u64>,
    generation: u64,
)
    requires
        closures.contains_key(generation),
        first + count <= u64::MAX,
    ensures
        ({
            let t = with_awaited_range(closures, first, count, key, instance_id);
            let c = closures[generation];
            &&& t.dom() == closures.dom()
            &&& t[generation].endpoint == c.endpoint
            &&& t[generation].classify == c.classify
            &&& t[generation].process_id == c.process_id
            &&& forall|id: u64| #[trigger]
                t[generation].waits_for.contains(id) <==> c.waits_for.contains(id) || (belongs_to(
                    c.endpoint,
                    key,
                    instance_id,
                ) && first <= id < first + count)
        }),
    decreases count,
{
    if count > 0 {
        lemma_awaited_range(closures, first, (count - 1) as nat, key, instance_id, generation);
        let before = with_awaited_range(closures, first, (count - 1) as nat, key, instance_id);
        let t = with_awaited_range(closures, first, count, key, instance_id);
        assert(t.dom() =~= before.dom());
        assert(before.contains_key(generation));
    }
}

/// An endpoint that closes also waits for the packets of its flow that are asked about later,
/// and for no others.
pub proof fn closing_endpoint_waits_for_later_packets<H, C>(
    s: DeviceView<H, C>,
    pending: PendingPacket<H>,
    process_id: u64,
    direction: Direction,
    ale_layer: bool,
    generation: u64,
    id: u64,
)
    requires
        s.closures.contains_key(generation),
        s.next_request + part_count(pending.packet) <= u64::MAX,
        pending.key.local_address is Ipv6 <==> pending.key.remote_address is Ipv6,
    ensures
        ({
            let t = s.asked(pending, process_id, direction, ale_layer);
            let c = s.closures[generation];
            let asked = s.next_request <= id < s.next_request + part_count(pending.packet);
            &&& t.closures.contains_key(generation)
            &&& t.closures[generation].waits_for.contains(id) <==> c.waits_for.contains(id) || (
            asked && belongs_to(c.endpoint, pending.key, pending.connection_instance_id))
        }),
{
    let count = packet_parts(pending.packet).len();
    assert(count == part_count(pending.packet));
    lemma_awaited_range(
        s.closures,
        s.next_request,
        count,
        pending.key,
        pending.connection_instance_id,
        generation,
    );
}

} // verus!
