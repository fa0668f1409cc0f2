//! What closing endpoints and periodic maintenance promise.

use crate::connection::{AddressFamily, Connection};
use crate::connection_laws::cleanup_keeps_live_and_recent;
use crate::connection_map::{
    at, earlier, generations, holds, map_applied, map_sequence, map_wf, retained, MapView, Place,
    Selection,
};
use crate::device_maintenance::{live_udp_instance, overdue_generations, UNESTABLISHED_TIMEOUT_MS};
use crate::device_requests::EndpointClosure;
use crate::device_state::{
    end_event_v4, end_event_v6, ready, ready_in, without_awaited, ActionView, ClosureView,
    DeviceView,
};
use crate::icmp_echo_cache::{expired, EchoRequest};
use crate::id_cache::blocks_closure;
use crate::ip::{Ipv4Address, Ipv6Address};
use crate::key::Key;
use crate::lifecycle_laws::{
    belongs_to, closing_endpoint_waits_for_its_packets, lemma_retired_quietly, nothing_closes,
};
use crate::lists::{lemma_filter_agree, lemma_filter_source, lemma_filter_target};
use crate::ordered::{lemma_integer_keys, ordered_keys, ordered_keys_list_the_set};
use crate::record_laws::{ended_connection_is_reported, reports_end};
use crate::state_laws::{ending_removes_the_live_connection, knows, misses, Known};
use crate::tcp_endpoint_cache::{overdue, without_aliases, TcpEndpointConnection};
use crate::udp_endpoint_cache::{peers_removed, UdpEndpointPeer};
use vstd::prelude::*;

verus! {

/// A packet of the endpoint's flow waits for user space, or has a verdict that is being
/// applied.
pub open spec fn is_waited_for<H, C>(s: DeviceView<H, C>, endpoint: TcpEndpointConnection) -> bool {
    ||| exists|k: int|
        0 <= k < s.queue.len() && belongs_to(
            endpoint,
            (#[trigger] s.queue[k]).value.key,
            s.queue[k].value.connection_instance_id,
        )
    ||| exists|id: u64| #[trigger]
        s.in_progress.contains_key(id) && belongs_to(
            endpoint,
            s.in_progress[id].key,
            s.in_progress[id].connection_instance_id,
        )
}

/// A handle that closes: one that stands for no endpoint changes nothing. That of a TCP
/// endpoint is forgotten; its connection stays as long as packets of it wait, and ends and is
/// reported otherwise.
pub proof fn closed_handle_ends_its_connection<H, C>(
    s: DeviceView<H, C>,
    handle: u64,
    process_id: u64,
    now: u64,
    known: Known,
)
    requires
        !s.sockets.contains_key(handle),
    ensures
        !s.endpoints.contains_key(handle) ==> s.handle_closed(handle, process_id, now) == (
            EndpointClosure::Unknown,
            s,
        ),
        handle != 0 && s.endpoints.contains_key(handle) ==> ({
            let endpoint = s.endpoints[handle].endpoint;
            let (closure, t) = s.handle_closed(handle, process_id, now);
            &&& !t.endpoints.contains_key(handle)
            &&& knows(s, endpoint.key, known) && known.instance_id == endpoint.instance_id
                && known.instance_id != 0 ==> {
                &&& is_waited_for(s, endpoint) ==> closure == EndpointClosure::Wait(endpoint)
                    && knows(t, endpoint.key, known) && t.events == s.events
                &&& !is_waited_for(s, endpoint) ==> closure is Closed && misses(t, endpoint.key)
                    && t.events.len() == s.events.len() + 1 && reports_end(
                    t.events.last(),
                    endpoint.key,
                    known.opened,
                    process_id,
                )
            }
            &&& misses(s, endpoint.key) && endpoint.instance_id != 0 ==> closure is Closed
                && t.events == s.events
        }),
{
    if handle != 0 && s.endpoints.contains_key(handle) {
        let endpoint = s.endpoints[handle].endpoint;
        let t = DeviceView {
            endpoints: without_aliases(s.endpoints, endpoint),
            ..s
        };
        if endpoint.instance_id != 0 {
            closing_endpoint_waits_for_its_packets(t, endpoint, known);
        }
        if knows(s, endpoint.key, known) && known.instance_id == endpoint.instance_id
            && known.instance_id != 0 {
            assert(knows(t, endpoint.key, known));
            ending_removes_the_live_connection(
                t,
                endpoint.key,
                known,
                process_id,
                now,
                endpoint.key,
                known,
            );
            ended_connection_is_reported(t, endpoint.key, known, process_id, now);
        }
    }
}

/// The classification of a closing endpoint is completed at once where nothing is left to
/// wait for, after its connection has ended. Otherwise it is kept until the packets that the
/// endpoint waits for are done.
pub proof fn pended_closure_is_kept_or_completed<H, C>(
    s: DeviceView<H, C>,
    endpoint: TcpEndpointConnection,
    process_id: u64,
    classify: C,
    now: u64,
    known: Known,
)
    requires
        endpoint.instance_id != 0,
        !s.closures.contains_key(endpoint.instance_id),
    ensures
        ({
            let t = s.closure_deferred(endpoint, process_id, classify, now);
            let completed = s.actions.push(ActionView::<H, C>::CompleteClassify(classify));
            &&& misses(s, endpoint.key) ==> t == (DeviceView { actions: completed, ..s })
            &&& knows(s, endpoint.key, known) && known.instance_id == endpoint.instance_id
                && !is_waited_for(s, endpoint) ==> misses(t, endpoint.key) && t.actions
                == completed && t.events.len() == s.events.len() + 1 && reports_end(
                t.events.last(),
                endpoint.key,
                known.opened,
                process_id,
            )
            &&& knows(s, endpoint.key, known) && known.instance_id == endpoint.instance_id
                && is_waited_for(s, endpoint) ==> {
                &&& knows(t, endpoint.key, known)
                &&& t.actions == s.actions && t.events == s.events
                &&& t.closures.contains_key(endpoint.instance_id)
                &&& t.closures[endpoint.instance_id].endpoint == endpoint
                &&& t.closures[endpoint.instance_id].process_id == process_id
                &&& t.closures[endpoint.instance_id].classify == classify
                &&& forall|k: int|
                    0 <= k < s.queue.len() && belongs_to(
                        endpoint,
                        (#[trigger] s.queue[k]).value.key,
                        s.queue[k].value.connection_instance_id,
                    ) ==> t.closures[endpoint.instance_id].waits_for.contains(s.queue[k].id)
            }
        }),
{
    closing_endpoint_waits_for_its_packets(s, endpoint, known);
    let t = s.closure_deferred(endpoint, process_id, classify, now);
    if knows(s, endpoint.key, known) && known.instance_id == endpoint.instance_id {
        ending_removes_the_live_connection(
            s,
            endpoint.key,
            known,
            process_id,
            now,
            endpoint.key,
            known,
        );
        ended_connection_is_reported(s, endpoint.key, known, process_id, now);
        if is_waited_for(s, endpoint) {
            assert forall|k: int|
                0 <= k < s.queue.len() && belongs_to(
                    endpoint,
                    (#[trigger] s.queue[k]).value.key,
                    s.queue[k].value.connection_instance_id,
                ) implies t.closures[endpoint.instance_id].waits_for.contains(s.queue[k].id) by {
                assert(s.queue[k].spec_id() == s.queue[k].id);
                assert(blocks_closure(
                    s.queue[k],
                    endpoint.key,
                    endpoint.instance_id,
                ));
                assert(s.is_awaited(endpoint, s.queue[k].id));
            }
        }
    }
}

/// The endpoint that waits for the last of its packets ends when that packet is done: its
/// connection ends and is reported, and its classification completes. One that waits for more
/// goes on waiting for those.
pub proof fn last_packet_completes_the_closure<H, C>(
    s: DeviceView<H, C>,
    id: u64,
    now: u64,
    closure: ClosureView<C>,
    known: Known,
)
    requires
        s.closures == Map::<u64, ClosureView<C>>::empty().insert(
            closure.endpoint.instance_id,
            closure,
        ),
        closure.endpoint.instance_id != 0,
        knows(s, closure.endpoint.key, known),
        known.instance_id == closure.endpoint.instance_id,
    ensures
        ({
            let t = s.finished(id, now);
            &&& (forall|other: u64| #[trigger]
                closure.waits_for.contains(other) ==> other == id) ==> {
                &&& nothing_closes(t)
                &&& misses(t, closure.endpoint.key)
                &&& t.actions == s.actions.push(
                    ActionView::<H, C>::CompleteClassify(closure.classify),
                )
                &&& t.events.len() == s.events.len() + 1
                &&& reports_end(
                    t.events.last(),
                    closure.endpoint.key,
                    known.opened,
                    closure.process_id,
                )
            }
            &&& forall|other: u64| #[trigger]
                closure.waits_for.contains(other) && other != id ==> {
                    &&& knows(t, closure.endpoint.key, known)
                    &&& t.actions == s.actions && t.events == s.events
                    &&& t.closures.contains_key(closure.endpoint.instance_id)
                    &&& t.closures[closure.endpoint.instance_id].waits_for.contains(other)
                    &&& !t.closures[closure.endpoint.instance_id].waits_for.contains(id)
                }
        }),
{
    let g = closure.endpoint.instance_id;
    let key = closure.endpoint.key;
    let closures = without_awaited(s.closures, id);
    let left = ClosureView { waits_for: closure.waits_for.remove(id), ..closure };
    assert(closures =~= Map::<u64, ClosureView<C>>::empty().insert(g, left));
    lemma_integer_keys();
    let keys = ordered_keys(closures.dom());
    ordered_keys_list_the_set(closures.dom());
    assert(closures.dom() =~= Set::<u64>::empty().insert(g));
    assert(keys.len() == 1);
    assert(keys.to_set().contains(g));
    assert(keys[0] == g);
    let waiting = DeviceView { in_progress: s.in_progress.remove(id), closures, ..s };
    assert(knows(waiting, key, known));
    reveal_with_fuel(ready_in, 2);
    assert(keys.drop_first() =~= Seq::<u64>::empty());
    if forall|other: u64| #[trigger] closure.waits_for.contains(other) ==> other == id {
        assert(left.waits_for =~= Set::<u64>::empty());
        assert(ready(closures) =~= seq![closure.endpoint]);
        ending_removes_the_live_connection(
            waiting,
            key,
            known,
            closure.process_id,
            now,
            key,
            known,
        );
        ended_connection_is_reported(waiting, key, known, closure.process_id, now);
        reveal_with_fuel(DeviceView::completed_all, 2);
        assert(seq![closure.endpoint].drop_first() =~= Seq::<TcpEndpointConnection>::empty());
        let t = s.finished(id, now);
        assert(t.closures =~= Map::<u64, ClosureView<C>>::empty());
    } else {
        let other = choose|other: u64| #[trigger]
            closure.waits_for.contains(other) && other != id;
        assert(left.waits_for.contains(other));
        assert(ready(closures) =~= Seq::<TcpEndpointConnection>::empty());
        reveal_with_fuel(DeviceView::completed_all, 2);
    }
}

/// Cleanup forgets exactly the connections that ended more than a minute ago.
pub proof fn cleanup_forgets_what_ended_long_ago<H, C>(
    s: DeviceView<H, C>,
    now: u64,
    key: Key,
)
    requires
        map_wf(s.connections_v4),
        map_wf(s.connections_v6),
        now >= 60_000,
    ensures
        ({
            let t = s.history_removed(now);
            &&& generations(t.connections_v4, key) == generations(s.connections_v4, key).filter(
                |c: Connection<Ipv4Address>|
                    c.end_time matches Some(time) ==> time + 60_000 >= now,
            )
            &&& generations(t.connections_v6, key) == generations(s.connections_v6, key).filter(
                |c: Connection<Ipv6Address>|
                    c.end_time matches Some(time) ==> time + 60_000 >= now,
            )
            &&& t == (DeviceView {
                connections_v4: t.connections_v4,
                connections_v6: t.connections_v6,
                ..s
            })
        }),
{
    let cutoff = (now - 60_000) as u64;
    cleanup_keeps_live_and_recent(s.connections_v4, key, cutoff);
    cleanup_keeps_live_and_recent(s.connections_v6, key, cutoff);
    let a = generations(s.connections_v4, key);
    let b = generations(s.connections_v6, key);
    lemma_filter_agree(
        a,
        |c: Connection<Ipv4Address>| retained(c, cutoff),
        |c: Connection<Ipv4Address>| c.end_time matches Some(time) ==> time + 60_000 >= now,
    );
    lemma_filter_agree(
        b,
        |c: Connection<Ipv6Address>| retained(c, cutoff),
        |c: Connection<Ipv6Address>| c.end_time matches Some(time) ==> time + 60_000 >= now,
    );
}

/// A connection whose end nothing reports, and which has sent or received nothing for more
/// than a minute.
pub open spec fn is_idle<A: AddressFamily>(c: Connection<A>, now: u64) -> bool {
    &&& c.end_time is None
    &&& !c.native_lifecycle
    &&& c.direction is Outbound
    &&& c.last_accessed_time + 60_000 < now
}

proof fn lemma_idle_applied<A: AddressFamily>(m: MapView<A>, p: Place<A>, now: u64)
    requires
        holds(m, p),
        now >= 60_000,
    ensures
        ({
            let n = map_applied(m, Selection::Idle { cutoff: (now - 60_000) as u64 }, now);
            &&& holds(n, p)
            &&& at(n, p) == if is_idle(at(m, p), now) {
                Connection { end_time: Some(now), ..at(m, p) }
            } else {
                at(m, p)
            }
        }),
{
}

/// Maintenance ends exactly the idle connections whose end nothing else would report.
pub proof fn idle_connections_end<H, C>(s: DeviceView<H, C>, now: u64)
    requires
        nothing_closes(s),
        now >= 60_000,
    ensures
        ({
            let t = s.idle_ended(now);
            &&& forall|p: Place<Ipv4Address>| #[trigger]
                holds(s.connections_v4, p) ==> holds(t.connections_v4, p) && at(
                    t.connections_v4,
                    p,
                ) == if is_idle(at(s.connections_v4, p), now) {
                    Connection { end_time: Some(now), ..at(s.connections_v4, p) }
                } else {
                    at(s.connections_v4, p)
                }
            &&& forall|p: Place<Ipv6Address>| #[trigger]
                holds(s.connections_v6, p) ==> holds(t.connections_v6, p) && at(
                    t.connections_v6,
                    p,
                ) == if is_idle(at(s.connections_v6, p), now) {
                    Connection { end_time: Some(now), ..at(s.connections_v6, p) }
                } else {
                    at(s.connections_v6, p)
                }
        }),
{
    let idle = Selection::Idle { cutoff: (now - 60_000) as u64 };
    let v4 = idle.reported(map_sequence(s.connections_v4), now);
    let v6 = idle.reported(map_sequence(s.connections_v6), now);
    let middle = DeviceView {
        connections_v4: map_applied(s.connections_v4, idle, now),
        connections_v6: map_applied(s.connections_v6, idle, now),
        events: s.events + v4.map_values(
            |c: Connection<Ipv4Address>| end_event_v4(c, c.process_id),
        ) + v6.map_values(
            |c: Connection<Ipv6Address>| end_event_v6(c, c.process_id),
        ),
        ..s
    };
    lemma_retired_quietly(
        middle,
        v4.map_values(|c: Connection<Ipv4Address>| c.instance_id) + v6.map_values(
            |c: Connection<Ipv6Address>| c.instance_id,
        ),
        now,
    );
    assert forall|p: Place<Ipv4Address>| #[trigger] holds(s.connections_v4, p) implies holds(
        middle.connections_v4,
        p,
    ) && at(middle.connections_v4, p) == (if is_idle(at(s.connections_v4, p), now) {
        Connection { end_time: Some(now), ..at(s.connections_v4, p) }
    } else {
        at(s.connections_v4, p)
    }) by {
        lemma_idle_applied(s.connections_v4, p, now);
    }
    assert forall|p: Place<Ipv6Address>| #[trigger] holds(s.connections_v6, p) implies holds(
        middle.connections_v6,
        p,
    ) && at(middle.connections_v6, p) == (if is_idle(at(s.connections_v6, p), now) {
        Connection { end_time: Some(now), ..at(s.connections_v6, p) }
    } else {
        at(s.connections_v6, p)
    }) by {
        lemma_idle_applied(s.connections_v6, p, now);
    }
}

/// An authorization expires exactly if no flow followed it within ten seconds.
pub proof fn authorization_without_a_flow_expires<H, C>(
    s: DeviceView<H, C>,
    expired: Seq<TcpEndpointConnection>,
    handle: u64,
    now: u64,
)
    requires
        now >= 10_000,
        s.endpoints.contains_key(handle),
        overdue_generations(
            s.endpoints,
            earlier(
                now,
                UNESTABLISHED_TIMEOUT_MS,
            ),
            expired,
        ),
    ensures
        !s.endpoints[handle].established && s.endpoints[handle].associated_at_ms != 0
            && s.endpoints[handle].associated_at_ms + 10_000 <= now ==> expired.contains(
            s.endpoints[handle].endpoint,
        ),
        expired.contains(s.endpoints[handle].endpoint) ==> exists|h: u64| #[trigger]
            s.endpoints.contains_key(h) && s.endpoints[h].endpoint == s.endpoints[handle].endpoint
                && !s.endpoints[h].established && s.endpoints[h].associated_at_ms + 10_000 <= now,
{
    let e = s.endpoints[handle].endpoint;
    if expired.contains(e) {
        let cutoff = earlier(
            now,
            UNESTABLISHED_TIMEOUT_MS,
        );
        let h = choose|h: u64| #[trigger]
            s.endpoints.contains_key(h) && s.endpoints[h].endpoint == e
                && overdue(s.endpoints[h], cutoff);
        assert(s.endpoints.contains_key(h));
    }
}

/// An echo request that stays unanswered for longer than the lifetime is forgotten, and no
/// other is.
pub proof fn unanswered_echoes_are_forgotten<H, C>(s: DeviceView<H, C>, now: u64, i: int)
    requires
        0 <= i < s.echoes.len(),
    ensures
        ({
            let t = s.echoes_expired(now);
            &&& s.echoes[i].sent_at_ms + s.echo_lifetime >= now ==> t.echoes.contains(s.echoes[i])
            &&& forall|j: int|
                0 <= j < t.echoes.len() ==> (#[trigger] t.echoes[j]).sent_at_ms + s.echo_lifetime
                    >= now
            &&& t == (DeviceView { echoes: t.echoes, ..s })
        }),
{
    let t = s.echoes_expired(now);
    let keep = |r: EchoRequest| !expired(r, now, s.echo_lifetime);
    if keep(s.echoes[i]) {
        lemma_filter_target(s.echoes, keep, i);
    }
    assert forall|j: int| 0 <= j < t.echoes.len() implies (#[trigger] t.echoes[j]).sent_at_ms
        + s.echo_lifetime >= now by {
        lemma_filter_source(s.echoes, keep, j);
    }
}

/// Asking for the log hands out every line once, in order, and leaves none.
pub proof fn log_is_handed_out_once<H, C>(s: DeviceView<H, C>)
    ensures
        ({
            let t = s.logs_reported();
            &&& t.events == s.events + s.log
            &&& t.log.len() == 0
            &&& t.logs_reported() == t
            &&& t == (DeviceView { events: t.events, log: t.log, ..s })
        }),
{
    let t = s.logs_reported();
    assert(t.events + t.log =~= t.events);
}

/// Clearing the caches forgets all connections and endpoints without reporting an end, and
/// asks for existing flows to be authorized again.
pub proof fn clearing_forgets_every_connection<H, C>(s: DeviceView<H, C>)
    ensures
        ({
            let t = s.caches_cleared();
            &&& forall|p: Place<Ipv4Address>| !#[trigger] holds(t.connections_v4, p)
            &&& forall|p: Place<Ipv6Address>| !#[trigger] holds(t.connections_v6, p)
            &&& forall|h: u64| !#[trigger] t.endpoints.contains_key(h)
            &&& t.events == s.events && t.queue == s.queue && t.log == s.log
            &&& t.actions.len() > 0 && t.actions.last() is ResetFilters
        }),
{
    let cleared = DeviceView {
        connections_v4: MapView::<Ipv4Address>::empty(),
        connections_v6: MapView::<Ipv6Address>::empty(),
        endpoints: Map::empty(),
        sockets: Map::empty(),
        ..s
    };
    let reconciled = DeviceView {
        sockets: peers_removed(
            cleared.sockets,
            |p: UdpEndpointPeer|
                live_udp_instance(
                    cleared.connections_v4,
                    cleared.connections_v6,
                    p.instance_id,
                ),
        ),
        ..cleared
    };
    lemma_claims_touch_flows_only(reconciled, cleared.removal_candidates());
}

/// Asking contexts back changes nothing but them.
pub proof fn lemma_claims_touch_flows_only<H, C>(s: DeviceView<H, C>, candidates: Seq<(u64, u64)>)
    ensures
        ({
            let t = s.flows_claimed(candidates);
            t == (DeviceView { flows: t.flows, actions: t.actions, ..s })
        }),
    decreases candidates.len(),
{
    if candidates.len() > 0 {
        let (context, id) = candidates[0];
        let next = if live_udp_instance(
            s.connections_v4,
            s.connections_v6,
            id,
        ) {
            s
        } else {
            s.flow_claimed(context, id)
        };
        lemma_claims_touch_flows_only(next, candidates.drop_first());
    }
}

} // verus!
