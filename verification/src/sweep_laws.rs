//! What a sweep over all connections finds, reports and takes back.

use crate::connection::{AddressFamily, Connection};
use crate::connection_map::{
    at, concat, group_sequence, holds, lemma_concat_holds, live_udp, live_udp_ids, map_applied,
    map_sequence, GroupView, MapView, Place, Selection,
};
use crate::device_maintenance::{endpoints_without, live_udp_instance};
use crate::device_state::{end_event_v4, end_event_v6, DeviceView};
use crate::flow_laws::{asks_back, is_held, lemma_removables_held};
use crate::ip::{Ipv4Address, Ipv6Address};
use crate::key::Key;
use crate::lifecycle_laws::{
    lemma_ended_keeps_missing, lemma_other_end_keeps, lemma_retired_quietly, nothing_closes,
    retirement_blocks_waiting_packets,
};
use crate::lists::{lemma_filter_source, lemma_filter_target};
use crate::maintenance_laws::{is_idle, lemma_claims_touch_flows_only};
use crate::ordered::{lemma_integer_keys, lemma_pair_key, ordered_keys, ordered_keys_list_the_set};
use crate::record_laws::{
    end_record_v4_names_the_connection, end_record_v6_names_the_connection,
    ended_connection_is_reported, reports_end,
};
use crate::state_laws::{
    ending_removes_the_live_connection, knows, lemma_stored_place, misses, Known,
};
use crate::tcp_endpoint_cache::TcpEndpointConnection;
use crate::udp_endpoint_cache::{peers_removed, UdpEndpointPeer};
use crate::udp_flow_cache::{removables, UdpFlowRegistration};
use crate::verdict_laws::{completes, outlives_its_connection};
use vstd::prelude::*;

verus! {

/// The connections of a family are finitely many.
pub open spec fn finitely_many<A: AddressFamily>(m: MapView<A>) -> bool {
    m.dom().finite() && forall|g: (u16, u16)| #[trigger]
        m.contains_key(g) ==> m[g].dom().finite()
}

proof fn lemma_concat_source<K, T>(keys: Seq<K>, m: Map<K, Seq<T>>, j: int) -> (place: (int, int))
    requires
        0 <= j < concat(keys, m).len(),
    ensures
        0 <= place.0 < keys.len(),
        0 <= place.1 < m[keys[place.0]].len(),
        m[keys[place.0]][place.1] == concat(keys, m)[j],
    decreases keys.len(),
{
    let rest = concat(keys.drop_last(), m);
    if j < rest.len() {
        let place = lemma_concat_source(keys.drop_last(), m, j);
        assert(keys.drop_last()[place.0] == keys[place.0]);
        place
    } else {
        (keys.len() - 1, j - rest.len())
    }
}

/// A sweep meets every connection.
pub proof fn lemma_swept<A: AddressFamily>(m: MapView<A>, p: Place<A>) -> (j: int)
    requires
        finitely_many(m),
        holds(m, p),
    ensures
        0 <= j < map_sequence(m).len(),
        map_sequence(m)[j] == at(m, p),
{
    A::lemma_family();
    lemma_integer_keys();
    lemma_pair_key::<u16, u16>();
    let walks = m.map_values(|g: GroupView<A>| group_sequence(g));
    let groups = ordered_keys(m.dom());
    ordered_keys_list_the_set(m.dom());
    let ends = ordered_keys(m[p.0].dom());
    ordered_keys_list_the_set(m[p.0].dom());
    assert(groups.to_set().contains(p.0));
    assert(ends.to_set().contains(p.1));
    let g = choose|g: int| 0 <= g < groups.len() && groups[g] == p.0;
    let e = choose|e: int| 0 <= e < ends.len() && ends[e] == p.1;
    let n = lemma_concat_holds(ends, m[p.0], e, p.2);
    assert(walks[p.0] == group_sequence(m[p.0]));
    lemma_concat_holds(groups, walks, g, n)
}

/// A sweep meets nothing else.
pub proof fn lemma_swept_from<A: AddressFamily>(m: MapView<A>, j: int) -> (p: Place<A>)
    requires
        finitely_many(m),
        0 <= j < map_sequence(m).len(),
    ensures
        holds(m, p),
        at(m, p) == map_sequence(m)[j],
{
    A::lemma_family();
    lemma_integer_keys();
    lemma_pair_key::<u16, u16>();
    let walks = m.map_values(|g: GroupView<A>| group_sequence(g));
    let groups = ordered_keys(m.dom());
    ordered_keys_list_the_set(m.dom());
    let (g, n) = lemma_concat_source(groups, walks, j);
    assert(groups.to_set().contains(groups[g]));
    let group = m[groups[g]];
    assert(m.contains_key(groups[g]));
    let ends = ordered_keys(group.dom());
    ordered_keys_list_the_set(group.dom());
    let (e, i) = lemma_concat_source(ends, group, n);
    assert(ends.to_set().contains(ends[e]));
    (groups[g], ends[e], i)
}

/// A live UDP connection carries the instance ID.
pub open spec fn lives<A: AddressFamily>(m: MapView<A>, instance_id: u64) -> bool {
    exists|p: Place<A>| #[trigger]
        holds(m, p) && at(m, p).instance_id == instance_id && at(m, p).end_time is None
            && at(m, p).protocol is Udp
}

proof fn lemma_lives<A: AddressFamily>(m: MapView<A>, id: u64)
    requires
        finitely_many(m),
    ensures
        live_udp_ids(map_sequence(m)).contains(id) <==> lives(m, id),
{
    let s = map_sequence(m);
    let udp = |c: Connection<A>| live_udp(c);
    let ids = live_udp_ids(s);
    if ids.contains(id) {
        let i = choose|i: int| 0 <= i < ids.len() && ids[i] == id;
        lemma_filter_source(s, udp, i);
        let j = choose|j: int| 0 <= j < s.len() && s[j] == s.filter(udp)[i] && udp(s[j]);
        let p = lemma_swept_from(m, j);
        assert(holds(m, p));
    }
    if lives(m, id) {
        let p = choose|p: Place<A>| #[trigger]
            holds(m, p) && at(m, p).instance_id == id && at(m, p).end_time is None && at(
                m,
                p,
            ).protocol is Udp;
        let j = lemma_swept(m, p);
        assert(udp(s[j]));
        lemma_filter_target(s, udp, j);
        let i = choose|i: int| 0 <= i < s.filter(udp).len() && #[trigger] s.filter(udp)[i] == s[j];
        assert(ids[i] == id);
    }
}

proof fn lemma_idle_listed<A: AddressFamily>(m: MapView<A>, p: Place<A>, now: u64) -> (n: int)
    requires
        finitely_many(m),
        holds(m, p),
        is_idle(at(m, p), now),
        now >= 60_000,
    ensures
        ({
            let idle = Selection::Idle { cutoff: (now - 60_000) as u64 };
            let list = idle.reported(map_sequence(m), now);
            &&& 0 <= n < list.len()
            &&& list[n] == (Connection { end_time: Some(now), ..at(m, p) })
        }),
{
    let idle = Selection::Idle { cutoff: (now - 60_000) as u64 };
    let s = map_sequence(m);
    let selects = |c: Connection<A>| idle.selects(c);
    let j = lemma_swept(m, p);
    assert(selects(s[j]));
    lemma_filter_target(s, selects, j);
    choose|n: int| 0 <= n < s.filter(selects).len() && #[trigger] s.filter(selects)[n] == s[j]
}

proof fn lemma_idle_source<A: AddressFamily>(m: MapView<A>, n: int, now: u64) -> (p: Place<A>)
    requires
        finitely_many(m),
        now >= 60_000,
        0 <= n < (Selection::Idle { cutoff: (now - 60_000) as u64 }).reported(
            map_sequence(m),
            now,
        ).len(),
    ensures
        holds(m, p),
        is_idle(at(m, p), now),
        (Selection::Idle { cutoff: (now - 60_000) as u64 }).reported(map_sequence(m), now)[n] == (
        Connection { end_time: Some(now), ..at(m, p) }),
{
    let idle = Selection::Idle { cutoff: (now - 60_000) as u64 };
    let s = map_sequence(m);
    let selects = |c: Connection<A>| idle.selects(c);
    lemma_filter_source(s, selects, n);
    let j = choose|j: int| 0 <= j < s.len() && s[j] == s.filter(selects)[n] && selects(s[j]);
    lemma_swept_from(m, j)
}

/// If the packet at `k` waits under the connection generation, it is completed as blocked.
pub open spec fn is_blocked_under<H, C>(
    s: DeviceView<H, C>,
    t: DeviceView<H, C>,
    k: int,
    instance_id: u64,
) -> bool {
    0 <= k < s.queue.len() && s.queue[k].value.connection_instance_id == Some(instance_id)
        && !outlives_its_connection(s.queue[k].value.key, s.queue[k].value.packet@) ==> exists|
        i: int,
    |
        s.actions.len() <= i && #[trigger] completes(t, i, s.queue[k].value.packet@, true, false)
}

/// An idle connection of either family.
pub open spec fn idles<H, C>(
    s: DeviceView<H, C>,
    now: u64,
    event: Seq<u8>,
) -> bool {
    ||| exists|p: Place<Ipv4Address>| #[trigger]
        holds(s.connections_v4, p) && is_idle(at(s.connections_v4, p), now) && reports_end(
            event,
            at(s.connections_v4, p).spec_key(),
            at(s.connections_v4, p).direction,
            at(s.connections_v4, p).process_id,
        )
    ||| exists|p: Place<Ipv6Address>| #[trigger]
        holds(s.connections_v6, p) && is_idle(at(s.connections_v6, p), now) && reports_end(
            event,
            at(s.connections_v6, p).spec_key(),
            at(s.connections_v6, p).direction,
            at(s.connections_v6, p).process_id,
        )
}

/// Maintenance reports every idle connection that it ends, under the process that the
/// connection is known by, and reports nothing else. What waits under such a connection is
/// completed as blocked.
pub proof fn idle_connections_are_reported<H, C>(
    s: DeviceView<H, C>,
    now: u64,
    p: Place<Ipv4Address>,
    q: Place<Ipv6Address>,
    k: int,
)
    requires
        nothing_closes(s),
        finitely_many(s.connections_v4),
        finitely_many(s.connections_v6),
        now >= 60_000,
    ensures
        ({
            let t = s.idle_ended(now);
            let n = s.events.len() as int;
            &&& t.events.take(n) == s.events
            &&& holds(s.connections_v4, p) && is_idle(at(s.connections_v4, p), now) ==> exists|
                j: int,
            |
                n <= j < t.events.len() && reports_end(
                    #[trigger] t.events[j],
                    at(s.connections_v4, p).spec_key(),
                    at(s.connections_v4, p).direction,
                    at(s.connections_v4, p).process_id,
                )
            &&& holds(s.connections_v6, q) && is_idle(at(s.connections_v6, q), now) ==> exists|
                j: int,
            |
                n <= j < t.events.len() && reports_end(
                    #[trigger] t.events[j],
                    at(s.connections_v6, q).spec_key(),
                    at(s.connections_v6, q).direction,
                    at(s.connections_v6, q).process_id,
                )
            &&& forall|j: int| n <= j < t.events.len() ==> idles(s, now, #[trigger] t.events[j])
            &&& holds(s.connections_v4, p) && is_idle(at(s.connections_v4, p), now) && at(
                s.connections_v4,
                p,
            ).instance_id != 0 ==> is_blocked_under(s, t, k, at(s.connections_v4, p).instance_id)
            &&& holds(s.connections_v6, q) && is_idle(at(s.connections_v6, q), now) && at(
                s.connections_v6,
                q,
            ).instance_id != 0 ==> is_blocked_under(s, t, k, at(s.connections_v6, q).instance_id)
        }),
{
    let idle = Selection::Idle { cutoff: (now - 60_000) as u64 };
    let v4 = idle.reported(map_sequence(s.connections_v4), now);
    let v6 = idle.reported(map_sequence(s.connections_v6), now);
    let first = v4.map_values(|c: Connection<Ipv4Address>| end_event_v4(c, c.process_id));
    let second = v6.map_values(|c: Connection<Ipv6Address>| end_event_v6(c, c.process_id));
    let middle = DeviceView {
        connections_v4: map_applied(s.connections_v4, idle, now),
        connections_v6: map_applied(s.connections_v6, idle, now),
        events: s.events + first + second,
        ..s
    };
    let ids = v4.map_values(|c: Connection<Ipv4Address>| c.instance_id) + v6.map_values(
        |c: Connection<Ipv6Address>| c.instance_id,
    );
    lemma_retired_quietly(middle, ids, now);
    if 0 <= k < s.queue.len() {
        retirement_blocks_waiting_packets(middle, ids, now, k);
    }
    let t = s.idle_ended(now);
    let n = s.events.len() as int;
    assert(t.events == s.events + first + second);
    assert(t.events.take(n) =~= s.events);
    if holds(s.connections_v4, p) && is_idle(at(s.connections_v4, p), now) {
        let i = lemma_idle_listed(s.connections_v4, p, now);
        end_record_v4_names_the_connection(v4[i], v4[i].process_id);
        assert(t.events[n + i] == first[i]);
        assert(ids[i] == at(s.connections_v4, p).instance_id);
    }
    if holds(s.connections_v6, q) && is_idle(at(s.connections_v6, q), now) {
        let i = lemma_idle_listed(s.connections_v6, q, now);
        end_record_v6_names_the_connection(v6[i], v6[i].process_id);
        assert(t.events[n + first.len() + i] == second[i]);
        assert(ids[v4.len() + i] == at(s.connections_v6, q).instance_id);
    }
    assert forall|j: int| n <= j < t.events.len() implies idles(s, now, #[trigger] t.events[j]) by {
        if j < n + first.len() {
            let i = j - n;
            let from = lemma_idle_source(s.connections_v4, i, now);
            end_record_v4_names_the_connection(v4[i], v4[i].process_id);
            assert(t.events[j] == first[i]);
            assert(holds(s.connections_v4, from));
        } else {
            let i = j - n - first.len();
            let from = lemma_idle_source(s.connections_v6, i, now);
            end_record_v6_names_the_connection(v6[i], v6[i].process_id);
            assert(t.events[j] == second[i]);
            assert(holds(s.connections_v6, from));
        }
    }
}

/// The flow belongs to a UDP connection that is still live.
pub open spec fn flow_lives<H, C>(s: DeviceView<H, C>, instance_id: u64) -> bool {
    lives(s.connections_v4, instance_id) || lives(s.connections_v6, instance_id)
}

/// A sweep over the UDP sockets keeps exactly the peers whose connection is live, in their
/// order.
pub proof fn sockets_keep_live_peers<H, C>(s: DeviceView<H, C>, handle: u64, n: int)
    requires
        finitely_many(s.connections_v4),
        finitely_many(s.connections_v6),
        s.sockets.contains_key(handle),
        0 <= n < s.sockets[handle].len(),
    ensures
        ({
            let t = s.udp_reconciled();
            let peer = s.sockets[handle][n];
            &&& flow_lives(s, peer.instance_id) ==> t.sockets.contains_key(handle)
                && t.sockets[handle].contains(peer)
            &&& forall|h: u64, i: int|
                t.sockets.contains_key(h) && 0 <= i < t.sockets[h].len() ==> flow_lives(
                    s,
                    (#[trigger] t.sockets[h][i]).instance_id,
                )
            &&& t.connections_v4 == s.connections_v4 && t.connections_v6 == s.connections_v6
            &&& t.events == s.events && t.queue == s.queue && t.endpoints == s.endpoints
        }),
{
    let keep = |p: UdpEndpointPeer|
        live_udp_instance(s.connections_v4, s.connections_v6, p.instance_id);
    let swept = DeviceView { sockets: peers_removed(s.sockets, keep), ..s };
    lemma_claims_touch_flows_only(swept, s.removal_candidates());
    let t = s.udp_reconciled();
    assert(t.sockets == peers_removed(s.sockets, keep));
    let peer = s.sockets[handle][n];
    lemma_lives(s.connections_v4, peer.instance_id);
    lemma_lives(s.connections_v6, peer.instance_id);
    if flow_lives(s, peer.instance_id) {
        assert(keep(peer));
        lemma_filter_target(s.sockets[handle], keep, n);
        let i = choose|i: int|
            0 <= i < s.sockets[handle].filter(keep).len() && #[trigger] s.sockets[handle].filter(
                keep,
            )[i] == peer;
        assert(t.sockets[handle][i] == peer);
    }
    assert forall|h: u64, i: int|
        t.sockets.contains_key(h) && 0 <= i < t.sockets[h].len() implies flow_lives(
        s,
        (#[trigger] t.sockets[h][i]).instance_id,
    ) by {
        lemma_filter_source(s.sockets[h], keep, i);
        let id = t.sockets[h][i].instance_id;
        lemma_lives(s.connections_v4, id);
        lemma_lives(s.connections_v6, id);
    }
}

proof fn lemma_claims<H, C>(s: DeviceView<H, C>, candidates: Seq<(u64, u64)>, context: u64)
    requires
        forall|i: int|
            0 <= i < candidates.len() ==> is_held(s.flows, (#[trigger] candidates[i]).0)
                && s.flows[candidates[i].0].connection_instance_id == candidates[i].1
                && candidates[i].0 != 0 && candidates[i].1 != 0,
        forall|c: u64| #[trigger] s.flows.contains_key(c) ==> s.flows[c].flow_context == c,
        forall|i: int, j: int|
            0 <= i < j < candidates.len() ==> (#[trigger] candidates[i]).0 != (
            #[trigger] candidates[j]).0,
    ensures
        ({
            let t = s.flows_claimed(candidates);
            let n = s.actions.len() as int;
            let listed = exists|i: int|
                0 <= i < candidates.len() && (#[trigger] candidates[i]).0 == context;
            let dead = !live_udp_instance(
                s.connections_v4,
                s.connections_v6,
                s.flows[context].connection_instance_id,
            );
            &&& t.flows.dom() == s.flows.dom()
            &&& t.actions.len() >= n && t.actions.take(n) == s.actions
            &&& listed && dead ==> t.flows[context] == (UdpFlowRegistration {
                removal_requested: true,
                ..s.flows[context]
            }) && exists|place: int|
                n <= place < t.actions.len() && #[trigger] asks_back(t, place, context)
            &&& !(listed && dead) ==> t.flows[context] == s.flows[context] && forall|place: int|
                n <= place < t.actions.len() ==> !#[trigger] asks_back(t, place, context)
        }),
    decreases candidates.len(),
{
    let t = s.flows_claimed(candidates);
    let n = s.actions.len() as int;
    if candidates.len() > 0 {
        let (c, id) = candidates[0];
        assert(is_held(s.flows, candidates[0].0));
        let gone = !live_udp_instance(s.connections_v4, s.connections_v6, id);
        let next = if gone {
            s.flow_claimed(c, id)
        } else {
            s
        };
        let rest = candidates.drop_first();
        assert forall|i: int| 0 <= i < rest.len() implies is_held(
            next.flows,
            (#[trigger] rest[i]).0,
        ) && next.flows[rest[i].0].connection_instance_id == rest[i].1 && rest[i].0 != 0
            && rest[i].1 != 0 by {
            assert(rest[i] == candidates[i + 1]);
            assert(candidates[0].0 != candidates[i + 1].0);
        }
        assert forall|i: int, j: int| 0 <= i < j < rest.len() implies (#[trigger] rest[i]).0 != (
        #[trigger] rest[j]).0 by {
            assert(rest[i] == candidates[i + 1] && rest[j] == candidates[j + 1]);
        }
        lemma_claims(next, rest, context);
        let m = next.actions.len() as int;
        assert(next.flows.dom() =~= s.flows.dom());
        assert(t == next.flows_claimed(rest));
        assert(t.actions.take(n) =~= s.actions) by {
            assert(t.actions.take(m).take(n) =~= t.actions.take(n));
            assert(next.actions.take(n) =~= s.actions);
        }
        if gone {
            assert(next.actions[n] == t.actions.take(m)[n]);
            assert(t.actions[n] == next.actions[n]);
            if c == context {
                assert(asks_back(t, n, context));
                assert forall|i: int| 0 <= i < rest.len() implies (#[trigger] rest[i]).0
                    != context by {
                    assert(rest[i] == candidates[i + 1]);
                }
            }
        }
        if exists|i: int| 0 <= i < candidates.len() && (#[trigger] candidates[i]).0 == context {
            let i = choose|i: int|
                0 <= i < candidates.len() && (#[trigger] candidates[i]).0 == context;
            if i > 0 {
                assert(rest[i - 1] == candidates[i]);
                assert(candidates[0].0 != candidates[i].0);
            }
        }
        if exists|i: int| 0 <= i < rest.len() && (#[trigger] rest[i]).0 == context {
            let i = choose|i: int| 0 <= i < rest.len() && (#[trigger] rest[i]).0 == context;
            assert(candidates[i + 1] == rest[i]);
        }
    } else {
        assert(t.actions.take(n) =~= s.actions);
    }
}

proof fn lemma_removables_distinct(contexts: Seq<u64>, flows: Map<u64, UdpFlowRegistration>)
    requires
        contexts.no_duplicates(),
        forall|i: int| 0 <= i < contexts.len() ==> flows.contains_key(#[trigger] contexts[i]),
        forall|c: u64| #[trigger] flows.contains_key(c) ==> flows[c].flow_context == c,
    ensures
        ({
            let list = removables(contexts, flows);
            &&& forall|i: int, j: int|
                0 <= i < j < list.len() ==> (#[trigger] list[i]).flow_context != (
                #[trigger] list[j]).flow_context
            &&& forall|i: int|
                0 <= i < list.len() ==> contexts.contains((#[trigger] list[i]).flow_context)
                    && list[i] == flows[list[i].flow_context]
        }),
    decreases contexts.len(),
{
    if contexts.len() > 0 {
        let shorter = contexts.drop_last();
        assert forall|i: int| 0 <= i < shorter.len() implies flows.contains_key(
            #[trigger] shorter[i],
        ) by {
            assert(shorter[i] == contexts[i]);
        }
        lemma_removables_distinct(shorter, flows);
        let list = removables(contexts, flows);
        let rest = removables(shorter, flows);
        let last = contexts[contexts.len() - 1];
        assert(flows.contains_key(last));
        assert forall|i: int| 0 <= i < list.len() implies contexts.contains(
            (#[trigger] list[i]).flow_context,
        ) && list[i] == flows[list[i].flow_context] by {
            if i < rest.len() {
                assert(list[i] == rest[i]);
                let k = choose|k: int|
                    0 <= k < shorter.len() && shorter[k] == rest[i].flow_context;
                assert(contexts[k] == rest[i].flow_context);
            } else {
                assert(contexts[contexts.len() - 1] == last);
            }
        }
        assert forall|i: int, j: int| 0 <= i < j < list.len() implies (
        #[trigger] list[i]).flow_context != (#[trigger] list[j]).flow_context by {
            assert(list[i] == rest[i]);
            let k = choose|k: int| 0 <= k < shorter.len() && shorter[k] == rest[i].flow_context;
            if j < rest.len() {
                assert(list[j] == rest[j]);
            } else {
                assert(contexts[k] != contexts[contexts.len() - 1]);
            }
        }
    }
}

/// A sweep over the flow contexts asks back exactly those that the network stack holds for a
/// connection that is gone. Those of live connections stay where they are.
pub proof fn contexts_of_dead_flows_are_asked_back<H, C>(s: DeviceView<H, C>, context: u64)
    requires
        finitely_many(s.connections_v4),
        finitely_many(s.connections_v6),
        s.flows.dom().finite(),
        forall|c: u64| #[trigger]
            s.flows.contains_key(c) ==> c != 0 && s.flows[c].flow_context == c
                && s.flows[c].connection_instance_id != 0,
        s.flows.contains_key(context),
    ensures
        ({
            let t = s.udp_reconciled();
            let n = s.actions.len() as int;
            let stale = is_held(s.flows, context) && !flow_lives(
                s,
                s.flows[context].connection_instance_id,
            );
            &&& t.flows.dom() == s.flows.dom()
            &&& t.actions.take(n) == s.actions
            &&& t.flows[context] == (UdpFlowRegistration {
                removal_requested: stale || s.flows[context].removal_requested,
                ..s.flows[context]
            })
            &&& stale <==> exists|place: int|
                n <= place < t.actions.len() && #[trigger] asks_back(t, place, context)
        }),
{
    lemma_integer_keys();
    let keep = |p: UdpEndpointPeer|
        live_udp_instance(s.connections_v4, s.connections_v6, p.instance_id);
    let swept = DeviceView { sockets: peers_removed(s.sockets, keep), ..s };
    let contexts = ordered_keys(s.flows.dom());
    ordered_keys_list_the_set(s.flows.dom());
    assert forall|i: int| 0 <= i < contexts.len() implies s.flows.contains_key(
        #[trigger] contexts[i],
    ) by {
        assert(contexts.to_set().contains(contexts[i]));
    }
    lemma_removables_held(contexts, s.flows);
    lemma_removables_distinct(contexts, s.flows);
    let list = removables(contexts, s.flows);
    let candidates = s.removal_candidates();
    assert forall|i: int| 0 <= i < candidates.len() implies is_held(
        s.flows,
        (#[trigger] candidates[i]).0,
    ) && s.flows[candidates[i].0].connection_instance_id == candidates[i].1 && candidates[i].0 != 0
        && candidates[i].1 != 0 by {
        assert(is_held(s.flows, list[i].flow_context));
    }
    assert forall|i: int, j: int| 0 <= i < j < candidates.len() implies (
    #[trigger] candidates[i]).0 != (#[trigger] candidates[j]).0 by {
        assert(list[i].flow_context != list[j].flow_context);
    }
    lemma_claims(swept, candidates, context);
    let id = s.flows[context].connection_instance_id;
    lemma_lives(s.connections_v4, id);
    lemma_lives(s.connections_v6, id);
    if is_held(s.flows, context) {
        assert(contexts.to_set().contains(context));
        let j = choose|j: int| 0 <= j < list.len() && (#[trigger] list[j]).flow_context == context;
        assert(candidates[j].0 == context);
    } else {
        assert forall|i: int| 0 <= i < candidates.len() implies (#[trigger] candidates[i]).0
            != context by {
            assert(is_held(s.flows, list[i].flow_context));
        }
    }
}

/// An authorization that expires ends its connection, which is reported under the process that
/// it is known by, and its endpoint is forgotten. What waits under the connection is completed
/// as blocked. Endpoints that did not expire stay.
pub proof fn expired_authorization_ends_its_connection<H, C>(
    s: DeviceView<H, C>,
    endpoint: TcpEndpointConnection,
    known: Known,
    now: u64,
    handle: u64,
    other: Key,
    other_known: Known,
    k: int,
)
    requires
        nothing_closes(s),
        knows(s, endpoint.key, known),
        known.instance_id == endpoint.instance_id,
        known.instance_id != 0,
        s.endpoints.contains_key(handle),
    ensures
        ({
            let t = s.unestablished_ended(seq![endpoint], now);
            &&& misses(t, endpoint.key)
            &&& knows(s, other, other_known) && other != endpoint.key ==> knows(
                t,
                other,
                other_known,
            )
            &&& t.events.len() == s.events.len() + 1
            &&& reports_end(t.events.last(), endpoint.key, known.opened, known.process_id)
            &&& t.endpoints.contains_key(handle) <==> s.endpoints[handle].endpoint != endpoint
            &&& is_blocked_under(s, t, k, known.instance_id)
        }),
{
    let list = seq![endpoint];
    let start = DeviceView { endpoints: endpoints_without(s.endpoints, list), ..s };
    assert(list[0] == endpoint);
    assert(list.drop_first() =~= Seq::<TcpEndpointConnection>::empty());
    assert(start.overdue_ended_all(list, now) == start.overdue_ended(endpoint, now)) by {
        assert(start.overdue_ended_all(list, now) == start.overdue_ended(
            endpoint,
            now,
        ).overdue_ended_all(list.drop_first(), now));
    }
    if endpoint.key.local_address is Ipv6 {
        let p = lemma_stored_place(s.connections_v6, endpoint.key, known);
    } else {
        let p = lemma_stored_place(s.connections_v4, endpoint.key, known);
    }
    assert(start.owner_of(endpoint) == known.process_id);
    ending_removes_the_live_connection(
        start,
        endpoint.key,
        known,
        known.process_id,
        now,
        other,
        other_known,
    );
    ended_connection_is_reported(start, endpoint.key, known, known.process_id, now);
    let ended = start.ended(endpoint.key, endpoint.instance_id, known.process_id, now);
    let ids = seq![endpoint.instance_id];
    lemma_retired_quietly(ended, ids, now);
    assert(ids[0] == known.instance_id);
    if 0 <= k < s.queue.len() {
        retirement_blocks_waiting_packets(ended, ids, now, k);
    }
    assert(list.contains(s.endpoints[handle].endpoint) <==> s.endpoints[handle].endpoint
        == endpoint) by {
        if s.endpoints[handle].endpoint == endpoint {
            assert(list[0] == s.endpoints[handle].endpoint);
        }
    }
}

/// Of several authorizations that expire, each ends its own connection.
pub proof fn every_expired_authorization_ends<H, C>(
    s: DeviceView<H, C>,
    expired: Seq<TcpEndpointConnection>,
    n: int,
    known: Known,
    now: u64,
)
    requires
        nothing_closes(s),
        0 <= n < expired.len(),
        knows(s, expired[n].key, known),
        known.instance_id == expired[n].instance_id,
        known.instance_id != 0,
    ensures
        misses(s.overdue_ended_all(expired, now), expired[n].key),
    decreases expired.len(),
{
    let first = expired[0];
    let owner = s.owner_of(first);
    let after = s.ended(first.key, first.instance_id, owner, now);
    let next = s.overdue_ended(first, now);
    lemma_retired_quietly(after, seq![first.instance_id], now);
    let key = expired[n].key;
    let rest = expired.drop_first();
    if first.key == key && first.instance_id == known.instance_id {
        ending_removes_the_live_connection(s, key, known, owner, now, key, known);
        assert(misses(next, key));
        lemma_overdue_missing(next, rest, now, key);
    } else {
        lemma_other_end_keeps(s, first.key, first.instance_id, owner, now, key, known);
        assert(knows(next, key, known));
        assert(rest[n - 1] == expired[n]);
        every_expired_authorization_ends(next, rest, n - 1, known, now);
    }
}

proof fn lemma_overdue_missing<H, C>(
    s: DeviceView<H, C>,
    expired: Seq<TcpEndpointConnection>,
    now: u64,
    key: Key,
)
    requires
        nothing_closes(s),
        misses(s, key),
    ensures
        misses(s.overdue_ended_all(expired, now), key),
    decreases expired.len(),
{
    if expired.len() > 0 {
        let first = expired[0];
        let owner = s.owner_of(first);
        let after = s.ended(first.key, first.instance_id, owner, now);
        lemma_ended_keeps_missing(s, key, first.key, first.instance_id, owner, now);
        lemma_retired_quietly(after, seq![first.instance_id], now);
        lemma_overdue_missing(s.overdue_ended(first, now), expired.drop_first(), now, key);
    }
}

} // verus!
