//! What the driver promises across several operations.

use crate::ale_callouts::{
    endpoint_selection, is_authorized_protocol, permitted, AleDecision, AleLayerData,
};
use crate::ale_policy::{spec_classify_ale_injection, InjectionStatus};
use crate::command::{command_length_is_fixed, Command};
use crate::connection::{
    AddressFamily, Connection, ConnectionV4, ConnectionV6, Direction, Verdict,
};
use crate::connection_cache::{with_end, with_tuple_verdict, with_verdict};
use crate::connection_laws::lemma_first_unique;
use crate::connection_map::{
    at, best_match, exact_match, generations, group_applied, group_key, group_sequence, holds,
    instance_match, is_first, lemma_concat_holds, lemma_exact_holds, map_set, occupied,
    EndpointKey, GroupView, MapView, Place, Query, Selection,
};
use crate::device::Device;
use crate::device_lookup::selected_info;
use crate::device_state::{
    end_event_v4, end_event_v6, ready, without_awaited, ActionView, ClosureView, DeviceView,
};
use crate::device_stream::{
    command_at, command_step, command_valid, no_command_at, write_stopped, written,
};
use crate::device_verdict::{invalid_id_text, needs_reset, queued_packet};
use crate::id_cache::{
    after_retirement, new_requests, packet_parts, reportable, retired, without, PendingPacket,
    Request,
};
use crate::ip::{IpAddress, IpProtocol, Ipv4Address, Ipv6Address};
use crate::key::Key;
use crate::lists::{lemma_filter_source, lemma_filter_target};
use crate::ordered::{ordered_keys, ordered_keys_list_the_set};
use crate::packet_callouts::{is_transport, unconditional, ClassifyAction, PacketContext};
use crate::packet_metadata::{PacketInspection, PacketMetadata, PacketMetadataError};
use crate::tcp_endpoint_cache::{Endpoints, TcpEndpointConnection};
use crate::udp_endpoint_cache::Sockets;
use vstd::prelude::*;

verus! {

/// The actions of `s` come first in those of `t`.
pub open spec fn actions_kept<H, C>(s: DeviceView<H, C>, t: DeviceView<H, C>) -> bool {
    &&& s.actions.len() <= t.actions.len()
    &&& forall|i: int| 0 <= i < s.actions.len() ==> t.actions[i] == #[trigger] s.actions[i]
}

proof fn lemma_completed_keeps<H, C>(
    s: DeviceView<H, C>,
    endpoints: Seq<TcpEndpointConnection>,
    now: u64,
)
    ensures
        s.completed_all(endpoints, now).queue == s.queue,
        actions_kept(s, s.completed_all(endpoints, now)),
    decreases endpoints.len(),
{
    if endpoints.len() > 0 {
        let next = s.completed(endpoints[0], now);
        let end = s.completed_all(endpoints, now);
        lemma_completed_keeps(next, endpoints.drop_first(), now);
        assert forall|i: int| 0 <= i < s.actions.len() implies end.actions[i]
            == #[trigger] s.actions[i] by {
            assert(next.actions[i] == s.actions[i]);
        }
    }
}

proof fn lemma_finished_keeps<H, C>(s: DeviceView<H, C>, id: u64, now: u64)
    ensures
        s.finished(id, now).queue == s.queue,
        actions_kept(s, s.finished(id, now)),
{
    let closures = without_awaited(s.closures, id);
    lemma_completed_keeps(
        DeviceView { in_progress: s.in_progress.remove(id), closures, ..s },
        ready(closures),
        now,
    );
}

/// A verdict consumes its request: applying another one for the same request only records
/// that there is none.
pub proof fn verdict_is_consumed_once<H, C>(
    s: DeviceView<H, C>,
    id: u64,
    first_verdict: Verdict,
    second_verdict: Verdict,
    now: u64,
    later: u64,
)
    ensures
        ({
            let after = s.verdict_applied(id, first_verdict, now);
            &&& !after.is_queued(id)
            &&& after.verdict_applied(id, second_verdict, later) == after.with_error(
                invalid_id_text(id),
            )
        }),
{
    let after = s.verdict_applied(id, first_verdict, now);
    match queued_packet(s.queue, id) {
        None => {
            assert(after.queue == s.queue);
        },
        Some(pending) => {
            lemma_finished_keeps(
                s.claimed(id, pending).given(pending, first_verdict, now),
                id,
                now,
            );
            assert(after.queue == without(s.queue, id));
            assert forall|k: int| 0 <= k < after.queue.len() implies (#[trigger] after.queue[k]).id
                != id by {
                lemma_filter_source(s.queue, |e: Request<H>| e.spec_id() != id, k);
            }
        },
    }
}

/// A verdict for a request that does not wait changes nothing but the log.
pub proof fn unknown_verdict_is_only_recorded<H, C>(
    s: DeviceView<H, C>,
    id: u64,
    verdict: Verdict,
    now: u64,
)
    requires
        !s.is_queued(id),
    ensures
        s.verdict_applied(id, verdict, now) == s.with_error(invalid_id_text(id)),
{
}

/// A verdict for a packet without a connection generation, or for one whose generation is
/// gone, decides that packet alone: no connection learns of it.
pub proof fn stateless_verdict_decides_one_packet<H, C>(
    s: DeviceView<H, C>,
    pending: PendingPacket<H>,
    verdict: Verdict,
    now: u64,
)
    requires
        pending.connection_instance_id matches Some(id) ==> !s.has_instance(pending.key, id),
    ensures
        s.given(pending, verdict, now).connections_v4 == s.connections_v4,
        s.given(pending, verdict, now).connections_v6 == s.connections_v6,
{
}

/// The verdict lets the packet go.
pub open spec fn accepts(verdict: Verdict) -> bool {
    verdict is Accept || verdict is PermanentAccept
}

/// The verdict stops the packet.
pub open spec fn refuses(verdict: Verdict) -> bool {
    !accepts(verdict) && !(verdict is RedirectNameServer || verdict is RedirectTunnel
        || verdict is RedirectSplitTunnel)
}

/// A packet that was asked about returns to the network stack when it is accepted, and is
/// completed as blocked when it is refused. Each packet of a batch is asked about under an ID
/// of its own, and a verdict decides the one that it names.
pub proof fn asked_packet_gets_its_verdict<H, C>(
    device: Device<H, C>,
    pending: PendingPacket<H>,
    part: int,
    process_id: u64,
    direction: Direction,
    ale_layer: bool,
    verdict: Verdict,
    now: u64,
)
    requires
        device.wf(),
        device@.can_ask(pending.key, pending.packet),
        reportable(pending.key),
        0 <= part < packet_parts(pending.packet).len(),
        pending.connection_instance_id matches Some(id) ==> device@.has_instance(pending.key, id),
    ensures
        ({
            let asked = device@.asked(pending, process_id, direction, ale_layer);
            let packet = packet_parts(pending.packet)[part];
            let id = (device@.next_request + part) as u64;
            let after = asked.verdict_applied(id, verdict, now);
            let place = device@.actions.len() as int;
            &&& asked.is_queued(id)
            &&& accepts(verdict) ==> place < after.actions.len() && after.actions[place]
                == (ActionView::<H, C>::Inject {
                packet: packet@,
                blocked: false,
                reset_first: needs_reset(packet@),
            })
            &&& refuses(verdict) ==> place < after.actions.len() && after.actions[place]
                == (ActionView::<H, C>::Inject {
                packet: packet@,
                blocked: true,
                reset_first: needs_reset(packet@),
            })
        }),
{
    let s = device@;
    let parts = packet_parts(pending.packet);
    let id = (s.next_request + part) as u64;
    let single = PendingPacket { packet: parts[part], ..pending };
    let asked = s.asked(pending, process_id, direction, ale_layer);
    let new = new_requests(parts, pending.key, pending.connection_instance_id, s.next_request);
    device.packet_cache.ids_are_unique();
    let k = s.queue.len() + part;
    assert(asked.queue[k] == new[part]);
    assert(asked.queue[k].id == id);
    assert(asked.is_queued(id));
    assert(queued_packet(asked.queue, id) == Some(single)) by {
        let j = choose|j: int| 0 <= j < asked.queue.len() && (#[trigger] asked.queue[j]).id == id;
        if j < s.queue.len() {
            assert(s.queue[j].spec_id() < s.next_request);
        } else {
            assert(asked.queue[j] == new[j - s.queue.len()]);
        }
    }
    let given = asked.claimed(id, single).given(single, verdict, now);
    let after = asked.verdict_applied(id, verdict, now);
    let place = s.actions.len() as int;
    lemma_finished_keeps(given, id, now);
    if accepts(verdict) || refuses(verdict) {
        assert(given.actions == s.actions.push(
            ActionView::Inject {
                packet: single.packet@,
                blocked: !accepts(verdict),
                reset_first: needs_reset(single.packet@),
            },
        ));
        assert(after.actions[place] == given.actions[place]);
    }
}

/// The packet of a request is among what the network stack is asked to complete as blocked.
pub open spec fn completed_as_blocked<H, C>(s: DeviceView<H, C>, request: Request<H>) -> bool {
    exists|i: int|
        0 <= i < s.actions.len() && #[trigger] s.actions[i] == (ActionView::<H, C>::Inject {
            packet: request.value.packet@,
            blocked: true,
            reset_first: false,
        })
}

proof fn lemma_blocked_stays<H, C>(s: DeviceView<H, C>, t: DeviceView<H, C>, request: Request<H>)
    requires
        actions_kept(s, t),
        completed_as_blocked(s, request),
    ensures
        completed_as_blocked(t, request),
{
    let i = choose|i: int|
        0 <= i < s.actions.len() && #[trigger] s.actions[i] == (ActionView::<H, C>::Inject {
            packet: request.value.packet@,
            blocked: true,
            reset_first: false,
        });
    assert(t.actions[i] == s.actions[i]);
}

proof fn lemma_resolved<H, C>(s: DeviceView<H, C>, requests: Seq<Request<H>>, now: u64)
    ensures
        s.requests_resolved(requests, now).queue == s.queue,
        actions_kept(s, s.requests_resolved(requests, now)),
        forall|k: int|
            0 <= k < requests.len() ==> completed_as_blocked(
                s.requests_resolved(requests, now),
                #[trigger] requests[k],
            ),
    decreases requests.len(),
{
    if requests.len() > 0 {
        let request = requests[0];
        let decided = match request.value.connection_instance_id {
            Some(id) => s.decided(request.value.key, id, Verdict::PermanentBlock, now),
            None => s,
        };
        let blocked = decided.with_action(
            ActionView::Inject {
                packet: request.value.packet@,
                blocked: true,
                reset_first: false,
            },
        );
        let next = s.request_resolved(request, now);
        let end = s.requests_resolved(requests, now);
        lemma_finished_keeps(blocked, request.id, now);
        lemma_resolved(next, requests.drop_first(), now);
        assert(blocked.actions[s.actions.len() as int] == (ActionView::<H, C>::Inject {
            packet: request.value.packet@,
            blocked: true,
            reset_first: false,
        }));
        assert(completed_as_blocked(blocked, request));
        lemma_blocked_stays(blocked, next, request);
        lemma_blocked_stays(next, end, request);
        assert forall|i: int| 0 <= i < s.actions.len() implies end.actions[i]
            == #[trigger] s.actions[i] by {
            assert(blocked.actions[i] == s.actions[i]);
            assert(next.actions[i] == blocked.actions[i]);
        }
        assert forall|k: int| 0 <= k < requests.len() implies completed_as_blocked(
            end,
            #[trigger] requests[k],
        ) by {
            if k > 0 {
                assert(requests.drop_first()[k - 1] == requests[k]);
            }
        }
    }
}

proof fn lemma_drained<H, C>(s: DeviceView<H, C>, closures: Seq<ClosureView<C>>, now: u64)
    ensures
        s.closures_drained(closures, now).queue == s.queue,
        s.closures_drained(closures, now).closures == s.closures,
        actions_kept(s, s.closures_drained(closures, now)),
    decreases closures.len(),
{
    if closures.len() > 0 {
        let c = closures[0];
        let next = s.ended(
            c.endpoint.key,
            c.endpoint.instance_id,
            c.process_id,
            now,
        ).with_action(ActionView::CompleteClassify(c.classify));
        lemma_drained(next, closures.drop_first(), now);
        assert forall|i: int| 0 <= i < s.actions.len() implies next.actions[i]
            == #[trigger] s.actions[i] by {}
    }
}

/// Shutdown leaves nothing that waits: every queued packet is completed as blocked, and no
/// request, closing endpoint or endpoint remains.
pub proof fn shutdown_resolves_everything<H, C>(s: DeviceView<H, C>, now: u64)
    ensures
        s.shut_down(now).queue == Seq::<Request<H>>::empty(),
        s.shut_down(now).closures == Map::<u64, ClosureView<C>>::empty(),
        s.shut_down(now).endpoints == Endpoints::empty(),
        s.shut_down(now).sockets == Sockets::empty(),
        forall|k: int|
            0 <= k < s.queue.len() ==> completed_as_blocked(
                s.shut_down(now),
                #[trigger] s.queue[k],
            ),
{
    let stopped = s.with_action(ActionView::Stop).drained();
    let resolved = stopped.requests_resolved(s.queue, now);
    lemma_resolved(stopped, s.queue, now);
    let ids = ordered_keys(resolved.closures.dom());
    let closures = ids.map_values(|id: u64| resolved.closures[id]);
    let emptied = DeviceView { closures: Map::<u64, ClosureView<C>>::empty(), ..resolved };
    lemma_drained(emptied, closures, now);
    assert forall|k: int| 0 <= k < s.queue.len() implies completed_as_blocked(
        s.shut_down(now),
        #[trigger] s.queue[k],
    ) by {
        assert(completed_as_blocked(resolved, s.queue[k]));
        assert(completed_as_blocked(emptied, s.queue[k])) by {
            lemma_blocked_stays(resolved, emptied, s.queue[k]);
        }
        let drained = emptied.closures_drained(closures, now);
        lemma_blocked_stays(emptied, drained, s.queue[k]);
        lemma_blocked_stays(drained, s.shut_down(now), s.queue[k]);
    }
}

/// A command stands at the same place of a longer buffer.
proof fn lemma_command_moves(a: Seq<u8>, b: Seq<u8>, offset: int, command: Command)
    requires
        0 <= offset,
    ensures
        command_at(b, offset, command) <==> command_at(a + b, a.len() + offset, command),
{
    let end = offset + command.encoded().len();
    if end <= b.len() {
        assert(b.subrange(offset, end) =~= (a + b).subrange(a.len() + offset, a.len() + end));
    }
}

/// What a write does from some place on does not depend on what stands before it.
proof fn lemma_written_moves<H, C>(
    s: DeviceView<H, C>,
    t: DeviceView<H, C>,
    a: Seq<u8>,
    b: Seq<u8>,
    offset: int,
    now: u64,
    result: Result<(), usize>,
)
    requires
        0 <= offset,
        a.len() + b.len() <= usize::MAX,
        written(s, t, b, offset, now, result),
    ensures
        written(s, t, a + b, a.len() + offset, now, moved(result, a.len())),
    decreases b.len() - offset,
{
    if offset < b.len() {
        if result == Err::<(), usize>(offset as usize) && write_stopped(s, t, b, offset) {
            assert((a + b).skip(a.len() + offset) =~= b.skip(offset));
            assert(no_command_at(a + b, a.len() + offset)) by {
                assert forall|command: Command| #[trigger]
                    command_at(a + b, a.len() + offset, command) implies !command_valid(
                    command,
                ) by {
                    lemma_command_moves(a, b, offset, command);
                }
            }
        } else {
            let (command, mid) = choose|command: Command, mid: DeviceView<H, C>|
                #[trigger] command_step(s, mid, b, offset, command, now) && written(
                    mid,
                    t,
                    b,
                    offset + command.encoded().len() as int,
                    now,
                    result,
                );
            let length = command.encoded().len() as int;
            lemma_command_moves(a, b, offset, command);
            command_length_is_fixed(command);
            lemma_written_moves(mid, t, a, b, offset + length, now, result);
            assert(a.len() + (offset + length) == a.len() + offset + length);
            assert(command_step(s, mid, a + b, a.len() + offset, command, now));
        }
    }
}

/// The place of an invalid command behind `n` more bytes.
pub open spec fn moved(result: Result<(), usize>, n: nat) -> Result<(), usize> {
    match result {
        Ok(()) => Ok(()),
        Err(offset) => Err((n + offset) as usize),
    }
}

proof fn lemma_written_joins<H, C>(
    s: DeviceView<H, C>,
    t: DeviceView<H, C>,
    u: DeviceView<H, C>,
    a: Seq<u8>,
    b: Seq<u8>,
    offset: int,
    now: u64,
    result: Result<(), usize>,
)
    requires
        0 <= offset <= a.len(),
        a.len() + b.len() <= usize::MAX,
        written(s, t, a, offset, now, Ok(())),
        written(t, u, b, 0, now, result),
    ensures
        written(s, u, a + b, offset, now, moved(result, a.len())),
    decreases a.len() - offset,
{
    if offset == a.len() {
        lemma_written_moves(t, u, a, b, 0, now, result);
    } else {
        let (command, mid) = choose|command: Command, mid: DeviceView<H, C>|
            #[trigger] command_step(s, mid, a, offset, command, now) && written(
                mid,
                t,
                a,
                offset + command.encoded().len() as int,
                now,
                Ok(()),
            );
        let length = command.encoded().len() as int;
        command_length_is_fixed(command);
        assert(a.subrange(offset, offset + length) =~= (a + b).subrange(offset, offset + length));
        assert(command_step(s, mid, a + b, offset, command, now));
        lemma_written_joins(mid, t, u, a, b, offset + length, now, result);
    }
}

/// Two writes one after the other do what one write of both buffers does: commands can be
/// joined in one buffer, and an invalid one is reported where it stands in it.
pub proof fn writes_can_be_joined<H, C>(
    s: DeviceView<H, C>,
    t: DeviceView<H, C>,
    u: DeviceView<H, C>,
    a: Seq<u8>,
    b: Seq<u8>,
    now: u64,
    result: Result<(), usize>,
)
    requires
        a.len() + b.len() <= usize::MAX,
        written(s, t, a, 0, now, Ok(())),
        written(t, u, b, 0, now, result),
    ensures
        written(s, u, a + b, 0, now, moved(result, a.len())),
{
    lemma_written_joins(s, t, u, a, b, 0, now, result);
}

/// Replacing a tuple's live connection by one with another verdict keeps it the one that a
/// read selects.
proof fn lemma_verdict_kept<A: AddressFamily>(
    m: MapView<A>,
    key: Key,
    verdict: Verdict,
    now: u64,
    use_ended_fallback: bool,
)
    requires
        exact_match(m, Query::live(key)) is Some,
    ensures
        ({
            let place = exact_match(m, Query::live(key))->Some_0;
            let c = Connection { verdict, ..at(m, place).spec_refreshed(now) };
            let n = map_set(m, place, c);
            best_match(n, key, use_ended_fallback) == Some(place) && at(n, place) == c
        }),
{
    let q = Query::live(key);
    lemma_exact_holds(m, q);
    let place = exact_match(m, q)->Some_0;
    let c = Connection { verdict, ..at(m, place).spec_refreshed(now) };
    let n = map_set(m, place, c);
    let before = generations(m, key);
    let after = generations(n, key);
    let i = place.2;
    assert(is_first(before, q, i));
    assert(after =~= before.update(i, c));
    assert forall|j: int| 0 <= j < i implies !q.accepts(#[trigger] after[j]) by {
        assert(!q.accepts(before[j]));
    }
    assert(is_first(after, q, i));
    lemma_first_unique(after, q, i);
}

/// The verdict that one exact connection generation gets is what a read of its tuple gives
/// back.
pub proof fn verdict_is_read_back<A: AddressFamily>(
    m: MapView<A>,
    key: Key,
    instance_id: u64,
    verdict: Verdict,
    now: u64,
    use_ended_fallback: bool,
)
    requires
        exact_match(m, Query::live(key)) matches Some(place) && at(m, place).instance_id
            == instance_id,
        instance_id != 0,
    ensures
        selected_info(with_verdict(m, key, instance_id, verdict, now), key, use_ended_fallback)
            matches Some(info) && info.verdict == verdict && info.instance_id == instance_id,
{
    let q = Query::live(key);
    let qi = Query::instance(key, instance_id);
    lemma_exact_holds(m, q);
    let place = exact_match(m, q)->Some_0;
    let s = generations(m, key);
    assert(is_first(s, q, place.2));
    assert(is_first(s, qi, place.2)) by {
        assert forall|j: int| 0 <= j < place.2 implies !qi.accepts(#[trigger] s[j]) by {
            assert(!q.accepts(s[j]));
        }
    }
    lemma_first_unique(s, qi, place.2);
    assert(instance_match(m, key, instance_id) == Some(place));
    lemma_verdict_kept(m, key, verdict, now, use_ended_fallback);
}

/// The verdict of an update is what a read of the tuple gives back.
pub proof fn update_is_read_back<A: AddressFamily>(
    m: MapView<A>,
    key: Key,
    verdict: Verdict,
    now: u64,
    use_ended_fallback: bool,
)
    requires
        exact_match(m, Query::live(key)) is Some,
    ensures
        selected_info(with_tuple_verdict(m, key, verdict, now), key, use_ended_fallback)
            matches Some(info) && info.verdict == verdict,
{
    lemma_verdict_kept(m, key, verdict, now, use_ended_fallback);
}

/// The exact tuple has a live connection of this generation in the family of its layer.
pub open spec fn is_current<H, C>(s: DeviceView<H, C>, key: Key, instance_id: u64) -> bool {
    instance_id != 0 && s.instance_of(key) == Some(instance_id)
}

/// A lasting verdict rules every later packet of its connection at the packet layer,
/// without asking again: a permanent one, one that fails closed, and one that redirects.
pub proof fn permanent_verdict_rules_later_packets<H, C>(
    s: DeviceView<H, C>,
    instance_id: u64,
    verdict: Verdict,
    decided_at: u64,
    inspection: PacketInspection,
    metadata: PacketMetadata,
    context: PacketContext,
    now: u64,
)
    requires
        inspection.metadata == Ok::<PacketMetadata, PacketMetadataError>(metadata),
        is_transport(metadata.key),
        !unconditional(metadata),
        context.ipv6 == metadata.key.spec_is_ipv6(),
        is_current(s, metadata.key, instance_id),
    ensures
        ({
            let decided = s.decided(metadata.key, instance_id, verdict, decided_at);
            let decision = decided.packet_decision(inspection, context, now);
            &&& verdict is PermanentAccept ==> decision is Permit
            &&& verdict is PermanentBlock ==> decision is BlockHard
            &&& verdict is PermanentDrop ==> decision is Absorb
            &&& verdict is Undeterminable || verdict is Failed ==> decision is Absorb
            &&& verdict.spec_is_redirect() ==> decision is Redirect
        }),
{
    let key = metadata.key;
    let history = !context.injected_by_other && context.direction is Outbound;
    if key.spec_is_ipv6() {
        verdict_is_read_back(s.connections_v6, key, instance_id, verdict, decided_at, history);
    } else {
        verdict_is_read_back(s.connections_v4, key, instance_id, verdict, decided_at, history);
    }
}

/// The verdict of a connection rules every later authorization of it, without asking again
/// unless the connection is undecided. What an authorization may do is fixed by the verdict,
/// the direction, and whether it comes from the process that holds the device.
pub proof fn verdict_rules_later_authorizations<H, C>(
    s: DeviceView<H, C>,
    instance_id: u64,
    verdict: Verdict,
    decided_at: u64,
    data: AleLayerData,
    injection: InjectionStatus,
)
    requires
        spec_classify_ale_injection(
            injection,
            data.protocol,
            data.spec_as_key().spec_is_loopback_like(),
            data.direction,
            data.packet_direction,
        ) is Process,
        is_authorized_protocol(data.protocol),
        !(data.protocol is Udp && data.direction is Outbound),
        data.is_ipv6 == data.spec_as_key().spec_is_ipv6(),
        is_current(s, data.spec_as_key(), instance_id),
    ensures
        ({
            let decided = s.decided(data.spec_as_key(), instance_id, verdict, decided_at);
            let decision = decided.ale_decision(data, injection);
            let outbound = data.direction is Outbound;
            match verdict {
                Verdict::Undecided => decision == (AleDecision::Save {
                    instance_id: Some(instance_id),
                }),
                Verdict::PermanentAccept
                | Verdict::Accept
                | Verdict::RedirectNameServer
                | Verdict::RedirectTunnel
                | Verdict::RedirectSplitTunnel => decision == permitted(
                    s.is_owner(data.process_id) && outbound,
                ),
                Verdict::PermanentBlock | Verdict::Undeterminable | Verdict::Failed => decision
                    == refused(ClassifyAction::BlockHard),
                Verdict::PermanentDrop => decision == refused(ClassifyAction::BlockAndAbsorb),
                Verdict::Block => decision == if outbound {
                    permitted(false)
                } else {
                    refused(ClassifyAction::BlockHard)
                },
                Verdict::Drop => decision == if outbound {
                    permitted(false)
                } else {
                    refused(ClassifyAction::BlockAndAbsorb)
                },
            }
        }),
{
    let key = data.spec_as_key();
    if key.spec_is_ipv6() {
        verdict_is_read_back(s.connections_v6, key, instance_id, verdict, decided_at, false);
    } else {
        verdict_is_read_back(s.connections_v4, key, instance_id, verdict, decided_at, false);
    }
}

/// An indication ends with this action.
pub open spec fn refused(action: ClassifyAction) -> AleDecision {
    AleDecision::Act { action, protect: false }
}

/// The maps differ only in live connections that ended at `now`.
pub open spec fn only_ended<A: AddressFamily>(m: MapView<A>, n: MapView<A>, now: u64) -> bool {
    forall|p: Place<A>|
        #![trigger holds(m, p)]
        #![trigger holds(n, p)]
        holds(m, p) == holds(n, p) && (holds(m, p) ==> at(n, p) == at(m, p) || (at(m, p).live()
            && at(n, p) == at(m, p).spec_ended(now)))
}

/// Between the two states connections ended at `now` and reports were added; no connection
/// changed otherwise, and no report was lost.
pub open spec fn ends_only<H, C>(s: DeviceView<H, C>, t: DeviceView<H, C>, now: u64) -> bool {
    &&& only_ended(s.connections_v4, t.connections_v4, now)
    &&& only_ended(s.connections_v6, t.connections_v6, now)
    &&& s.events.len() <= t.events.len()
    &&& forall|i: int| 0 <= i < s.events.len() ==> t.events[i] == #[trigger] s.events[i]
}

proof fn lemma_end_only_ends<A: AddressFamily>(
    m: MapView<A>,
    key: Key,
    instance_id: u64,
    now: u64,
)
    ensures
        only_ended(m, with_end(m, key, instance_id, now), now),
{
    lemma_exact_holds(m, Query::instance(key, instance_id));
}

proof fn lemma_ends_only_joins<H, C>(
    s: DeviceView<H, C>,
    t: DeviceView<H, C>,
    u: DeviceView<H, C>,
    now: u64,
)
    requires
        ends_only(s, t, now),
        ends_only(t, u, now),
    ensures
        ends_only(s, u, now),
{
    assert forall|i: int| 0 <= i < s.events.len() implies u.events[i] == #[trigger] s.events[i] by {
        assert(t.events[i] == s.events[i]);
    }
    assert forall|p: Place<Ipv4Address>|
        #![trigger holds(s.connections_v4, p)]
        #![trigger holds(u.connections_v4, p)]
        holds(s.connections_v4, p) == holds(u.connections_v4, p) && (holds(s.connections_v4, p)
            ==> at(u.connections_v4, p) == at(s.connections_v4, p) || (at(
            s.connections_v4,
            p,
        ).live() && at(u.connections_v4, p) == at(s.connections_v4, p).spec_ended(now))) by {
        assert(holds(s.connections_v4, p) == holds(t.connections_v4, p));
        assert(holds(t.connections_v4, p) == holds(u.connections_v4, p));
    }
    assert forall|p: Place<Ipv6Address>|
        #![trigger holds(s.connections_v6, p)]
        #![trigger holds(u.connections_v6, p)]
        holds(s.connections_v6, p) == holds(u.connections_v6, p) && (holds(s.connections_v6, p)
            ==> at(u.connections_v6, p) == at(s.connections_v6, p) || (at(
            s.connections_v6,
            p,
        ).live() && at(u.connections_v6, p) == at(s.connections_v6, p).spec_ended(now))) by {
        assert(holds(s.connections_v6, p) == holds(t.connections_v6, p));
        assert(holds(t.connections_v6, p) == holds(u.connections_v6, p));
    }
}

proof fn lemma_completed_ends_only<H, C>(
    s: DeviceView<H, C>,
    endpoints: Seq<TcpEndpointConnection>,
    now: u64,
)
    ensures
        ends_only(s, s.completed_all(endpoints, now), now),
    decreases endpoints.len(),
{
    if endpoints.len() > 0 {
        let e = endpoints[0];
        let next = s.completed(e, now);
        lemma_end_only_ends(s.connections_v4, e.key, e.instance_id, now);
        lemma_end_only_ends(s.connections_v6, e.key, e.instance_id, now);
        assert(ends_only(s, next, now));
        lemma_completed_ends_only(next, endpoints.drop_first(), now);
        lemma_ends_only_joins(s, next, s.completed_all(endpoints, now), now);
    }
}

proof fn lemma_discarded_ends_only<H, C>(s: DeviceView<H, C>, requests: Seq<Request<H>>, now: u64)
    ensures
        ends_only(s, s.discarded_all(requests, now), now),
    decreases requests.len(),
{
    if requests.len() > 0 {
        let next = s.discarded(requests[0], now);
        let id = requests[0].id;
        let closures = without_awaited(s.closures, id);
        let held = s.with_action(
            ActionView::Inject {
                packet: requests[0].value.packet@,
                blocked: true,
                reset_first: false,
            },
        );
        let waiting = DeviceView { in_progress: held.in_progress.remove(id), closures, ..held };
        assert(next == waiting.completed_all(ready(closures), now));
        lemma_completed_ends_only(waiting, ready(closures), now);
        assert(ends_only(s, next, now));
        lemma_discarded_ends_only(next, requests.drop_first(), now);
        lemma_ends_only_joins(s, next, s.discarded_all(requests, now), now);
    }
}

/// Retiring the requests of some generations may complete closing endpoints, whose
/// connections then end; it changes no connection otherwise and takes back no report.
pub proof fn retirement_ends_only<H, C>(s: DeviceView<H, C>, instance_ids: Seq<u64>, now: u64)
    ensures
        ends_only(s, s.retired(instance_ids, now), now),
{
    let queued = DeviceView { queue: after_retirement(s.queue, instance_ids), ..s };
    lemma_discarded_ends_only(queued, retired(s.queue, instance_ids), now);
}

/// A connection that a bulk operation ends is among those that it reports.
proof fn lemma_ended_is_reported<A: AddressFamily>(
    g: GroupView<A>,
    selection: Selection,
    endpoint: EndpointKey<A>,
    i: int,
    now: u64,
) -> (n: int)
    requires
        g.dom().finite(),
        occupied(g, endpoint, i),
        selection.selects(g[endpoint][i]),
    ensures
        0 <= n < selection.reported(group_sequence(g), now).len(),
        selection.reported(group_sequence(g), now)[n] == g[endpoint][i].spec_ended(now),
{
    A::lemma_family();
    let keys = ordered_keys(g.dom());
    ordered_keys_list_the_set(g.dom());
    assert(keys.to_set().contains(endpoint));
    let k = choose|k: int| 0 <= k < keys.len() && keys[k] == endpoint;
    let j = lemma_concat_holds(keys, g, k, i);
    let s = group_sequence(g);
    let selects = |c: Connection<A>| selection.selects(c);
    assert(selects(s[j]));
    lemma_filter_target(s, selects, j);
    choose|n: int| 0 <= n < s.filter(selects).len() && #[trigger] s.filter(selects)[n] == s[j]
}

/// Releasing a local IPv4 endpoint ends every live connection of it that belongs to the
/// process, and each of them is reported. Elsewhere only connections of closing endpoints
/// end, whose last request was retired with the port.
pub proof fn released_port_keeps_no_connection_v4<H, C>(
    s: DeviceView<H, C>,
    endpoint: (IpProtocol, u16),
    local_address: Option<IpAddress>,
    process_id: u64,
    now: u64,
    p: Place<Ipv4Address>,
)
    requires
        holds(s.connections_v4, p),
        s.connections_v4[p.0].dom().finite(),
    ensures
        ({
            let t = s.port_released_v4(endpoint, local_address, process_id, now);
            let c = at(s.connections_v4, p);
            let selected = p.0 == group_key(endpoint) && endpoint_selection(
                local_address,
                process_id,
            ).selects(c);
            &&& ends_only(s, t, now)
            &&& holds(t.connections_v4, p)
            &&& selected ==> at(t.connections_v4, p) == c.spec_ended(now)
            &&& selected ==> t.events.contains(end_event_v4(c, process_id))
        }),
{
    let group = group_key(endpoint);
    let selection = endpoint_selection(local_address, process_id);
    if s.connections_v4.contains_key(group) {
        let g = s.connections_v4[group];
        let ended = selection.reported(group_sequence(g), now);
        let records = ended.map_values(|c: ConnectionV4| end_event_v4(c, process_id));
        let middle = DeviceView {
            connections_v4: s.connections_v4.insert(group, group_applied(g, selection, now)),
            events: s.events + records,
            ..s
        };
        let ids = ended.map_values(|c: ConnectionV4| c.instance_id);
        assert(ends_only(s, middle, now));
        retirement_ends_only(middle, ids, now);
        lemma_ends_only_joins(s, middle, middle.retired(ids, now), now);
        assert(holds(middle.connections_v4, p));
        let c = at(s.connections_v4, p);
        if p.0 == group && selection.selects(c) {
            let n = lemma_ended_is_reported(g, selection, p.1, p.2, now);
            assert(records[n] == end_event_v4(c, process_id));
            let i = s.events.len() + n;
            assert(middle.events[i] == records[n]);
            assert(middle.retired(ids, now).events[i] == middle.events[i]);
        }
    }
}

/// Releasing a local IPv6 endpoint ends every live connection of it that belongs to the
/// process, and each of them is reported. Elsewhere only connections of closing endpoints
/// end, whose last request was retired with the port.
pub proof fn released_port_keeps_no_connection_v6<H, C>(
    s: DeviceView<H, C>,
    endpoint: (IpProtocol, u16),
    local_address: Option<IpAddress>,
    process_id: u64,
    now: u64,
    p: Place<Ipv6Address>,
)
    requires
        holds(s.connections_v6, p),
        s.connections_v6[p.0].dom().finite(),
    ensures
        ({
            let t = s.port_released_v6(endpoint, local_address, process_id, now);
            let c = at(s.connections_v6, p);
            let selected = p.0 == group_key(endpoint) && endpoint_selection(
                local_address,
                process_id,
            ).selects(c);
            &&& ends_only(s, t, now)
            &&& holds(t.connections_v6, p)
            &&& selected ==> at(t.connections_v6, p) == c.spec_ended(now)
            &&& selected ==> t.events.contains(end_event_v6(c, process_id))
        }),
{
    let group = group_key(endpoint);
    let selection = endpoint_selection(local_address, process_id);
    if s.connections_v6.contains_key(group) {
        let g = s.connections_v6[group];
        let ended = selection.reported(group_sequence(g), now);
        let records = ended.map_values(|c: ConnectionV6| end_event_v6(c, process_id));
        let middle = DeviceView {
            connections_v6: s.connections_v6.insert(group, group_applied(g, selection, now)),
            events: s.events + records,
            ..s
        };
        let ids = ended.map_values(|c: ConnectionV6| c.instance_id);
        assert(ends_only(s, middle, now));
        retirement_ends_only(middle, ids, now);
        lemma_ends_only_joins(s, middle, middle.retired(ids, now), now);
        assert(holds(middle.connections_v6, p));
        let c = at(s.connections_v6, p);
        if p.0 == group && selection.selects(c) {
            let n = lemma_ended_is_reported(g, selection, p.1, p.2, now);
            assert(records[n] == end_event_v6(c, process_id));
            let i = s.events.len() + n;
            assert(middle.events[i] == records[n]);
            assert(middle.retired(ids, now).events[i] == middle.events[i]);
        }
    }
}

} // verus!
