//! What the end of a connection does to the packets that wait for it.

use crate::ale_callouts::known_process;
use crate::connection::AddressFamily;
use crate::connection_cache::with_end;
use crate::connection_map::{
    at, exact_match, group_key, holds, lemma_exact_holds, map_set, MapView, Place, Query,
};
use crate::device_state::{ActionView, ClosureView, DeviceView};
use crate::id_cache::{
    after_retirement, blocks_closure, owned, queued_awaited, retired, survives, Request,
};
use crate::ip::{protocol_rank_is_injective, IpAddress, IpProtocol};
use crate::key::Key;
use crate::lists::{lemma_filter_source, lemma_filter_target};
use crate::record_laws::{ended_connection_is_reported, reports_end};
use crate::state_laws::{
    better_owner, ending_removes_the_live_connection, established_flow_names_the_process, knows,
    lacks, lemma_missing_is_not_live, lemma_replaced, lemma_stored_place, misses, stores, Known,
};
use crate::tcp_endpoint_cache::TcpEndpointConnection;
use crate::udp_endpoint_cache::UdpEndpointPeer;
use crate::verdict_laws::{completes, lemma_nothing_closes, outlives_its_connection};
use vstd::prelude::*;

verus! {

/// No TCP endpoint waits for its requests before it closes.
pub open spec fn nothing_closes<H, C>(s: DeviceView<H, C>) -> bool {
    s.closures == Map::<u64, ClosureView<C>>::empty()
}

/// The actions that complete some packets as blocked.
pub open spec fn blocked_all<H, C>(requests: Seq<Request<H>>) -> Seq<ActionView<H, C>> {
    requests.map_values(
        |r: Request<H>|
            ActionView::<H, C>::Inject {
                packet: r.value.packet@,
                blocked: true,
                reset_first: false,
            },
    )
}

proof fn lemma_discarded_quietly<H, C>(s: DeviceView<H, C>, requests: Seq<Request<H>>, now: u64)
    requires
        nothing_closes(s),
    ensures
        ({
            let t = s.discarded_all(requests, now);
            &&& t == (DeviceView { in_progress: t.in_progress, actions: t.actions, ..s })
            &&& t.actions == s.actions + blocked_all::<H, C>(requests)
        }),
    decreases requests.len(),
{
    let t = s.discarded_all(requests, now);
    if requests.len() > 0 {
        let r = requests[0];
        let held = s.with_action(
            ActionView::Inject { packet: r.value.packet@, blocked: true, reset_first: false },
        );
        lemma_nothing_closes(held, r.id, now);
        let next = s.discarded(r, now);
        lemma_discarded_quietly(next, requests.drop_first(), now);
        assert(blocked_all::<H, C>(requests) =~= seq![
            ActionView::<H, C>::Inject {
                packet: r.value.packet@,
                blocked: true,
                reset_first: false,
            },
        ] + blocked_all::<H, C>(requests.drop_first()));
        assert(t.actions =~= s.actions + blocked_all::<H, C>(requests));
    } else {
        assert(t.actions =~= s.actions + blocked_all::<H, C>(requests));
    }
}

/// Retiring requests changes neither connections nor reports as long as no endpoint waits.
pub proof fn lemma_retired_quietly<H, C>(s: DeviceView<H, C>, ids: Seq<u64>, now: u64)
    requires
        nothing_closes(s),
    ensures
        ({
            let t = s.retired(ids, now);
            &&& t == (DeviceView {
                queue: after_retirement(s.queue, ids),
                in_progress: t.in_progress,
                actions: t.actions,
                ..s
            })
            &&& t.actions == s.actions + blocked_all::<H, C>(retired(s.queue, ids))
        }),
{
    lemma_discarded_quietly(
        DeviceView { queue: after_retirement(s.queue, ids), ..s },
        retired(s.queue, ids),
        now,
    );
}

/// When connection generations end, each packet that waits under one of them is completed as
/// blocked and waits no more. The exception is a datagram that has already left its program:
/// it goes on waiting, under no connection. Packets of other generations wait as before.
pub proof fn retirement_blocks_waiting_packets<H, C>(
    s: DeviceView<H, C>,
    ids: Seq<u64>,
    now: u64,
    k: int,
)
    requires
        nothing_closes(s),
        0 <= k < s.queue.len(),
    ensures
        ({
            let t = s.retired(ids, now);
            let r = s.queue[k];
            let ended = r.value.connection_instance_id matches Some(id) && id != 0 && ids.contains(
                id,
            );
            let blocked = ended && !outlives_its_connection(r.value.key, r.value.packet@);
            &&& blocked ==> exists|i: int|
                s.actions.len() <= i && #[trigger] completes(t, i, r.value.packet@, true, false)
            &&& !blocked ==> exists|j: int|
                {
                    &&& 0 <= j < t.queue.len()
                    &&& (#[trigger] t.queue[j]).id == r.id
                    &&& t.queue[j].value.key == r.value.key
                    &&& t.queue[j].value.packet == r.value.packet
                    &&& t.queue[j].value.connection_instance_id == if ended {
                        None
                    } else {
                        r.value.connection_instance_id
                    }
                }
        }),
        forall|j: int| #![trigger s.retired(ids, now).queue[j]]
            0 <= j < s.retired(ids, now).queue.len() ==> !(s.retired(ids, now).queue[j]
            .value.connection_instance_id matches Some(id) && id != 0 && ids.contains(id)),
{
    let t = s.retired(ids, now);
    let r = s.queue[k];
    lemma_retired_quietly(s, ids, now);
    let keep = |e: Request<H>|
        !owned(e, ids) || survives(e);
    let drop = |e: Request<H>| owned(e, ids) && !survives(e);
    if drop(r) {
        lemma_filter_target(s.queue, drop, k);
        let i = choose|i: int|
            0 <= i < s.queue.filter(drop).len() && #[trigger] s.queue.filter(drop)[i] == s.queue[k];
        assert(blocked_all::<H, C>(retired(s.queue, ids))[i] == (ActionView::<H, C>::Inject {
            packet: r.value.packet@,
            blocked: true,
            reset_first: false,
        }));
        assert(completes(t, s.actions.len() + i, r.value.packet@, true, false));
    } else {
        lemma_filter_target(s.queue, keep, k);
        let j = choose|j: int|
            0 <= j < s.queue.filter(keep).len() && #[trigger] s.queue.filter(keep)[j] == s.queue[k];
        assert(t.queue[j].id == r.id);
    }
    assert forall|j: int| #![trigger t.queue[j]] 0 <= j < t.queue.len() implies !(t.queue[j]
        .value.connection_instance_id matches Some(id) && id != 0 && ids.contains(id)) by {
        lemma_filter_source(s.queue, keep, j);
    }
}

/// An endpoint that closes ends exactly the connection between its local and its remote
/// endpoint, reports it, and completes what waits under it as blocked. A closure that leaves
/// one of the fields open ends nothing.
pub proof fn closed_tuple_ends_its_connection<H, C>(
    s: DeviceView<H, C>,
    key: Key,
    known: Known,
    process_id: Option<u64>,
    now: u64,
    other: Key,
    other_known: Known,
    k: int,
)
    requires
        nothing_closes(s),
        knows(s, key, known),
        known.instance_id != 0,
    ensures
        ({
            let t = s.endpoint_closed(
                key.protocol,
                Some(key.local_address),
                Some(key.local_port),
                Some(key.remote_address),
                Some(key.remote_port),
                process_id,
                now,
            );
            &&& misses(t, key)
            &&& knows(s, other, other_known) && other != key ==> knows(t, other, other_known)
            &&& t.events.len() == s.events.len() + 1
            &&& reports_end(
                t.events.last(),
                key,
                known.opened,
                match process_id {
                    Some(pid) => pid,
                    None => 0,
                },
            )
            &&& 0 <= k < s.queue.len() && s.queue[k].value.connection_instance_id == Some(
                known.instance_id,
            ) && !outlives_its_connection(s.queue[k].value.key, s.queue[k].value.packet@)
                ==> exists|i: int|
                s.actions.len() <= i && #[trigger] completes(
                    t,
                    i,
                    s.queue[k].value.packet@,
                    true,
                    false,
                )
        }),
{
    let pid = known_process(process_id);
    ending_removes_the_live_connection(s, key, known, pid, now, other, other_known);
    ended_connection_is_reported(s, key, known, pid, now);
    if key.local_address is Ipv6 {
        let p = lemma_stored_place(s.connections_v6, key, known);
    } else {
        let p = lemma_stored_place(s.connections_v4, key, known);
    }
    let e = s.ended(key, known.instance_id, pid, now);
    let ids = seq![known.instance_id];
    assert(ids[0] == known.instance_id);
    assert(nothing_closes(e));
    lemma_retired_quietly(e, ids, now);
    if 0 <= k < s.queue.len() {
        retirement_blocks_waiting_packets(e, ids, now, k);
    }
}

/// An endpoint closure with an open field ends nothing.
pub proof fn closure_without_a_peer_is_ignored<H, C>(
    s: DeviceView<H, C>,
    protocol: IpProtocol,
    local_address: Option<IpAddress>,
    local_port: Option<u16>,
    remote_address: Option<IpAddress>,
    remote_port: Option<u16>,
    process_id: Option<u64>,
    now: u64,
)
    requires
        local_address is None || local_port is None || remote_address is None || remote_port
            is None,
    ensures
        s.endpoint_closed(
            protocol,
            local_address,
            local_port,
            remote_address,
            remote_port,
            process_id,
            now,
        ) == s,
        forall|p: Option<IpProtocol>| #[trigger]
            s.flow_indicated(
                p,
                local_address,
                local_port,
                remote_address,
                remote_port,
                process_id,
                now,
            ) == s,
{
}

/// A TCP or UDP flow that becomes active tells the connection between its two endpoints which
/// process owns it. One whose process is not known tells nothing, and neither does a flow of
/// another protocol.
pub proof fn active_flow_names_the_process<H, C>(
    s: DeviceView<H, C>,
    key: Key,
    known: Known,
    process_id: Option<u64>,
    now: u64,
    other: Key,
    other_known: Known,
)
    requires
        knows(s, key, known),
        known.instance_id != 0,
    ensures
        ({
            let t = s.flow_indicated(
                Some(key.protocol),
                Some(key.local_address),
                Some(key.local_port),
                Some(key.remote_address),
                Some(key.remote_port),
                process_id,
                now,
            );
            &&& !(key.protocol is Tcp || key.protocol is Udp) || process_id is None || process_id
                == Some(0u64) ==> t == s
            &&& (key.protocol is Tcp || key.protocol is Udp) ==> (process_id matches Some(pid)
                ==> knows(
                t,
                key,
                Known { process_id: better_owner(known.process_id, pid), ..known },
            ))
            &&& knows(s, other, other_known) && other != key ==> knows(t, other, other_known)
        }),
{
    let pid = known_process(process_id);
    established_flow_names_the_process(s, key, known, pid, now, other, other_known);
}

proof fn lemma_end_keeps_lacking<A: AddressFamily>(
    m: MapView<A>,
    key: Key,
    ended: Key,
    instance_id: u64,
    now: u64,
)
    requires
        lacks(m, key),
    ensures
        lacks(with_end(m, ended, instance_id, now), key),
{
    let q = Query::instance(ended, instance_id);
    lemma_exact_holds(m, q);
    if let Some(p) = exact_match(m, q) {
        let c = at(m, p).spec_ended(now);
        lemma_replaced(m, p, c);
        let n = map_set(m, p, c);
        assert forall|q: Place<A>| #[trigger] holds(n, q) && at(n, q).end_time is None implies at(
            n,
            q,
        ).spec_key() != key by {
            assert(holds(m, q));
        }
    }
}

/// A tuple without a live connection stays without one when others end.
pub proof fn lemma_ended_keeps_missing<H, C>(
    s: DeviceView<H, C>,
    key: Key,
    ended: Key,
    instance_id: u64,
    process_id: u64,
    now: u64,
)
    requires
        misses(s, key),
    ensures
        misses(s.ended(ended, instance_id, process_id, now), key),
{
    if key.local_address is Ipv6 {
        lemma_end_keeps_lacking(s.connections_v6, key, ended, instance_id, now);
    } else {
        lemma_end_keeps_lacking(s.connections_v4, key, ended, instance_id, now);
    }
}

proof fn lemma_peers_missing<H, C>(
    s: DeviceView<H, C>,
    peers: Seq<UdpEndpointPeer>,
    process_id: u64,
    now: u64,
    key: Key,
)
    requires
        misses(s, key),
    ensures
        misses(s.peers_ended(peers, process_id, now), key),
        s.peers_ended(peers, process_id, now).closures == s.closures,
        s.peers_ended(peers, process_id, now).queue == s.queue,
    decreases peers.len(),
{
    if peers.len() > 0 {
        lemma_ended_keeps_missing(s, key, peers[0].key, peers[0].instance_id, process_id, now);
        lemma_peers_missing(
            s.ended(peers[0].key, peers[0].instance_id, process_id, now),
            peers.drop_first(),
            process_id,
            now,
            key,
        );
    }
}

proof fn lemma_peers_ended<H, C>(
    s: DeviceView<H, C>,
    peers: Seq<UdpEndpointPeer>,
    process_id: u64,
    now: u64,
    n: int,
    known: Known,
)
    requires
        0 <= n < peers.len(),
        knows(s, peers[n].key, known),
        known.instance_id == peers[n].instance_id,
        known.instance_id != 0,
    ensures
        misses(s.peers_ended(peers, process_id, now), peers[n].key),
        s.peers_ended(peers, process_id, now).closures == s.closures,
    decreases peers.len(),
{
    let first = peers[0];
    let key = peers[n].key;
    let t = s.ended(first.key, first.instance_id, process_id, now);
    if first.key == key && first.instance_id == known.instance_id {
        ending_removes_the_live_connection(s, key, known, process_id, now, key, known);
        lemma_peers_missing(t, peers.drop_first(), process_id, now, key);
    } else {
        assert(n > 0);
        lemma_other_end_keeps(s, first.key, first.instance_id, process_id, now, key, known);
        assert(peers.drop_first()[n - 1] == peers[n]);
        lemma_peers_ended(t, peers.drop_first(), process_id, now, n - 1, known);
    }
}

proof fn lemma_with_end_keeps<A: AddressFamily>(
    m: MapView<A>,
    ended: Key,
    instance_id: u64,
    now: u64,
    key: Key,
    known: Known,
)
    requires
        stores(m, key, known),
        ended != key || instance_id != known.instance_id,
    ensures
        stores(with_end(m, ended, instance_id, now), key, known),
{
    let q = Query::instance(ended, instance_id);
    lemma_exact_holds(m, q);
    let own = lemma_stored_place(m, key, known);
    if let Some(p) = exact_match(m, q) {
        let c = at(m, p).spec_ended(now);
        lemma_replaced(m, p, c);
        let n = map_set(m, p, c);
        if p == own {
            // The place of a found connection is that of the tuple it was found under.
            assert(m.contains_key(p.0) && m[p.0].contains_key(p.1));
            assert(group_key(m[p.0][p.1][p.2].spec_key().spec_small())
                == p.0);
            protocol_rank_is_injective(at(m, p).protocol, ended.protocol);
            assert(at(m, p).spec_key() == ended);
        }
        assert(holds(n, own));
    }
}

/// Ending another generation leaves a live connection as it is.
pub proof fn lemma_other_end_keeps<H, C>(
    s: DeviceView<H, C>,
    ended: Key,
    instance_id: u64,
    process_id: u64,
    now: u64,
    key: Key,
    known: Known,
)
    requires
        knows(s, key, known),
        ended != key || instance_id != known.instance_id,
    ensures
        knows(s.ended(ended, instance_id, process_id, now), key, known),
{
    if key.local_address is Ipv6 {
        lemma_with_end_keeps(s.connections_v6, ended, instance_id, now, key, known);
    } else {
        lemma_with_end_keeps(s.connections_v4, ended, instance_id, now, key, known);
    }
}

/// A UDP socket that closes ends the connections to all of its peers and is forgotten. Each end
/// is reported under the closing process, and what waits under one of these connections is
/// completed as blocked.
pub proof fn closed_socket_ends_its_peers<H, C>(
    s: DeviceView<H, C>,
    handle: u64,
    process_id: u64,
    now: u64,
    n: int,
    known: Known,
    k: int,
)
    requires
        nothing_closes(s),
        handle != 0,
        s.sockets.contains_key(handle),
        0 <= n < s.sockets[handle].len(),
        knows(s, s.sockets[handle][n].key, known),
        known.instance_id == s.sockets[handle][n].instance_id,
        known.instance_id != 0,
    ensures
        ({
            let t = s.socket_closed(handle, process_id, now);
            &&& misses(t, s.sockets[handle][n].key)
            &&& !t.sockets.contains_key(handle)
            &&& exists|j: int|
                s.events.len() <= j < t.events.len() && reports_end(
                    #[trigger] t.events[j],
                    s.sockets[handle][n].key,
                    known.opened,
                    process_id,
                )
            &&& 0 <= k < s.queue.len() && s.queue[k].value.connection_instance_id == Some(
                known.instance_id,
            ) && !outlives_its_connection(s.queue[k].value.key, s.queue[k].value.packet@)
                ==> exists|i: int|
                s.actions.len() <= i && #[trigger] completes(
                    t,
                    i,
                    s.queue[k].value.packet@,
                    true,
                    false,
                )
        }),
        s.socket_closed(0, process_id, now) == s,
{
    let peers = s.sockets[handle];
    let start = DeviceView { sockets: s.sockets.remove(handle), ..s };
    lemma_peers_ended(start, peers, process_id, now, n, known);
    lemma_peers_reported(start, peers, process_id, now, n, known);
    lemma_peers_touch_no_socket(start, peers, process_id, now);
    let ended = start.peers_ended(peers, process_id, now);
    let ids = peers.map_values(|p: UdpEndpointPeer| p.instance_id);
    lemma_peers_keep_events(start, peers, process_id, now);
    lemma_retired_quietly(ended, ids, now);
    assert(ids[n] == known.instance_id);
    let j = choose|j: int|
        start.events.len() <= j < ended.events.len() && reports_end(
            #[trigger] ended.events[j],
            peers[n].key,
            known.opened,
            process_id,
        );
    assert(s.socket_closed(handle, process_id, now).events[j] == ended.events[j]);
    if 0 <= k < s.queue.len() {
        retirement_blocks_waiting_packets(ended, ids, now, k);
    }
}

proof fn lemma_peers_reported<H, C>(
    s: DeviceView<H, C>,
    peers: Seq<UdpEndpointPeer>,
    process_id: u64,
    now: u64,
    n: int,
    known: Known,
)
    requires
        0 <= n < peers.len(),
        knows(s, peers[n].key, known),
        known.instance_id == peers[n].instance_id,
        known.instance_id != 0,
    ensures
        exists|j: int|
            s.events.len() <= j < s.peers_ended(peers, process_id, now).events.len()
                && reports_end(
                #[trigger] s.peers_ended(peers, process_id, now).events[j],
                peers[n].key,
                known.opened,
                process_id,
            ),
    decreases peers.len(),
{
    let first = peers[0];
    let key = peers[n].key;
    let rest = peers.drop_first();
    let t = s.ended(first.key, first.instance_id, process_id, now);
    let u = s.peers_ended(peers, process_id, now);
    assert(u == t.peers_ended(rest, process_id, now));
    lemma_peers_keep_events(t, rest, process_id, now);
    if first.key == key && first.instance_id == known.instance_id {
        ended_connection_is_reported(s, key, known, process_id, now);
        let j = s.events.len() as int;
        assert(t.events.last() == t.events[j]);
        assert(u.events.take(t.events.len() as int)[j] == u.events[j]);
        assert(u.events[j] == t.events[j]);
    } else {
        lemma_other_end_keeps(s, first.key, first.instance_id, process_id, now, key, known);
        assert(rest[n - 1] == peers[n]);
        lemma_peers_reported(t, rest, process_id, now, n - 1, known);
        let j = choose|j: int|
            t.events.len() <= j < u.events.len() && reports_end(
                #[trigger] u.events[j],
                key,
                known.opened,
                process_id,
            );
        assert(s.events.len() <= j);
    }
}

proof fn lemma_peers_keep_events<H, C>(
    s: DeviceView<H, C>,
    peers: Seq<UdpEndpointPeer>,
    process_id: u64,
    now: u64,
)
    ensures
        ({
            let t = s.peers_ended(peers, process_id, now);
            &&& t.events.len() >= s.events.len()
            &&& t.events.take(s.events.len() as int) == s.events
            &&& t.queue == s.queue && t.actions == s.actions
        }),
    decreases peers.len(),
{
    let t = s.peers_ended(peers, process_id, now);
    if peers.len() > 0 {
        let e = s.ended(peers[0].key, peers[0].instance_id, process_id, now);
        lemma_peers_keep_events(e, peers.drop_first(), process_id, now);
        let n = s.events.len() as int;
        assert(t.events.take(e.events.len() as int).take(n) =~= t.events.take(n));
        assert(e.events.take(n) =~= s.events);
    } else {
        assert(t.events.take(s.events.len() as int) =~= s.events);
    }
}

proof fn lemma_peers_touch_no_socket<H, C>(
    s: DeviceView<H, C>,
    peers: Seq<UdpEndpointPeer>,
    process_id: u64,
    now: u64,
)
    ensures
        s.peers_ended(peers, process_id, now).sockets == s.sockets,
    decreases peers.len(),
{
    if peers.len() > 0 {
        lemma_peers_touch_no_socket(
            s.ended(peers[0].key, peers[0].instance_id, process_id, now),
            peers.drop_first(),
            process_id,
            now,
        );
    }
}

/// A packet that waits, or whose verdict is being applied, belongs to the endpoint: it waits
/// under its connection generation, or it is the other side of traffic of the machine with
/// itself.
pub open spec fn belongs_to(
    endpoint: TcpEndpointConnection,
    key: Key,
    connection_instance_id: Option<u64>,
) -> bool {
    let local = endpoint.key.local_address;
    let to_itself = local == endpoint.key.remote_address || match local {
        IpAddress::Ipv4(address) => address.0 / 0x100_0000 == 127,
        IpAddress::Ipv6(address) => address.high == 0 && address.low == 1,
    };
    ||| connection_instance_id == Some(endpoint.instance_id)
    ||| to_itself && key.protocol == endpoint.key.protocol && key.local_address
        == endpoint.key.remote_address && key.local_port == endpoint.key.remote_port
        && key.remote_address == endpoint.key.local_address && key.remote_port
        == endpoint.key.local_port
}

/// A TCP endpoint that closes waits exactly as long as a packet of its flow waits for user
/// space or has a verdict that is being applied. Otherwise its connection ends at once, and an
/// endpoint whose connection has ended before has nothing left to do.
pub proof fn closing_endpoint_waits_for_its_packets<H, C>(
    s: DeviceView<H, C>,
    endpoint: TcpEndpointConnection,
    known: Known,
)
    requires
        endpoint.instance_id != 0,
    ensures
        knows(s, endpoint.key, known) && known.instance_id == endpoint.instance_id ==> ({
            let waits = (exists|k: int|
                0 <= k < s.queue.len() && belongs_to(
                    endpoint,
                    (#[trigger] s.queue[k]).value.key,
                    s.queue[k].value.connection_instance_id,
                )) || (exists|id: u64| #[trigger]
                s.in_progress.contains_key(id) && belongs_to(
                    endpoint,
                    s.in_progress[id].key,
                    s.in_progress[id].connection_instance_id,
                ));
            &&& waits ==> s.closure_step(endpoint) is Wait
            &&& !waits ==> s.closure_step(endpoint) is End
        }),
        misses(s, endpoint.key) ==> s.closure_step(endpoint) is Ignore,
{
    let key = endpoint.key;
    if knows(s, key, known) && known.instance_id == endpoint.instance_id {
        if key.local_address is Ipv6 {
            let p = lemma_stored_place(s.connections_v6, key, known);
        } else {
            let p = lemma_stored_place(s.connections_v4, key, known);
        }
        if exists|k: int|
            0 <= k < s.queue.len() && belongs_to(
                endpoint,
                (#[trigger] s.queue[k]).value.key,
                s.queue[k].value.connection_instance_id,
            ) {
            let k = choose|k: int|
                0 <= k < s.queue.len() && belongs_to(
                    endpoint,
                    (#[trigger] s.queue[k]).value.key,
                    s.queue[k].value.connection_instance_id,
                );
            assert(blocks_closure(s.queue[k], key, endpoint.instance_id));
            assert(s.queue[k].spec_id() == s.queue[k].id);
            assert(s.is_awaited(endpoint, s.queue[k].id));
        }
        if exists|id: u64| #[trigger]
            s.in_progress.contains_key(id) && belongs_to(
                endpoint,
                s.in_progress[id].key,
                s.in_progress[id].connection_instance_id,
            ) {
            let id = choose|id: u64| #[trigger]
                s.in_progress.contains_key(id) && belongs_to(
                    endpoint,
                    s.in_progress[id].key,
                    s.in_progress[id].connection_instance_id,
                );
            assert(s.is_awaited(endpoint, id));
        }
        if exists|id: u64| s.is_awaited(endpoint, id) {
            let id = choose|id: u64| s.is_awaited(endpoint, id);
            if queued_awaited(s.queue, key, endpoint.instance_id, id) {
                let k = choose|k: int|
                    0 <= k < s.queue.len() && (#[trigger] s.queue[k]).spec_id() == id
                        && blocks_closure(s.queue[k], key, endpoint.instance_id);
                assert(belongs_to(
                    endpoint,
                    s.queue[k].value.key,
                    s.queue[k].value.connection_instance_id,
                ));
            } else {
                assert(s.in_progress.contains_key(id));
            }
        }
    }
    if misses(s, key) {
        lemma_missing_is_not_live(s, key, endpoint.instance_id);
    }
}

} // verus!
