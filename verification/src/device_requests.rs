//! Publishing decision requests, and closing endpoints that wait for them.

use crate::connection::Direction;
use crate::connection_cache::exact_instance;
use crate::connection_map::{live_instance, live_instance_matching};
use crate::device::Device;
use crate::device_state::{
    awaits, closure_view, lemma_nothing_retired, with_awaited, Action, ActionView, ClosureView,
    DeviceView,
};
use crate::id_cache::{
    after_retirement, applying_blocks_closure, awaited, blocks_closure, fits_record, new_requests,
    owned, packet_parts, queued_awaited, record_has_room, reportable, request_record, retired,
    PendingPacket, Request,
};
use crate::info::Info;
use crate::key::Key;
use crate::packet::Packet;
use crate::tcp_closure_cache::{spec_request_matches, PendingTcpClosure};
use crate::tcp_endpoint_cache::{without_aliases, TcpEndpointConnection};
use crate::text::{decimal, push_decimal, push_text};
use crate::udp_endpoint_cache::UdpEndpointPeer;
use vstd::prelude::*;
use vstd::utf8::encode_utf8;

verus! {

/// The closures after consecutive requests of one tuple were published.
pub open spec fn with_awaited_range<C>(
    closures: Map<u64, ClosureView<C>>,
    first: u64,
    count: nat,
    key: Key,
    connection_instance_id: Option<u64>,
) -> Map<u64, ClosureView<C>>
    decreases count,
{
    if count == 0 {
        closures
    } else {
        with_awaited(
            with_awaited_range(closures, first, (count - 1) as nat, key, connection_instance_id),
            (first + count - 1) as u64,
            key,
            connection_instance_id,
        )
    }
}

/// The records that ask about some packets.
pub open spec fn request_records<H>(
    parts: Seq<Packet<H>>,
    first: u64,
    key: Key,
    process_id: u64,
    direction: Direction,
    ale_layer: bool,
) -> Seq<Seq<u8>> {
    Seq::new(
        parts.len(),
        |i: int|
            request_record(
                key,
                (first + i) as u64,
                process_id,
                direction,
                parts[i].spec_payload(),
                ale_layer,
            )->Some_0,
    )
}

/// What a closing TCP endpoint has to do.
#[derive(Clone, Copy, Debug, PartialEq, Eq, Structural)]
pub enum ClosureStep {
    /// Its connection generation has already ended.
    Ignore,
    /// Nothing is left to wait for.
    End,
    /// Requests of its flow are still to be completed.
    Wait,
}

/// What became of an endpoint handle that closes.
#[derive(Clone, Copy, Debug, PartialEq, Eq, Structural)]
pub enum EndpointClosure {
    /// No TCP endpoint has this handle.
    Unknown,
    /// Nothing is left to do.
    Closed,
    /// Requests of its flow are still to be completed: its classification has to be pended.
    Wait(TcpEndpointConnection),
}

impl<H, C> DeviceView<H, C> {
    /// A live connection with this instance ID has the tuple, or its redirect target has
    /// it.
    pub open spec fn live_matching(self, key: Key, instance_id: u64) -> bool {
        if key.spec_is_ipv6() {
            live_instance_matching(self.connections_v6, key, instance_id)
        } else {
            live_instance_matching(self.connections_v4, key, instance_id)
        }
    }

    /// The exact tuple has a live connection with this instance ID.
    pub open spec fn live(self, key: Key, instance_id: u64) -> bool {
        if key.spec_is_ipv6() {
            live_instance(self.connections_v6, key, instance_id)
        } else {
            live_instance(self.connections_v4, key, instance_id)
        }
    }

    /// The instance ID of an exact tuple's live connection.
    pub open spec fn instance_of(self, key: Key) -> Option<u64> {
        if key.spec_is_ipv6() {
            exact_instance(self.connections_v6, key)
        } else {
            exact_instance(self.connections_v4, key)
        }
    }

    /// A packet waits for its decision, and user space was asked for it. A tuple that
    /// mixes address families cannot be reported and is not queued.
    pub open spec fn asked(
        self,
        pending: PendingPacket<H>,
        process_id: u64,
        direction: Direction,
        ale_layer: bool,
    ) -> Self {
        let parts = packet_parts(pending.packet);
        let first = self.next_request;
        if reportable(pending.key) {
            DeviceView {
                queue: self.queue + new_requests(
                    parts,
                    pending.key,
                    pending.connection_instance_id,
                    first,
                ),
                next_request: (first + parts.len()) as u64,
                closures: with_awaited_range(
                    self.closures,
                    first,
                    parts.len(),
                    pending.key,
                    pending.connection_instance_id,
                ),
                events: self.events + request_records(
                    parts,
                    first,
                    pending.key,
                    process_id,
                    direction,
                    ale_layer,
                ),
                ..self
            }
        } else {
            self
        }
    }

    /// There are request IDs for the packet, and its bytes can be reported.
    pub open spec fn can_ask(self, key: Key, packet: Packet<H>) -> bool {
        let parts = packet_parts(packet);
        &&& self.next_request + parts.len() <= u64::MAX
        &&& forall|i: int|
            0 <= i < parts.len() ==> fits_record(key, (#[trigger] parts[i]).spec_payload().len())
    }

    /// A request has to complete before a TCP endpoint can close.
    pub open spec fn is_awaited(self, endpoint: TcpEndpointConnection, id: u64) -> bool {
        ||| queued_awaited(self.queue, endpoint.key, endpoint.instance_id, id)
        ||| self.in_progress.contains_key(id)
            && applying_blocks_closure(
            self.in_progress[id],
            endpoint.key,
            endpoint.instance_id,
        )
    }

    /// What a closing TCP endpoint has to do.
    pub open spec fn closure_step(self, endpoint: TcpEndpointConnection) -> ClosureStep {
        if !self.live(endpoint.key, endpoint.instance_id) {
            ClosureStep::Ignore
        } else if exists|id: u64| self.is_awaited(endpoint, id) {
            ClosureStep::Wait
        } else {
            ClosureStep::End
        }
    }

    /// A closing TCP endpoint waits for the requests of its flow.
    pub open spec fn closure_pended(
        self,
        endpoint: TcpEndpointConnection,
        process_id: u64,
        classify: C,
    ) -> Self {
        DeviceView {
            closures: self.closures.insert(
                endpoint.instance_id,
                ClosureView {
                    endpoint,
                    process_id,
                    classify,
                    waits_for: Set::new(|id: u64| self.is_awaited(endpoint, id)),
                },
            ),
            ..self
        }
    }

    /// A closing TCP endpoint got the classification that it waits with. If there is
    /// nothing to wait for any more, it ends at once. A generation that is already closing
    /// keeps its first classification.
    pub open spec fn closure_deferred(
        self,
        endpoint: TcpEndpointConnection,
        process_id: u64,
        classify: C,
        now: u64,
    ) -> Self {
        match self.closure_step(endpoint) {
            ClosureStep::Ignore => self.with_action(ActionView::CompleteClassify(classify)),
            ClosureStep::End => self.ended(
                endpoint.key,
                endpoint.instance_id,
                process_id,
                now,
            ).with_action(ActionView::CompleteClassify(classify)),
            ClosureStep::Wait => if self.closures.contains_key(endpoint.instance_id) {
                self.with_action(ActionView::CompleteClassify(classify)).with_error(
                    duplicate_closure_text(endpoint.instance_id),
                )
            } else {
                self.closure_pended(endpoint, process_id, classify)
            },
        }
    }

    /// An endpoint handle closes: what is left to do, and what it leaves of the device. The
    /// connections of a UDP socket end, and so does that of a TCP endpoint unless it has to
    /// wait.
    pub open spec fn handle_closed(self, handle: u64, process_id: u64, now: u64) -> (
        EndpointClosure,
        Self,
    ) {
        let s = self.socket_closed(handle, process_id, now);
        if handle == 0 || !s.endpoints.contains_key(handle) {
            (EndpointClosure::Unknown, s)
        } else {
            let endpoint = s.endpoints[handle].endpoint;
            let t = DeviceView { endpoints: without_aliases(s.endpoints, endpoint), ..s };
            match t.closure_step(endpoint) {
                ClosureStep::Ignore => (EndpointClosure::Closed, t),
                ClosureStep::End => (
                    EndpointClosure::Closed,
                    t.ended(endpoint.key, endpoint.instance_id, process_id, now),
                ),
                ClosureStep::Wait => (EndpointClosure::Wait(endpoint), t),
            }
        }
    }

    /// Connections of a closing UDP socket ended.
    pub open spec fn peers_ended(self, peers: Seq<UdpEndpointPeer>, process_id: u64, now: u64) -> Self
        decreases peers.len(),
    {
        if peers.len() == 0 {
            self
        } else {
            self.ended(peers[0].key, peers[0].instance_id, process_id, now).peers_ended(
                peers.drop_first(),
                process_id,
                now,
            )
        }
    }

    /// A UDP socket closed: the connections of all its peers ended.
    pub open spec fn socket_closed(self, handle: u64, process_id: u64, now: u64) -> Self {
        if handle != 0 && self.sockets.contains_key(handle) {
            let peers = self.sockets[handle];
            DeviceView { sockets: self.sockets.remove(handle), ..self }.peers_ended(
                peers,
                process_id,
                now,
            ).retired(peers.map_values(|p: UdpEndpointPeer| p.instance_id), now)
        } else {
            self
        }
    }

    /// The live connection of an exact tuple ended.
    pub open spec fn tuple_ended(self, key: Key, process_id: u64, now: u64) -> Self {
        match self.instance_of(key) {
            Some(id) => self.ended(key, id, process_id, now).retired(seq![id], now),
            None => self,
        }
    }
}

/// The text that reports an endpoint that closes twice.
pub open spec fn duplicate_closure_text(instance_id: u64) -> Seq<u8> {
    encode_utf8("duplicate TCP endpoint closure for connection instance "@) + decimal(
        instance_id as nat,
    )
}

/// Waiting for more requests keeps the endpoints and what they waited for.
proof fn lemma_awaited_range<C>(
    closures: Map<u64, ClosureView<C>>,
    first: u64,
    count: nat,
    key: Key,
    connection_instance_id: Option<u64>,
)
    requires
        first + count <= u64::MAX,
    ensures
        ({
            let after = with_awaited_range(closures, first, count, key, connection_instance_id);
            &&& after.dom() == closures.dom()
            &&& forall|g: u64| #[trigger]
                closures.contains_key(g) ==> {
                    &&& after[g].endpoint == closures[g].endpoint
                    &&& forall|id: u64|
                        closures[g].waits_for.contains(id)
                            ==> #[trigger] after[g].waits_for.contains(id)
                    &&& spec_request_matches(
                        closures[g].endpoint.key,
                        closures[g].endpoint.instance_id,
                        key,
                        connection_instance_id,
                    ) ==> forall|i: int|
                        0 <= i < count ==> after[g].waits_for.contains(
                            #[trigger] request_number(first, i),
                        )
                }
        }),
    decreases count,
{
    if count > 0 {
        lemma_awaited_range(closures, first, (count - 1) as nat, key, connection_instance_id);
        let inner = with_awaited_range(
            closures,
            first,
            (count - 1) as nat,
            key,
            connection_instance_id,
        );
        let after = with_awaited_range(closures, first, count, key, connection_instance_id);
        assert(after.dom() =~= closures.dom());
        assert forall|g: u64| #[trigger] closures.contains_key(g)
            && spec_request_matches(
            closures[g].endpoint.key,
            closures[g].endpoint.instance_id,
            key,
            connection_instance_id,
        ) implies forall|i: int|
            0 <= i < count ==> after[g].waits_for.contains(#[trigger] request_number(first, i)) by {
            assert(inner.contains_key(g));
            assert forall|i: int| 0 <= i < count implies after[g].waits_for.contains(
                #[trigger] request_number(first, i),
            ) by {
                if i < count - 1 {
                    assert(inner[g].waits_for.contains(request_number(first, i)));
                }
            }
        }
    }
}

spec fn request_number(first: u64, i: int) -> u64 {
    (first + i) as u64
}

/// Publishing requests keeps what closing endpoints wait for.
proof fn lemma_asked_keeps_cover<H, C>(
    s: DeviceView<H, C>,
    pending: PendingPacket<H>,
    process_id: u64,
    direction: Direction,
    ale_layer: bool,
)
    requires
        s.closures_cover(),
        s.can_ask(pending.key, pending.packet),
    ensures
        s.asked(pending, process_id, direction, ale_layer).closures_cover(),
{
    let t = s.asked(pending, process_id, direction, ale_layer);
    let parts = packet_parts(pending.packet);
    let first = s.next_request;
    if reportable(pending.key) {
        lemma_awaited_range(
            s.closures,
            first,
            parts.len(),
            pending.key,
            pending.connection_instance_id,
        );
        assert forall|g: u64, k: int|
            #![trigger t.closures[g], t.queue[k]]
            t.closures.contains_key(g) && 0 <= k < t.queue.len() && awaits(
                t.closures[g].endpoint,
                t.queue[k].value.key,
                t.queue[k].value.connection_instance_id,
            ) implies t.closures[g].waits_for.contains(t.queue[k].id) by {
            assert(s.closures.contains_key(g));
            if k < s.queue.len() {
                assert(s.closures[g].waits_for.contains(s.queue[k].id));
            } else {
                let i = k - s.queue.len();
                assert(t.queue[k].id == request_number(first, i));
            }
        }
        assert forall|g: u64, id: u64|
            #![trigger t.closures[g], t.in_progress[id]]
            t.closures.contains_key(g) && t.in_progress.contains_key(id) && awaits(
                t.closures[g].endpoint,
                t.in_progress[id].key,
                t.in_progress[id].connection_instance_id,
            ) implies t.closures[g].waits_for.contains(id) by {
            assert(s.closures.contains_key(g));
            assert(s.closures[g].waits_for.contains(id) || !awaits(
                s.closures[g].endpoint,
                s.in_progress[id].key,
                s.in_progress[id].connection_instance_id,
            ));
        }
    }
}

impl<H, C> Device<H, C> {
    /// Returns whether a packet can be published: there are request IDs for it, and its
    /// bytes can be reported.
    pub fn can_publish(&self, key: &Key, packet: &Packet<H>) -> (r: bool)
        requires
            self.wf(),
        ensures
            r == self@.can_ask(*key, *packet),
    {
        match packet {
            Packet::NetworkBatch(buffers, inject_info) => {
                let ghost parts = packet_parts(*packet);
                let mut n: usize = 0;
                while n < buffers.len()
                    invariant
                        n <= buffers@.len() == parts.len(),
                        parts == packet_parts(*packet),
                        forall|i: int|
                            0 <= i < parts.len() ==> (#[trigger] parts[i]).spec_payload()
                                == buffers@[i].data@,
                        forall|i: int|
                            0 <= i < n ==> fits_record(
                                *key,
                                (#[trigger] parts[i]).spec_payload().len(),
                            ),
                    decreases buffers@.len() - n,
                {
                    if !record_has_room(key, buffers[n].data.len()) {
                        assert(!fits_record(*key, parts[n as int].spec_payload().len()));
                        assert(!self@.can_ask(*key, *packet));
                        return false;
                    }
                    n = n + 1;
                }
                self.packet_cache.has_ids_for(buffers.len())
            },
            _ => {
                let ghost parts = packet_parts(*packet);
                assert(parts == seq![*packet]);
                assert(parts[0] == *packet);
                record_has_room(key, packet.payload().len()) && self.packet_cache.has_ids_for(1)
            },
        }
    }

    fn enqueue_pending_packet(
        &mut self,
        pending: PendingPacket<H>,
        process_id: u64,
        direction: Direction,
        ale_layer: bool,
    )
        requires
            old(self).wf(),
            old(self)@.can_ask(pending.key, pending.packet),
        ensures
            final(self).wf(),
            final(self)@ == old(self)@.asked(pending, process_id, direction, ale_layer),
    {
        let ghost before = self@;
        let ghost parts = packet_parts(pending.packet);
        let key = pending.key;
        let connection_instance_id = pending.connection_instance_id;
        proof {
            lemma_asked_keeps_cover(before, pending, process_id, direction, ale_layer);
        }
        let queued: Vec<(u64, Info)> = self.packet_cache.push(
            (pending.key, pending.packet),
            connection_instance_id,
            process_id,
            direction,
            ale_layer,
        );
        let ghost all = queued@;
        let ghost first = before.next_request;
        let ghost start = self@;
        for entry in iter: queued.into_iter()
            invariant
                iter.seq() == all,
                first == before.next_request,
                reportable(key) ==> all.len() == parts.len() && first + parts.len() <= u64::MAX,
                !reportable(key) ==> all.len() == 0,
                forall|i: int|
                    0 <= i < all.len() ==> (#[trigger] all[i]).0 == first + i && request_record(
                        key,
                        all[i].0,
                        process_id,
                        direction,
                        parts[i].spec_payload(),
                        ale_layer,
                    ) == Some(all[i].1@),
                self.caches_wf(),
                self@ == (DeviceView {
                    closures: with_awaited_range(
                        before.closures,
                        first,
                        iter.index() as nat,
                        key,
                        connection_instance_id,
                    ),
                    events: before.events + request_records(
                        parts,
                        first,
                        key,
                        process_id,
                        direction,
                        ale_layer,
                    ).take(iter.index() as int),
                    ..start
                }),
        {
            let ghost n = iter.index() as int;
            let ghost prior = self@;
            let ghost records = request_records(
                parts,
                first,
                key,
                process_id,
                direction,
                ale_layer,
            );
            let (id, info): (u64, Info) = entry;
            proof {
                assert(all[n] == (id, info));
            }
            self.tcp_closure_cache.add_request(id, &key, connection_instance_id);
            self.event_queue.push_back(info);
            proof {
                assert(self@.closures =~= with_awaited(
                    prior.closures,
                    id,
                    key,
                    connection_instance_id,
                ));
                assert(self@.closures == with_awaited_range(
                    before.closures,
                    first,
                    (n + 1) as nat,
                    key,
                    connection_instance_id,
                ));
                assert(records[n] == info@);
                assert(self@.events =~= prior.events.push(info@));
                assert(records.take(n + 1) =~= records.take(n).push(records[n]));
                assert(self@.events =~= before.events + records.take(n + 1));
                assert(self@ =~= (DeviceView {
                    closures: with_awaited_range(
                        before.closures,
                        first,
                        (n + 1) as nat,
                        key,
                        connection_instance_id,
                    ),
                    events: before.events + records.take(n + 1),
                    ..start
                }));
            }
        }
        proof {
            let records = request_records(parts, first, key, process_id, direction, ale_layer);
            if reportable(key) {
                assert(records.take(all.len() as int) =~= records);
            } else {
                assert(before.events + records.take(0) =~= before.events);
            }
            assert(self@ =~= before.asked(pending, process_id, direction, ale_layer));
        }
    }

    /// Publishes a packet decision request only while its exact connection
    /// generation remains live. A packet without one is always published.
    ///
    /// The packet that is rejected because its connection ended is returned for
    /// fail-closed completion.
    pub fn publish_pending_packet(
        &mut self,
        value: (Key, Packet<H>),
        connection_instance_id: Option<u64>,
        process_id: u64,
        direction: Direction,
        ale_layer: bool,
    ) -> (rejected: Option<PendingPacket<H>>)
        requires
            old(self).wf(),
            old(self)@.can_ask(value.0, value.1),
        ensures
            final(self).wf(),
            ({
                let pending = PendingPacket {
                    key: value.0,
                    packet: value.1,
                    connection_instance_id,
                };
                let rejects = connection_instance_id matches Some(id) && !old(
                    self
                )@.live_matching(value.0, id);
                &&& rejected == if rejects {
                    Some(pending)
                } else {
                    None
                }
                &&& final(self)@ == if rejects {
                    old(self)@
                } else {
                    old(self)@.asked(pending, process_id, direction, ale_layer)
                }
            }),
    {
        let (key, packet) = value;
        let pending = PendingPacket { key, packet, connection_instance_id };
        if let Some(instance_id) = connection_instance_id {
            if !self.connection_cache.has_live_instance_matching(&key, instance_id) {
                return Some(pending);
            }
        }
        self.enqueue_pending_packet(pending, process_id, direction, ale_layer);
        None
    }

    /// Tells what a closing TCP endpoint has to do.
    pub fn next_closure_step(&self, endpoint: &TcpEndpointConnection) -> (step: ClosureStep)
        requires
            self.wf(),
        ensures
            step == self@.closure_step(*endpoint),
    {
        let live: bool = match self.connection_cache.with_live_connection_instance(
            &endpoint.key,
            endpoint.instance_id,
            found,
        ) {
            Some(_) => true,
            None => false,
        };
        if !live {
            return ClosureStep::Ignore;
        }
        let ids: Vec<u64> = self.packet_cache.tcp_endpoint_request_ids(
            &endpoint.key,
            endpoint.instance_id,
        );
        if ids.len() == 0 {
            proof {
                assert forall|id: u64| !self@.is_awaited(*endpoint, id) by {
                    assert(!ids@.contains(id));
                    assert(!awaited(
                        self.packet_cache,
                        endpoint.key,
                        endpoint.instance_id,
                        id,
                    ));
                }
            }
            ClosureStep::End
        } else {
            proof {
                assert(ids@.contains(ids@[0]));
                assert(awaited(
                    self.packet_cache,
                    endpoint.key,
                    endpoint.instance_id,
                    ids@[0],
                ));
                assert(self@.is_awaited(*endpoint, ids@[0]));
            }
            ClosureStep::Wait
        }
    }

    /// Ends the connection of a closing TCP endpoint for which nothing is left to wait.
    pub fn close_tcp_endpoint(&mut self, endpoint: TcpEndpointConnection, process_id: u64, now: u64)
        requires
            old(self).wf(),
        ensures
            final(self).wf(),
            final(self)@ == old(self)@.ended(endpoint.key, endpoint.instance_id, process_id, now),
    {
        self.end_instance(endpoint.key, endpoint.instance_id, process_id, now);
    }

    /// Lets a closing TCP endpoint wait for the requests of its flow. Its classification
    /// has been pended and completes when the last of them is done. If they are done by now,
    /// the connection ends and the classification completes at once. A generation that is
    /// already closing keeps its first classification; the second one completes at once.
    pub fn defer_tcp_endpoint_closure(
        &mut self,
        endpoint: TcpEndpointConnection,
        process_id: u64,
        classify: C,
        now: u64,
    ) -> (accepted: bool)
        requires
            old(self).wf(),
        ensures
            final(self).wf(),
            accepted == (old(self)@.closure_step(endpoint) is Wait
                && !old(self)@.closures.contains_key(endpoint.instance_id)),
            final(self)@ == old(self)@.closure_deferred(endpoint, process_id, classify, now),
    {
        let ghost before = self@;
        match self.next_closure_step(&endpoint) {
            ClosureStep::Ignore => {
                self.push_action(Action::CompleteClassify(classify));
                return false;
            },
            ClosureStep::End => {
                self.close_tcp_endpoint(endpoint, process_id, now);
                self.push_action(Action::CompleteClassify(classify));
                return false;
            },
            ClosureStep::Wait => {},
        }
        let ids: Vec<u64> = self.packet_cache.tcp_endpoint_request_ids(
            &endpoint.key,
            endpoint.instance_id,
        );
        proof {
            assert forall|id: u64| ids@.to_set().contains(id) == before.is_awaited(endpoint, id) by {
                assert(ids@.contains(id) <==> awaited(
                    self.packet_cache,
                    endpoint.key,
                    endpoint.instance_id,
                    id,
                ));
            }
            assert(ids@.to_set() =~= Set::new(|id: u64| before.is_awaited(endpoint, id)));
        }
        let closure = PendingTcpClosure::new(endpoint, process_id, classify, ids);
        let ghost view = closure_view(closure);
        match self.tcp_closure_cache.insert(closure) {
            Ok(()) => {
                proof {
                    assert(self@.closures =~= before.closures.insert(endpoint.instance_id, view));
                    assert(self@ =~= before.closure_pended(endpoint, process_id, classify));
                    lemma_pended_covers(before, endpoint, process_id, classify);
                }
                true
            },
            Err(duplicate) => {
                assert(self@ =~= before);
                self.push_action(Action::CompleteClassify(duplicate.classify));
                let mut text: Vec<u8> = Vec::new();
                push_text(&mut text, "duplicate TCP endpoint closure for connection instance ");
                push_decimal(&mut text, endpoint.instance_id);
                assert(text@ =~= duplicate_closure_text(endpoint.instance_id));
                self.record_error(text.as_slice());
                false
            },
        }
    }

    /// Ends every connection of a closing UDP socket and retires their requests.
    pub fn close_udp_endpoint(&mut self, endpoint_handle: u64, process_id: u64, now: u64)
        requires
            old(self).wf(),
        ensures
            final(self).wf(),
            final(self)@ == old(self)@.socket_closed(endpoint_handle, process_id, now),
    {
        let ghost before = self@;
        let taken: Option<Vec<UdpEndpointPeer>> = self.udp_endpoint_cache.take(endpoint_handle);
        let peers: Vec<UdpEndpointPeer> = match taken {
            Some(peers) => peers,
            None => {
                assert(self@ =~= before);
                return;
            },
        };
        let ghost start = self@;
        assert(start =~= (DeviceView {
            sockets: before.sockets.remove(endpoint_handle),
            ..before
        }));
        let mut ids: Vec<u64> = Vec::new();
        let count: usize = peers.len();
        let mut n: usize = 0;
        assert(peers@.skip(0) =~= peers@);
        while n < count
            invariant
                n <= count == peers@.len(),
                self.wf(),
                self@.peers_ended(peers@.skip(n as int), process_id, now) == start.peers_ended(
                    peers@,
                    process_id,
                    now,
                ),
                ids@ == peers@.take(n as int).map_values(|p: UdpEndpointPeer| p.instance_id),
            decreases count - n,
        {
            let peer: UdpEndpointPeer = peers[n];
            assert(peers@.skip(n as int).drop_first() =~= peers@.skip(n + 1));
            self.end_instance(peer.key, peer.instance_id, process_id, now);
            ids.push(peer.instance_id);
            n = n + 1;
            assert(ids@ =~= peers@.take(n as int).map_values(|p: UdpEndpointPeer| p.instance_id));
        }
        assert(peers@.skip(count as int) =~= Seq::empty());
        assert(peers@.take(count as int) =~= peers@);
        self.retire_pending_connection_instances(ids.as_slice(), now);
    }

    /// Closes an endpoint handle as far as that is possible without waiting.
    pub fn close_endpoint(&mut self, endpoint_handle: u64, process_id: u64, now: u64) -> (closure:
        EndpointClosure)
        requires
            old(self).wf(),
        ensures
            final(self).wf(),
            (closure, final(self)@) == old(self)@.handle_closed(endpoint_handle, process_id, now),
    {
        self.close_udp_endpoint(endpoint_handle, process_id, now);
        let ghost closed = self@;
        let endpoint: TcpEndpointConnection = match self.tcp_endpoint_cache.take(endpoint_handle) {
            Some(endpoint) => endpoint,
            None => {
                assert(self@ =~= closed);
                return EndpointClosure::Unknown;
            },
        };
        assert(self@ =~= (DeviceView {
            endpoints: without_aliases(closed.endpoints, endpoint),
            ..closed
        }));
        match self.next_closure_step(&endpoint) {
            ClosureStep::Ignore => EndpointClosure::Closed,
            ClosureStep::End => {
                self.close_tcp_endpoint(endpoint, process_id, now);
                EndpointClosure::Closed
            },
            ClosureStep::Wait => EndpointClosure::Wait(endpoint),
        }
    }

    /// Ends the live connection of an exact tuple and retires its requests.
    pub fn end_tuple(&mut self, key: &Key, process_id: u64, now: u64)
        requires
            old(self).wf(),
        ensures
            final(self).wf(),
            final(self)@ == old(self)@.tuple_ended(*key, process_id, now),
    {
        let found_id: Option<u64> = self.connection_cache.live_instance_id(key);
        if let Some(id) = found_id {
            self.end_instance(*key, id, process_id, now);
            let mut ids: Vec<u64> = Vec::new();
            ids.push(id);
            assert(ids@ =~= seq![id]);
            self.retire_pending_connection_instances(ids.as_slice(), now);
        }
    }
}

fn found(instance_id: u64) -> (id: Option<u64>)
    ensures
        id == Some(instance_id),
{
    Some(instance_id)
}

/// A new closure waits for all requests of its flow.
proof fn lemma_pended_covers<H, C>(
    s: DeviceView<H, C>,
    endpoint: TcpEndpointConnection,
    process_id: u64,
    classify: C,
)
    requires
        s.closures_cover(),
    ensures
        s.closure_pended(endpoint, process_id, classify).closures_cover(),
{
    let t = s.closure_pended(endpoint, process_id, classify);
    assert forall|g: u64, k: int|
        #![trigger t.closures[g], t.queue[k]]
        t.closures.contains_key(g) && 0 <= k < t.queue.len() && awaits(
            t.closures[g].endpoint,
            t.queue[k].value.key,
            t.queue[k].value.connection_instance_id,
        ) implies t.closures[g].waits_for.contains(t.queue[k].id) by {
        if g == endpoint.instance_id {
            assert(blocks_closure(s.queue[k], endpoint.key, endpoint.instance_id));
            assert(queued_awaited(
                s.queue,
                endpoint.key,
                endpoint.instance_id,
                s.queue[k].id,
            ));
        } else {
            assert(s.closures.contains_key(g));
            assert(t.closures[g] == s.closures[g]);
            assert(s.closures[g].waits_for.contains(s.queue[k].id));
        }
    }
    assert forall|g: u64, id: u64|
        #![trigger t.closures[g], t.in_progress[id]]
        t.closures.contains_key(g) && t.in_progress.contains_key(id) && awaits(
            t.closures[g].endpoint,
            t.in_progress[id].key,
            t.in_progress[id].connection_instance_id,
        ) implies t.closures[g].waits_for.contains(id) by {
        if g != endpoint.instance_id {
            assert(s.closures.contains_key(g));
            assert(t.closures[g] == s.closures[g]);
            assert(s.closures[g].waits_for.contains(id) || !awaits(
                s.closures[g].endpoint,
                s.in_progress[id].key,
                s.in_progress[id].connection_instance_id,
            ));
        }
    }
}

/// A TCP endpoint that can close at once has no request of its generation queued: ending it
/// retires nothing.
pub proof fn closing_at_once_retires_nothing<H, C>(
    s: DeviceView<H, C>,
    endpoint: TcpEndpointConnection,
)
    requires
        s.closure_step(endpoint) is End,
    ensures
        retired(s.queue, seq![endpoint.instance_id]) == Seq::<Request<H>>::empty(),
        after_retirement(s.queue, seq![endpoint.instance_id]) == s.queue,
{
    let ids = seq![endpoint.instance_id];
    assert forall|k: int| 0 <= k < s.queue.len() implies !owned(
        #[trigger] s.queue[k],
        ids,
    ) by {
        if owned(s.queue[k], ids) {
            assert(blocks_closure(s.queue[k], endpoint.key, endpoint.instance_id));
            assert(queued_awaited(
                s.queue,
                endpoint.key,
                endpoint.instance_id,
                s.queue[k].id,
            ));
            assert(s.is_awaited(endpoint, s.queue[k].id));
        }
    }
    lemma_nothing_retired(s.queue, ids);
}

} // verus!
