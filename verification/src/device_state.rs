//! What the driver holds, and how one step changes it.
//!
//! Every operation of the device is a function of this state. What the network stack is
//! asked to do is part of the state, too, until it is taken.

use crate::bandwidth::Stats;
use crate::connection::{ConnectionV4, ConnectionV6};
use crate::connection_cache::{ended_connection, with_end};
use crate::connection_map::MapView;
use crate::icmp_echo_cache::EchoRequest;
use crate::id_cache::{after_retirement, owned, retired, survives, PendingIdentity, Request};
use crate::info::{
    connection_end_payload, log_record, record, Severity, INFO_CONNECTION_END_V4,
    INFO_CONNECTION_END_V6,
};
use crate::ip::{Ipv4Address, Ipv6Address};
use crate::key::Key;
use crate::lists::{lemma_filter_all, lemma_filter_none};
use crate::logger::SIZE_OF_LOG_LINE_BUFFER;
use crate::ordered::ordered_keys;
use crate::packet::{Packet, PacketView};
use crate::tcp_closure_cache::{spec_request_matches, PendingTcpClosure};
use crate::tcp_endpoint_cache::{Endpoints, TcpEndpointConnection};
use crate::udp_endpoint_cache::Sockets;
use crate::udp_flow_cache::{Registrations, UdpFlowRegistration};
use vstd::prelude::*;

verus! {

/// What the network stack is asked to do.
pub enum Action<H, C> {
    /// Complete a waiting packet: deliver it, or, if it is blocked, only end its wait.
    /// The filters are reset before a packet that could not be pended; if that fails,
    /// the packet is given up.
    Inject { packet: Packet<H>, blocked: bool, reset_first: bool },
    /// Reauthorize existing flows against the changed policy.
    ResetFilters,
    /// Return a flow context.
    RemoveFlowContext(UdpFlowRegistration),
    /// Complete the classification of a closing endpoint.
    CompleteClassify(C),
    /// Admit no further classification and no further read, and wake blocked reads.
    Stop,
}

/// What an action holds.
#[verifier::ext_equal]
pub enum ActionView<H, C> {
    Inject { packet: PacketView<H>, blocked: bool, reset_first: bool },
    ResetFilters,
    RemoveFlowContext(UdpFlowRegistration),
    CompleteClassify(C),
    Stop,
}

impl<H, C> Action<H, C> {
    /// What the action holds.
    pub open spec fn view(&self) -> ActionView<H, C> {
        match self {
            Action::Inject { packet, blocked, reset_first } => ActionView::Inject {
                packet: packet@,
                blocked: *blocked,
                reset_first: *reset_first,
            },
            Action::ResetFilters => ActionView::ResetFilters,
            Action::RemoveFlowContext(registration) => ActionView::RemoveFlowContext(
                *registration,
            ),
            Action::CompleteClassify(classify) => ActionView::CompleteClassify(*classify),
            Action::Stop => ActionView::Stop,
        }
    }
}

/// A closing TCP endpoint and the requests that it still waits for.
#[verifier::ext_equal]
pub struct ClosureView<C> {
    pub endpoint: TcpEndpointConnection,
    pub process_id: u64,
    pub classify: C,
    pub waits_for: Set<u64>,
}

/// What a pending closure holds.
pub open spec fn closure_view<C>(closure: PendingTcpClosure<C>) -> ClosureView<C> {
    ClosureView {
        endpoint: closure.endpoint,
        process_id: closure.process_id,
        classify: closure.classify,
        waits_for: closure.waits_for(),
    }
}

/// The one open handle of the device.
#[derive(Clone, Copy, Debug, PartialEq, Eq, Structural)]
pub struct Owner {
    pub file_object: u64,
    pub process_id: u32,
}

/// What the driver holds.
#[verifier::ext_equal]
pub struct DeviceView<H, C> {
    pub connections_v4: MapView<Ipv4Address>,
    pub connections_v6: MapView<Ipv6Address>,
    pub next_instance: u64,
    pub queue: Seq<Request<H>>,
    pub in_progress: Map<u64, PendingIdentity>,
    pub next_request: u64,
    pub closures: Map<u64, ClosureView<C>>,
    pub endpoints: Endpoints,
    pub sockets: Sockets,
    pub flows: Registrations,
    pub flow_callbacks: usize,
    pub flows_closing: bool,
    pub echoes: Seq<EchoRequest>,
    pub echo_lifetime: u64,
    pub tcp_v4: Stats<Ipv4Address>,
    pub tcp_v6: Stats<Ipv6Address>,
    pub udp_v4: Stats<Ipv4Address>,
    pub udp_v6: Stats<Ipv6Address>,
    pub log: Seq<Seq<u8>>,
    pub events: Seq<Seq<u8>>,
    pub leftover: Option<Seq<u8>>,
    pub owner: Option<Owner>,
    pub actions: Seq<ActionView<H, C>>,
}

/// The record that reports the end of an IPv4 connection.
pub open spec fn end_event_v4(c: ConnectionV4, process_id: u64) -> Seq<u8> {
    record(
        INFO_CONNECTION_END_V4,
        connection_end_payload(
            process_id,
            c.direction.spec_number(),
            c.protocol.spec_number(),
            c.local_address.octets(),
            c.remote_address.octets(),
            c.local_port,
            c.remote_port,
        ),
    )
}

/// The record that reports the end of an IPv6 connection.
pub open spec fn end_event_v6(c: ConnectionV6, process_id: u64) -> Seq<u8> {
    record(
        INFO_CONNECTION_END_V6,
        connection_end_payload(
            process_id,
            c.direction.spec_number(),
            c.protocol.spec_number(),
            c.local_address.octets(),
            c.remote_address.octets(),
            c.local_port,
            c.remote_port,
        ),
    )
}

/// What a full ring keeps of its lines when one more comes.
pub open spec fn log_line_added(lines: Seq<Seq<u8>>, line: Seq<u8>) -> Seq<Seq<u8>> {
    if lines.len() < SIZE_OF_LOG_LINE_BUFFER {
        lines.push(line)
    } else {
        lines.drop_first().push(line)
    }
}

/// The closure has to wait for the request.
pub open spec fn awaits(
    endpoint: TcpEndpointConnection,
    key: Key,
    connection_instance_id: Option<u64>,
) -> bool {
    &&& spec_request_matches(endpoint.key, endpoint.instance_id, key, connection_instance_id)
    &&& endpoint.key.spec_is_loopback_like() || endpoint.instance_id != 0
}

impl<H, C> DeviceView<H, C> {
    /// Every closing endpoint waits for all requests that were published for it and are
    /// queued or being applied.
    pub open spec fn closures_cover(self) -> bool {
        &&& forall|g: u64, k: int|
            #![trigger self.closures[g], self.queue[k]]
            self.closures.contains_key(g) && 0 <= k < self.queue.len() && awaits(
                self.closures[g].endpoint,
                self.queue[k].value.key,
                self.queue[k].value.connection_instance_id,
            ) ==> self.closures[g].waits_for.contains(self.queue[k].id)
        &&& forall|g: u64, id: u64|
            #![trigger self.closures[g], self.in_progress[id]]
            self.closures.contains_key(g) && self.in_progress.contains_key(id) && awaits(
                self.closures[g].endpoint,
                self.in_progress[id].key,
                self.in_progress[id].connection_instance_id,
            ) ==> self.closures[g].waits_for.contains(id)
        &&& forall|g: u64|
            #![trigger self.closures[g]]
            self.closures.contains_key(g) ==> self.closures[g].endpoint.instance_id == g
    }

    /// Nothing has happened yet.
    pub open spec fn initial(echo_lifetime: u64) -> Self {
        DeviceView {
            connections_v4: MapView::<Ipv4Address>::empty(),
            connections_v6: MapView::<Ipv6Address>::empty(),
            next_instance: 1,
            queue: Seq::empty(),
            in_progress: Map::empty(),
            next_request: 1,
            closures: Map::empty(),
            endpoints: Endpoints::empty(),
            sockets: Sockets::empty(),
            flows: Registrations::empty(),
            flow_callbacks: 0,
            flows_closing: false,
            echoes: Seq::empty(),
            echo_lifetime,
            tcp_v4: Stats::<Ipv4Address>::empty(),
            tcp_v6: Stats::<Ipv6Address>::empty(),
            udp_v4: Stats::<Ipv4Address>::empty(),
            udp_v6: Stats::<Ipv6Address>::empty(),
            log: Seq::empty(),
            events: Seq::empty(),
            leftover: None,
            owner: None,
            actions: Seq::empty(),
        }
    }

    /// The request is queued.
    pub open spec fn is_queued(self, id: u64) -> bool {
        exists|k: int| 0 <= k < self.queue.len() && (#[trigger] self.queue[k]).id == id
    }

    /// An event for user space was added.
    pub open spec fn with_event(self, event: Seq<u8>) -> Self {
        DeviceView { events: self.events.push(event), ..self }
    }

    /// An error was recorded in the log ring.
    pub open spec fn with_error(self, text: Seq<u8>) -> Self {
        DeviceView { log: log_line_added(self.log, log_record(Severity::Error, text)), ..self }
    }

    /// A warning was recorded in the log ring.
    pub open spec fn with_warning(self, text: Seq<u8>) -> Self {
        DeviceView { log: log_line_added(self.log, log_record(Severity::Warning, text)), ..self }
    }

    /// The network stack was asked for one more thing.
    pub open spec fn with_action(self, action: ActionView<H, C>) -> Self {
        DeviceView { actions: self.actions.push(action), ..self }
    }

    /// One exact connection generation was ended and reported, if it was live.
    pub open spec fn ended(self, key: Key, instance_id: u64, process_id: u64, now: u64) -> Self {
        if key.spec_is_ipv6() {
            match ended_connection(self.connections_v6, key, instance_id, now) {
                Some(c) => DeviceView {
                    connections_v6: with_end(self.connections_v6, key, instance_id, now),
                    events: self.events.push(end_event_v6(c, process_id)),
                    ..self
                },
                None => self,
            }
        } else {
            match ended_connection(self.connections_v4, key, instance_id, now) {
                Some(c) => DeviceView {
                    connections_v4: with_end(self.connections_v4, key, instance_id, now),
                    events: self.events.push(end_event_v4(c, process_id)),
                    ..self
                },
                None => self,
            }
        }
    }

    /// A closing endpoint that waits for nothing ended its connection and completed.
    pub open spec fn completed(self, endpoint: TcpEndpointConnection, now: u64) -> Self {
        let id = endpoint.instance_id;
        if self.closures.contains_key(id) && self.closures[id].waits_for == Set::<u64>::empty() {
            let c = self.closures[id];
            let after = self.ended(endpoint.key, id, c.process_id, now);
            DeviceView {
                closures: self.closures.remove(id),
                actions: self.actions.push(ActionView::CompleteClassify(c.classify)),
                ..after
            }
        } else {
            self
        }
    }

    /// Some closing endpoints completed, one after the other.
    pub open spec fn completed_all(self, endpoints: Seq<TcpEndpointConnection>, now: u64) -> Self
        decreases endpoints.len(),
    {
        if endpoints.len() == 0 {
            self
        } else {
            self.completed(endpoints[0], now).completed_all(endpoints.drop_first(), now)
        }
    }

    /// A request was completed: no endpoint waits for it any more, and those that wait
    /// for nothing complete.
    pub open spec fn finished(self, id: u64, now: u64) -> Self {
        let closures = without_awaited(self.closures, id);
        DeviceView {
            in_progress: self.in_progress.remove(id),
            closures,
            ..self
        }.completed_all(ready(closures), now)
    }

    /// A request that lost its connection was completed as blocked.
    pub open spec fn discarded(self, request: Request<H>, now: u64) -> Self {
        self.with_action(
            ActionView::Inject {
                packet: request.value.packet@,
                blocked: true,
                reset_first: false,
            },
        ).finished(request.id, now)
    }

    /// Some requests that lost their connection were completed as blocked.
    pub open spec fn discarded_all(self, requests: Seq<Request<H>>, now: u64) -> Self
        decreases requests.len(),
    {
        if requests.len() == 0 {
            self
        } else {
            self.discarded(requests[0], now).discarded_all(requests.drop_first(), now)
        }
    }

    /// The requests of some ended connection generations were retired.
    pub open spec fn retired(self, instance_ids: Seq<u64>, now: u64) -> Self {
        DeviceView {
            queue: after_retirement(self.queue, instance_ids),
            ..self
        }.discarded_all(retired(self.queue, instance_ids), now)
    }
}

/// The closures when none of them waits for a request any more.
pub open spec fn without_awaited<C>(closures: Map<u64, ClosureView<C>>, id: u64) -> Map<
    u64,
    ClosureView<C>,
> {
    closures.map_values(
        |c: ClosureView<C>| ClosureView { waits_for: c.waits_for.remove(id), ..c },
    )
}

/// The closures after one more request was published.
pub open spec fn with_awaited<C>(
    closures: Map<u64, ClosureView<C>>,
    id: u64,
    key: Key,
    connection_instance_id: Option<u64>,
) -> Map<u64, ClosureView<C>> {
    closures.map_values(
        |c: ClosureView<C>|
            if spec_request_matches(
                c.endpoint.key,
                c.endpoint.instance_id,
                key,
                connection_instance_id,
            ) {
                ClosureView { waits_for: c.waits_for.insert(id), ..c }
            } else {
                c
            },
    )
}

/// The endpoints among some generations that wait for nothing.
pub open spec fn ready_in<C>(ids: Seq<u64>, closures: Map<u64, ClosureView<C>>) -> Seq<
    TcpEndpointConnection,
>
    decreases ids.len(),
{
    if ids.len() == 0 {
        Seq::empty()
    } else {
        let rest = ready_in(ids.drop_last(), closures);
        let closure = closures[ids.last()];
        if closure.waits_for == Set::<u64>::empty() {
            rest.push(closure.endpoint)
        } else {
            rest
        }
    }
}

/// The endpoints that wait for nothing, in generation order.
pub open spec fn ready<C>(closures: Map<u64, ClosureView<C>>) -> Seq<TcpEndpointConnection> {
    ready_in(ordered_keys(closures.dom()), closures)
}

/// Only connections, requests, closing endpoints, events and actions differ.
pub open spec fn same_elsewhere<H, C>(s: DeviceView<H, C>, t: DeviceView<H, C>) -> bool {
    t == DeviceView {
        connections_v4: t.connections_v4,
        connections_v6: t.connections_v6,
        queue: t.queue,
        in_progress: t.in_progress,
        closures: t.closures,
        events: t.events,
        actions: t.actions,
        ..s
    }
}

proof fn lemma_completed_elsewhere<H, C>(
    s: DeviceView<H, C>,
    endpoints: Seq<TcpEndpointConnection>,
    now: u64,
)
    ensures
        same_elsewhere(s, s.completed_all(endpoints, now)),
    decreases endpoints.len(),
{
    if endpoints.len() > 0 {
        lemma_completed_elsewhere(s.completed(endpoints[0], now), endpoints.drop_first(), now);
    }
}

proof fn lemma_discarded_elsewhere<H, C>(s: DeviceView<H, C>, requests: Seq<Request<H>>, now: u64)
    ensures
        same_elsewhere(s, s.discarded_all(requests, now)),
    decreases requests.len(),
{
    if requests.len() > 0 {
        finishing_touches_only_requests(
            s.with_action(
                ActionView::Inject {
                    packet: requests[0].value.packet@,
                    blocked: true,
                    reset_first: false,
                },
            ),
            requests[0].id,
            now,
        );
        lemma_discarded_elsewhere(s.discarded(requests[0], now), requests.drop_first(), now);
    }
}

/// Completing a request changes only connections, requests, closing endpoints, events and
/// actions.
pub proof fn finishing_touches_only_requests<H, C>(s: DeviceView<H, C>, id: u64, now: u64)
    ensures
        same_elsewhere(s, s.finished(id, now)),
{
    let closures = without_awaited(s.closures, id);
    lemma_completed_elsewhere(
        DeviceView { in_progress: s.in_progress.remove(id), closures, ..s },
        ready(closures),
        now,
    );
}

/// Retiring connection generations changes only connections, requests, closing endpoints,
/// events and actions.
pub proof fn retirement_touches_only_requests<H, C>(
    s: DeviceView<H, C>,
    instance_ids: Seq<u64>,
    now: u64,
)
    ensures
        same_elsewhere(s, s.retired(instance_ids, now)),
{
    lemma_discarded_elsewhere(
        DeviceView { queue: after_retirement(s.queue, instance_ids), ..s },
        retired(s.queue, instance_ids),
        now,
    );
}

/// A closing endpoint that waits for nothing has no request of its generation left: ending
/// it retires nothing.
pub proof fn ready_closure_has_no_request<H, C>(s: DeviceView<H, C>, generation: u64)
    requires
        s.closures_cover(),
        s.closures.contains_key(generation),
        s.closures[generation].waits_for == Set::<u64>::empty(),
    ensures
        after_retirement(s.queue, seq![generation]) == s.queue,
        retired(s.queue, seq![generation]) == Seq::<Request<H>>::empty(),
{
    let ids = seq![generation];
    assert forall|k: int| 0 <= k < s.queue.len() implies !owned(
        #[trigger] s.queue[k],
        ids,
    ) by {
        if owned(s.queue[k], ids) {
            assert(s.queue[k].value.connection_instance_id == Some(generation));
            assert(awaits(
                s.closures[generation].endpoint,
                s.queue[k].value.key,
                s.queue[k].value.connection_instance_id,
            ));
            assert(s.closures[generation].waits_for.contains(s.queue[k].id));
        }
    }
    lemma_nothing_retired(s.queue, ids);
}

/// A queue that holds nothing of some generations is left alone when they retire.
pub proof fn lemma_nothing_retired<H>(queue: Seq<Request<H>>, ids: Seq<u64>)
    requires
        forall|k: int| 0 <= k < queue.len() ==> !owned(#[trigger] queue[k], ids),
    ensures
        after_retirement(queue, ids) == queue,
        retired(queue, ids) == Seq::<Request<H>>::empty(),
{
    let keep = |e: Request<H>| !owned(e, ids) || survives(e);
    let drop = |e: Request<H>| owned(e, ids) && !survives(e);
    lemma_filter_all(queue, keep);
    lemma_filter_none(queue, drop);
    assert(after_retirement(queue, ids) =~= queue);
}

} // verus!
