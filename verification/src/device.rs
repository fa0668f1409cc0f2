//! The device: everything the driver holds, and what commands and callouts do to it.

use crate::array_holder::ArrayHolder;
use crate::bandwidth::Bandwidth;
use crate::connection::{ConnectionV4, ConnectionV6};
use crate::connection_cache::ConnectionCache;
use crate::device_state::{
    awaits, closure_view, end_event_v4, end_event_v6, log_line_added, ready, ready_in,
    without_awaited, Action, ClosureView, DeviceView, Owner,
};
use crate::icmp_echo_cache::IcmpEchoCache;
use crate::id_cache::{
    after_retirement, detached, owned, request_ids, retired, survives, IdCache, Request,
};
use crate::info::{
    connection_end_event_v4_info, connection_end_event_v6_info, log_line, Info, Severity,
};
use crate::key::Key;
use crate::lists::{increasing, lemma_filter_source};
use crate::logger::LogBuffer;
use crate::ordered::ordered_keys;
use crate::tcp_closure_cache::{ready_endpoints, ready_of, PendingTcpClosure, TcpClosureCache};
use crate::tcp_endpoint_cache::{TcpEndpointCache, TcpEndpointConnection};
use crate::udp_endpoint_cache::UdpEndpointCache;
use crate::udp_flow_cache::UdpFlowCache;
use crate::logger;
use std::collections::VecDeque;
use vstd::prelude::*;

verus! {

/// Everything the driver holds. `H` is what the network stack needs to take a packet back,
/// `C` completes the classification of a closing endpoint.
pub struct Device<H, C> {
    pub connection_cache: ConnectionCache,
    pub packet_cache: IdCache<H>,
    pub tcp_endpoint_cache: TcpEndpointCache,
    pub tcp_closure_cache: TcpClosureCache<C>,
    pub udp_endpoint_cache: UdpEndpointCache,
    pub udp_flow_cache: UdpFlowCache,
    pub icmp_echo_cache: IcmpEchoCache,
    pub bandwidth_stats: Bandwidth,
    pub log: LogBuffer,
    /// Events for user space.
    pub event_queue: VecDeque<Info>,
    /// The part of an event that did not fit into the last read.
    pub read_stream: ArrayHolder,
    pub owner: Option<Owner>,
    /// What the network stack is still to be asked for.
    pub actions: Vec<Action<H, C>>,
}

/// The bytes of some records.
pub open spec fn record_bytes(records: Seq<Info>) -> Seq<Seq<u8>> {
    records.map_values(|i: Info| i@)
}

/// What some closures hold.
pub open spec fn closure_views<C>(closures: Map<u64, PendingTcpClosure<C>>) -> Map<
    u64,
    ClosureView<C>,
> {
    closures.map_values(|c: PendingTcpClosure<C>| closure_view(c))
}

proof fn lemma_line_added(lines: Seq<Info>, line: Info)
    ensures
        record_bytes(logger::line_added(lines, line)) == log_line_added(
            record_bytes(lines),
            line@,
        ),
{
    assert(record_bytes(logger::line_added(lines, line)) =~= log_line_added(
        record_bytes(lines),
        line@,
    ));
}

proof fn lemma_ready_views<C>(ids: Seq<u64>, closures: Map<u64, PendingTcpClosure<C>>)
    requires
        forall|i: int| 0 <= i < ids.len() ==> closures.contains_key(#[trigger] ids[i]),
    ensures
        ready_in(ids, closure_views(closures)) == ready_of(ids, closures),
    decreases ids.len(),
{
    if ids.len() > 0 {
        assert forall|i: int| 0 <= i < ids.drop_last().len() implies closures.contains_key(
            #[trigger] ids.drop_last()[i],
        ) by {
            assert(closures.contains_key(ids[i]));
        }
        lemma_ready_views(ids.drop_last(), closures);
        assert(closures.contains_key(ids[ids.len() - 1]));
        closures[ids.last()].ready_without_requests();
    }
}

proof fn lemma_ready<C>(closures: Map<u64, PendingTcpClosure<C>>)
    requires
        ordered_keys(closures.dom()).to_set() == closures.dom(),
    ensures
        ready(closure_views(closures)) == ready_endpoints(closures),
{
    let ids = ordered_keys(closures.dom());
    assert(closure_views(closures).dom() =~= closures.dom());
    assert forall|i: int| 0 <= i < ids.len() implies closures.contains_key(#[trigger] ids[i]) by {
        assert(ids.to_set().contains(ids[i]));
    }
    lemma_ready_views(ids, closures);
}

impl<H, C> Device<H, C> {
    /// What the device holds.
    pub open spec fn view(&self) -> DeviceView<H, C> {
        DeviceView {
            connections_v4: self.connection_cache.v4(),
            connections_v6: self.connection_cache.v6(),
            next_instance: self.connection_cache.next_id(),
            queue: self.packet_cache.queue(),
            in_progress: self.packet_cache.in_progress(),
            next_request: self.packet_cache.next(),
            closures: closure_views(self.tcp_closure_cache@),
            endpoints: self.tcp_endpoint_cache@,
            sockets: self.udp_endpoint_cache@,
            flows: self.udp_flow_cache@,
            flow_callbacks: self.udp_flow_cache.callbacks(),
            flows_closing: self.udp_flow_cache.closing(),
            echoes: self.icmp_echo_cache@,
            echo_lifetime: self.icmp_echo_cache.lifetime(),
            tcp_v4: self.bandwidth_stats.tcp_v4(),
            tcp_v6: self.bandwidth_stats.tcp_v6(),
            udp_v4: self.bandwidth_stats.udp_v4(),
            udp_v6: self.bandwidth_stats.udp_v6(),
            log: record_bytes(self.log@),
            events: record_bytes(self.event_queue@),
            leftover: self.read_stream@,
            owner: self.owner,
            actions: self.actions@.map_values(|a: Action<H, C>| a@),
        }
    }

    /// Every cache is well formed.
    pub open spec fn caches_wf(&self) -> bool {
        &&& self.connection_cache.wf()
        &&& self.packet_cache.wf()
        &&& self.tcp_endpoint_cache.wf()
        &&& self.tcp_closure_cache.wf()
        &&& self.udp_endpoint_cache.wf()
        &&& self.udp_flow_cache.wf()
        &&& self.icmp_echo_cache.wf()
        &&& self.log.wf()
    }

    /// Every cache is well formed, and closing endpoints wait for all their requests.
    pub open spec fn wf(&self) -> bool {
        &&& self.caches_wf()
        &&& self@.closures_cover()
    }

    /// Creates a device without connections, requests or events. An unanswered echo
    /// request is kept for `echo_lifetime_ms`.
    pub fn new(echo_lifetime_ms: u64) -> (device: Self)
        ensures
            device.wf(),
            device@ == DeviceView::<H, C>::initial(echo_lifetime_ms),
    {
        let device = Device {
            connection_cache: ConnectionCache::new(),
            packet_cache: IdCache::new(),
            tcp_endpoint_cache: TcpEndpointCache::new(),
            tcp_closure_cache: TcpClosureCache::new(),
            udp_endpoint_cache: UdpEndpointCache::new(),
            udp_flow_cache: UdpFlowCache::new(),
            icmp_echo_cache: IcmpEchoCache::new(echo_lifetime_ms),
            bandwidth_stats: Bandwidth::new(),
            log: LogBuffer::new(),
            event_queue: VecDeque::new(),
            read_stream: ArrayHolder::default(),
            owner: None,
            actions: Vec::new(),
        };
        assert(device@ =~= DeviceView::<H, C>::initial(echo_lifetime_ms));
        device
    }

    /// Takes what the network stack is to be asked for, in order.
    pub fn take_actions(&mut self) -> (actions: Vec<Action<H, C>>)
        requires
            old(self).wf(),
        ensures
            final(self).wf(),
            final(self)@ == (DeviceView { actions: Seq::empty(), ..old(self)@ }),
            actions@.map_values(|a: Action<H, C>| a@) == old(self)@.actions,
    {
        let mut actions: Vec<Action<H, C>> = Vec::new();
        core::mem::swap(&mut self.actions, &mut actions);
        assert(self@ =~= (DeviceView { actions: Seq::empty(), ..old(self)@ }));
        actions
    }

    pub(crate) fn push_action(&mut self, action: Action<H, C>)
        requires
            old(self).wf(),
        ensures
            final(self).wf(),
            final(self)@ == old(self)@.with_action(action@),
            final(self).event_queue == old(self).event_queue,
    {
        self.actions.push(action);
        assert(self@ =~= old(self)@.with_action(action@));
    }

    pub(crate) fn push_event(&mut self, event: Info)
        requires
            old(self).wf(),
        ensures
            final(self).wf(),
            final(self)@ == old(self)@.with_event(event@),
    {
        self.event_queue.push_back(event);
        assert(self@ =~= old(self)@.with_event(event@));
    }

    pub(crate) fn record_error(&mut self, text: &[u8])
        requires
            old(self).wf(),
        ensures
            final(self).wf(),
            final(self)@ == old(self)@.with_error(text@),
    {
        let line: Info = log_line(Severity::Error, text);
        proof {
            lemma_line_added(self.log@, line);
        }
        logger::add_line(&mut self.log, line);
        assert(self@ =~= old(self)@.with_error(text@));
    }

    pub(crate) fn record_warning(&mut self, text: &[u8])
        requires
            old(self).wf(),
        ensures
            final(self).wf(),
            final(self)@ == old(self)@.with_warning(text@),
    {
        let line: Info = log_line(Severity::Warning, text);
        proof {
            lemma_line_added(self.log@, line);
        }
        logger::add_line(&mut self.log, line);
        assert(self@ =~= old(self)@.with_warning(text@));
    }

    /// Ends one exact connection generation and reports its end, if it was live.
    pub(crate) fn end_instance(&mut self, key: Key, instance_id: u64, process_id: u64, now: u64)
        requires
            old(self).wf(),
        ensures
            final(self).wf(),
            final(self)@ == old(self)@.ended(key, instance_id, process_id, now),
    {
        if key.is_ipv6() {
            let ended: Option<ConnectionV6> = self.connection_cache.end_connection_instance_v6(
                key,
                instance_id,
                now,
            );
            if let Some(connection) = ended {
                let event: Info = emit_connection_end_v6(&connection, process_id);
                self.event_queue.push_back(event);
            }
        } else {
            let ended: Option<ConnectionV4> = self.connection_cache.end_connection_instance_v4(
                key,
                instance_id,
                now,
            );
            if let Some(connection) = ended {
                let event: Info = emit_connection_end_v4(&connection, process_id);
                self.event_queue.push_back(event);
            }
        }
        assert(self@ =~= old(self)@.ended(key, instance_id, process_id, now));
    }

    /// Claims a ready closure and ends its exact connection generation. A closure is
    /// ready only when no request of its generation is queued, so that ending it leaves
    /// no decision behind.
    fn complete_ready_tcp_endpoint_closure(&mut self, endpoint: TcpEndpointConnection, now: u64)
        requires
            old(self).wf(),
        ensures
            final(self).wf(),
            final(self)@ == old(self)@.completed(endpoint, now),
            final(self)@.queue == old(self)@.queue,
            final(self)@.in_progress == old(self)@.in_progress,
    {
        let ghost before = self@;
        let id: u64 = endpoint.instance_id;
        proof {
            if self.tcp_closure_cache@.contains_key(id) {
                self.tcp_closure_cache@[id].ready_without_requests();
            }
        }
        let taken: Option<PendingTcpClosure<C>> = self.tcp_closure_cache.take_ready(id);
        match taken {
            Some(closure) => {
                assert(closure_views(self.tcp_closure_cache@) =~= before.closures.remove(id));
                self.end_instance(endpoint.key, id, closure.process_id, now);
                self.actions.push(Action::CompleteClassify(closure.classify));
                assert(self@ =~= before.completed(endpoint, now));
            },
            None => {
                assert(self@ =~= before);
            },
        }
    }

    /// Marks one request as complete and releases every endpoint closure that waits for
    /// nothing any more. The request has left the queue.
    pub(crate) fn finish_pending_request(&mut self, id: u64, now: u64)
        requires
            old(self).wf(),
            !old(self)@.is_queued(id),
        ensures
            final(self).wf(),
            final(self)@ == old(self)@.finished(id, now),
            final(self)@.queue == old(self)@.queue,
            final(self)@.in_progress == old(self)@.in_progress.remove(id),
    {
        let ghost before = self@;
        self.packet_cache.finish_id(id);
        let ready_now: Vec<TcpEndpointConnection> = self.tcp_closure_cache.finish_request(id);
        let ghost closures = without_awaited(before.closures, id);
        proof {
            assert(closure_views(self.tcp_closure_cache@) =~= closures);
            lemma_ready(self.tcp_closure_cache@);
            assert(self@ =~= (DeviceView {
                in_progress: before.in_progress.remove(id),
                closures,
                ..before
            }));
            assert(self@.closures_cover());
        }
        let ghost start = self@;
        let count: usize = ready_now.len();
        let mut n: usize = 0;
        assert(ready_now@.skip(0) =~= ready_now@);
        while n < count
            invariant
                n <= count == ready_now@.len(),
                self.wf(),
                self@.completed_all(ready_now@.skip(n as int), now) == start.completed_all(
                    ready_now@,
                    now,
                ),
                self@.queue == start.queue,
                self@.in_progress == start.in_progress,
            decreases count - n,
        {
            assert(ready_now@.skip(n as int).drop_first() =~= ready_now@.skip(n + 1));
            self.complete_ready_tcp_endpoint_closure(ready_now[n], now);
            n = n + 1;
        }
        assert(ready_now@.skip(count as int) =~= Seq::empty());
    }

    /// Completes requests as blocked that have left the queue.
    pub(crate) fn discard_requests(&mut self, requests: VecDeque<Request<H>>, now: u64)
        requires
            old(self).wf(),
            forall|k: int|
                0 <= k < requests@.len() ==> !old(self)@.is_queued(#[trigger] requests@[k].id),
        ensures
            final(self).wf(),
            final(self)@ == old(self)@.discarded_all(requests@, now),
            final(self)@.queue == old(self)@.queue,
    {
        let ghost start = self@;
        let ghost all = requests@;
        let mut rest: VecDeque<Request<H>> = requests;
        while rest.len() > 0
            invariant
                self.wf(),
                self@.discarded_all(rest@, now) == start.discarded_all(all, now),
                self@.queue == start.queue,
                forall|k: int|
                    0 <= k < rest@.len() ==> !start.is_queued(#[trigger] rest@[k].id),
            decreases rest@.len(),
        {
            let ghost remaining = rest@;
            if let Some(request) = rest.pop_front() {
                assert(rest@ =~= remaining.drop_first());
                assert(!start.is_queued(remaining[0].id));
                let id: u64 = request.id;
                self.push_action(
                    Action::Inject {
                        packet: request.value.packet,
                        blocked: true,
                        reset_first: false,
                    },
                );
                self.finish_pending_request(id, now);
                assert forall|k: int| 0 <= k < rest@.len() implies !start.is_queued(
                    #[trigger] rest@[k].id,
                ) by {
                    assert(!start.is_queued(remaining[k + 1].id));
                }
            }
        }
    }

    /// Retires queued decisions for connection instances whose native lifetime
    /// has ended. Outbound UDP network packets remain pending as packet-only
    /// requests; every other packet is removed and any ALE operation is completed as
    /// blocked.
    pub fn retire_pending_connection_instances(&mut self, instance_ids: &[u64], now: u64)
        requires
            old(self).wf(),
        ensures
            final(self).wf(),
            final(self)@ == old(self)@.retired(instance_ids@, now),
            final(self)@.queue == after_retirement(old(self)@.queue, instance_ids@),
    {
        let ghost before = self@;
        proof {
            self.packet_cache.ids_are_unique();
            lemma_retirement_keeps_cover(before, instance_ids@);
        }
        let removed: VecDeque<Request<H>> = self.packet_cache.retire_connection_instances(
            instance_ids,
        );
        proof {
            assert(self@ =~= (DeviceView {
                queue: after_retirement(before.queue, instance_ids@),
                ..before
            }));
            assert forall|k: int| 0 <= k < removed@.len() implies !self@.is_queued(
                #[trigger] removed@[k].id,
            ) by {
                lemma_retired_left_queue(before.queue, instance_ids@, k);
            }
        }
        self.discard_requests(removed, now);
    }
}

/// The record that reports the end of an IPv4 connection.
pub fn emit_connection_end_v4(connection: &ConnectionV4, process_id: u64) -> (event: Info)
    ensures
        event@ == end_event_v4(*connection, process_id),
{
    connection_end_event_v4_info(
        process_id,
        connection.direction.number(),
        connection.protocol.number(),
        connection.local_address,
        connection.remote_address,
        connection.local_port,
        connection.remote_port,
    )
}

/// The record that reports the end of an IPv6 connection.
pub fn emit_connection_end_v6(connection: &ConnectionV6, process_id: u64) -> (event: Info)
    ensures
        event@ == end_event_v6(*connection, process_id),
{
    connection_end_event_v6_info(
        process_id,
        connection.direction.number(),
        connection.protocol.number(),
        connection.local_address,
        connection.remote_address,
        connection.local_port,
        connection.remote_port,
    )
}

/// Every request that stays after a retirement stood in the queue before, with the same
/// ID and tuple.
proof fn lemma_kept_source<H>(queue: Seq<Request<H>>, ids: Seq<u64>, k: int) -> (source: int)
    requires
        0 <= k < after_retirement(queue, ids).len(),
    ensures
        0 <= source < queue.len(),
        !owned(queue[source], ids) || survives(queue[source]),
        after_retirement(queue, ids)[k] == if owned(queue[source], ids) {
            detached(queue[source])
        } else {
            queue[source]
        },
{
    let keep = |e: Request<H>| !owned(e, ids) || survives(e);
    lemma_filter_source(queue, keep, k);
    choose|j: int| 0 <= j < queue.len() && queue[j] == queue.filter(keep)[k] && keep(queue[j])
}

/// Retirement keeps what closing endpoints wait for.
proof fn lemma_retirement_keeps_cover<H, C>(s: DeviceView<H, C>, ids: Seq<u64>)
    requires
        s.closures_cover(),
    ensures
        (DeviceView { queue: after_retirement(s.queue, ids), ..s }).closures_cover(),
{
    let t = DeviceView { queue: after_retirement(s.queue, ids), ..s };
    assert forall|g: u64, k: int|
        #![trigger t.closures[g], t.queue[k]]
        t.closures.contains_key(g) && 0 <= k < t.queue.len() && awaits(
            t.closures[g].endpoint,
            t.queue[k].value.key,
            t.queue[k].value.connection_instance_id,
        ) implies t.closures[g].waits_for.contains(t.queue[k].id) by {
        let j = lemma_kept_source(s.queue, ids, k);
        assert(awaits(
            s.closures[g].endpoint,
            s.queue[j].value.key,
            s.queue[j].value.connection_instance_id,
        ));
        assert(s.closures[g].waits_for.contains(s.queue[j].id));
    }
    assert forall|g: u64, id: u64|
        #![trigger t.closures[g], t.in_progress[id]]
        t.closures.contains_key(g) && t.in_progress.contains_key(id) && awaits(
            t.closures[g].endpoint,
            t.in_progress[id].key,
            t.in_progress[id].connection_instance_id,
        ) implies t.closures[g].waits_for.contains(id) by {
        assert(s.closures[g].waits_for.contains(id) || !awaits(
            s.closures[g].endpoint,
            s.in_progress[id].key,
            s.in_progress[id].connection_instance_id,
        ));
    }
}

/// A retired request is no longer queued.
proof fn lemma_retired_left_queue<H>(queue: Seq<Request<H>>, ids: Seq<u64>, k: int)
    requires
        increasing(request_ids(queue)),
        0 <= k < retired(queue, ids).len(),
    ensures
        forall|m: int|
            0 <= m < after_retirement(queue, ids).len() ==> (#[trigger] after_retirement(
                queue,
                ids,
            )[m]).id != retired(queue, ids)[k].id,
{
    let gone = |e: Request<H>| owned(e, ids) && !survives(e);
    lemma_filter_source(queue, gone, k);
    let i = choose|i: int|
        0 <= i < queue.len() && queue[i] == queue.filter(gone)[k] && gone(queue[i]);
    assert forall|m: int| 0 <= m < after_retirement(queue, ids).len() implies (
    #[trigger] after_retirement(queue, ids)[m]).id != retired(queue, ids)[k].id by {
        let j = lemma_kept_source(queue, ids, m);
        assert(request_ids(queue)[i] == queue[i].id);
        assert(request_ids(queue)[j] == queue[j].id);
        assert(i != j);
    }
}

} // verus!
