//! Maintenance of what the driver holds, and its orderly end.

use crate::bandwidth::{in_order, records_v4, records_v6, Stats};
use crate::connection::{ConnectionV4, ConnectionV6, Verdict};
use crate::connection_cache::live_owner;
use crate::connection_map::{
    capped, concat, earlier, lemma_concat_holds, live_udp_ids, live_untracked, map_applied,
    map_retained, map_sequence, MapView, Selection, ENDED_GRACE_MS, UNTRACKED_IDLE_TIMEOUT_MS,
};
use crate::device::{emit_connection_end_v4, emit_connection_end_v6, Device};
use crate::device_state::{
    end_event_v4, end_event_v6, retirement_touches_only_requests, Action, ActionView, ClosureView,
    DeviceView,
};
use crate::icmp_echo_cache::{expired, EchoRequest};
use crate::id_cache::Request;
use crate::info::Info;
use crate::ip::{IpProtocol, Ipv4Address, Ipv6Address};
use crate::lists::{lemma_filter_agree, sort_dedup};
use crate::ordered::ordered_keys;
use crate::tcp_endpoint_cache::{in_report_order, overdue, Endpoints, TcpEndpointConnection};
use crate::text::decimal;
use crate::udp_endpoint_cache::{all_instances, peers_removed, Sockets, UdpEndpointPeer};
use crate::udp_flow_cache::{named, removable, removables, requested, UdpFlowRegistration};
use crate::lists;
use crate::logger;
use std::collections::VecDeque;
use vstd::prelude::*;
use vstd::utf8::encode_utf8;

verus! {

/// How long a local TCP authorization may wait for its flow.
pub const UNESTABLISHED_TIMEOUT_MS: u64 = 10_000;

/// A live UDP connection has this instance ID.
pub open spec fn live_udp_instance(
    v4: MapView<Ipv4Address>,
    v6: MapView<Ipv6Address>,
    id: u64,
) -> bool {
    live_udp_ids(map_sequence(v4)).contains(id) || live_udp_ids(map_sequence(v6)).contains(id)
}

/// `expired` are the connection generations whose authorization was not followed by a flow
/// in time, in report order.
pub open spec fn overdue_generations(
    endpoints: Endpoints,
    cutoff_ms: u64,
    expired: Seq<TcpEndpointConnection>,
) -> bool {
    &&& in_report_order(expired)
    &&& forall|e: TcpEndpointConnection| #[trigger]
        expired.contains(e) <==> exists|h: u64| #[trigger]
            endpoints.contains_key(h) && endpoints[h].endpoint == e && overdue(
                endpoints[h],
                cutoff_ms,
            )
}

/// The endpoints without some generations.
pub open spec fn endpoints_without(
    endpoints: Endpoints,
    expired: Seq<TcpEndpointConnection>,
) -> Endpoints {
    Map::new(
        |h: u64| endpoints.contains_key(h) && !expired.contains(endpoints[h].endpoint),
        |h: u64| endpoints[h],
    )
}

/// The records of some counters: none for no flow.
pub open spec fn report_bytes_v4(stats: Stats<Ipv4Address>, protocol: IpProtocol) -> Seq<Seq<u8>> {
    records_v4(in_order(stats), protocol)
}

/// The records of some counters: none for no flow.
pub open spec fn report_bytes_v6(stats: Stats<Ipv6Address>, protocol: IpProtocol) -> Seq<Seq<u8>> {
    records_v6(in_order(stats), protocol)
}

/// A text followed by a number.
pub open spec fn counted(text: &str, n: int) -> Seq<u8> {
    encode_utf8(text@) + decimal(n as nat)
}

impl<H, C> DeviceView<H, C> {
    /// A stale context was claimed from its flow, if it still names the connection.
    pub open spec fn flow_claimed(self, flow_context: u64, instance_id: u64) -> Self {
        if named(self.flows, flow_context, instance_id) && removable(self.flows[flow_context]) {
            let registration = requested(self.flows[flow_context]);
            DeviceView {
                flows: self.flows.insert(flow_context, registration),
                actions: self.actions.push(ActionView::RemoveFlowContext(registration)),
                ..self
            }
        } else {
            self
        }
    }

    /// Those of some contexts whose connection is gone were claimed from their flows.
    pub open spec fn flows_claimed(self, candidates: Seq<(u64, u64)>) -> Self
        decreases candidates.len(),
    {
        if candidates.len() == 0 {
            self
        } else {
            let (context, id) = candidates[0];
            let next = if live_udp_instance(self.connections_v4, self.connections_v6, id) {
                self
            } else {
                self.flow_claimed(context, id)
            };
            next.flows_claimed(candidates.drop_first())
        }
    }

    /// The contexts that WFP can be asked for.
    pub open spec fn removal_candidates(self) -> Seq<(u64, u64)> {
        removables(ordered_keys(self.flows.dom()), self.flows).map_values(
            |r: UdpFlowRegistration| (r.flow_context, r.connection_instance_id),
        )
    }

    /// UDP sockets and flows were reconciled with the live connections.
    pub open spec fn udp_reconciled(self) -> Self {
        DeviceView {
            sockets: peers_removed(
                self.sockets,
                |p: UdpEndpointPeer|
                    live_udp_instance(self.connections_v4, self.connections_v6, p.instance_id),
            ),
            ..self
        }.flows_claimed(self.removal_candidates())
    }

    /// One generation without a flow was ended and reported under its own process.
    pub open spec fn overdue_ended(self, endpoint: TcpEndpointConnection, now: u64) -> Self {
        self.ended(endpoint.key, endpoint.instance_id, self.owner_of(endpoint), now).retired(
            seq![endpoint.instance_id],
            now,
        )
    }

    /// The process that owns a live connection generation.
    pub open spec fn owner_of(self, endpoint: TcpEndpointConnection) -> u64 {
        if endpoint.key.spec_is_ipv6() {
            live_owner(
                self.connections_v6,
                endpoint.key,
                endpoint.instance_id,
            )
        } else {
            live_owner(
                self.connections_v4,
                endpoint.key,
                endpoint.instance_id,
            )
        }
    }

    /// Some generations without a flow were ended.
    pub open spec fn overdue_ended_all(self, expired: Seq<TcpEndpointConnection>, now: u64) -> Self
        decreases expired.len(),
    {
        if expired.len() == 0 {
            self
        } else {
            self.overdue_ended(expired[0], now).overdue_ended_all(expired.drop_first(), now)
        }
    }

    /// Authorizations that waited too long for their flow were ended.
    pub open spec fn unestablished_ended(
        self,
        expired: Seq<TcpEndpointConnection>,
        now: u64,
    ) -> Self {
        DeviceView {
            endpoints: endpoints_without(self.endpoints, expired),
            ..self
        }.overdue_ended_all(expired, now)
    }

    /// Idle fallback connections were ended and reported, and their requests retired.
    pub open spec fn idle_ended(self, now: u64) -> Self {
        let idle = Selection::Idle { cutoff: earlier(now, UNTRACKED_IDLE_TIMEOUT_MS) };
        let ended_v4 = idle.reported(map_sequence(self.connections_v4), now);
        let ended_v6 = idle.reported(map_sequence(self.connections_v6), now);
        DeviceView {
            connections_v4: map_applied(self.connections_v4, idle, now),
            connections_v6: map_applied(self.connections_v6, idle, now),
            events: self.events + ended_v4.map_values(
                |c: ConnectionV4| end_event_v4(c, c.process_id),
            ) + ended_v6.map_values(|c: ConnectionV6| end_event_v6(c, c.process_id)),
            ..self
        }.retired(
            ended_v4.map_values(|c: ConnectionV4| c.instance_id) + ended_v6.map_values(
                |c: ConnectionV6| c.instance_id,
            ),
            now,
        )
    }

    /// Retained history was removed after its grace period.
    pub open spec fn history_removed(self, now: u64) -> Self {
        DeviceView {
            connections_v4: map_retained(self.connections_v4, earlier(now, ENDED_GRACE_MS)),
            connections_v6: map_retained(self.connections_v6, earlier(now, ENDED_GRACE_MS)),
            ..self
        }
    }

    /// Echo requests that stayed unanswered for too long were forgotten.
    pub open spec fn echoes_expired(self, now: u64) -> Self {
        DeviceView {
            echoes: self.echoes.filter(
                |r: EchoRequest| !expired(r, now, self.echo_lifetime),
            ),
            ..self
        }
    }

    /// Periodic maintenance was done.
    pub open spec fn cleaned(self, expired: Seq<TcpEndpointConnection>, now: u64) -> Self {
        self.history_removed(now).idle_ended(now).unestablished_ended(
            expired,
            now,
        ).udp_reconciled().echoes_expired(now)
    }

    /// Connections and endpoints were forgotten without reporting their end.
    pub open spec fn caches_cleared(self) -> Self {
        DeviceView {
            connections_v4: MapView::<Ipv4Address>::empty(),
            connections_v6: MapView::<Ipv6Address>::empty(),
            endpoints: Endpoints::empty(),
            sockets: Sockets::empty(),
            ..self
        }.udp_reconciled().with_action(ActionView::ResetFilters)
    }

    /// The recorded lines became events.
    pub open spec fn logs_reported(self) -> Self {
        DeviceView { events: self.events + self.log, log: Seq::empty(), ..self }
    }

    /// The byte counters became events and start again.
    pub open spec fn bandwidth_reported(self) -> Self {
        DeviceView {
            events: self.events + report_bytes_v4(self.tcp_v4, IpProtocol::Tcp)
                + report_bytes_v6(self.tcp_v6, IpProtocol::Tcp) + report_bytes_v4(
                self.udp_v4,
                IpProtocol::Udp,
            ) + report_bytes_v6(self.udp_v6, IpProtocol::Udp),
            tcp_v4: Stats::<Ipv4Address>::empty(),
            tcp_v6: Stats::<Ipv6Address>::empty(),
            udp_v4: Stats::<Ipv4Address>::empty(),
            udp_v6: Stats::<Ipv6Address>::empty(),
            ..self
        }
    }

    /// The sizes of all caches were recorded in the log.
    pub open spec fn sizes_recorded(self) -> Self {
        self.with_error(
            counted(
                "Packet cache: ",
                capped(self.queue.len() + self.in_progress.dom().len() as int),
            ) + encode_utf8(" entries"@),
        ).with_error(
            counted(
                "Connection cache: IPv4 ",
                capped(map_sequence(self.connections_v4).len() as int),
            ) + counted(
                " entries, IPv6 ",
                capped(map_sequence(self.connections_v6).len() as int),
            ) + encode_utf8(" entries"@),
        ).with_error(
            counted(
                "Untracked connections: ",
                capped(
                    map_sequence(self.connections_v4).filter(
                        |c: ConnectionV4| live_untracked(c),
                    ).len() + map_sequence(self.connections_v6).filter(
                        |c: ConnectionV6| live_untracked(c),
                    ).len() as int,
                ),
            ) + encode_utf8(" entries"@),
        ).with_error(
            counted("BandwidthStats cache: TCPv4 ", self.tcp_v4.dom().len() as int) + counted(
                ", TCPv6 ",
                self.tcp_v6.dom().len() as int,
            ) + counted(", UDPv4 ", self.udp_v4.dom().len() as int) + counted(
                ", UDPv6 ",
                self.udp_v6.dom().len() as int,
            ) + encode_utf8(" entries"@),
        ).with_error(
            counted("TCP endpoint cache: ", self.endpoints.dom().len() as int) + counted(
                " entries, ",
                self.closures.dom().len() as int,
            ) + encode_utf8(" pending closures"@),
        ).with_error(
            counted("UDP endpoint cache: ", self.sockets.dom().len() as int) + counted(
                " endpoints, ",
                capped(all_instances(self.sockets).len() as int),
            ) + encode_utf8(" peers"@),
        ).with_error(
            counted("UDP flow cache: ", self.flows.dom().len() as int) + counted(
                " entries, ",
                self.flow_callbacks as int,
            ) + encode_utf8(" callbacks in progress"@),
        ).with_error(
            counted("ICMP echo cache: ", self.echoes.len() as int) + encode_utf8(" entries"@),
        )
    }

    /// One request was resolved for good.
    pub open spec fn request_resolved(self, request: Request<H>, now: u64) -> Self {
        let decided = match request.value.connection_instance_id {
            Some(id) => self.decided(request.value.key, id, Verdict::PermanentBlock, now),
            None => self,
        };
        decided.discarded(request, now)
    }

    /// Some requests were resolved for good.
    pub open spec fn requests_resolved(self, requests: Seq<Request<H>>, now: u64) -> Self
        decreases requests.len(),
    {
        if requests.len() == 0 {
            self
        } else {
            self.request_resolved(requests[0], now).requests_resolved(requests.drop_first(), now)
        }
    }

    /// Some closing endpoints completed without waiting any longer.
    pub open spec fn closures_drained(self, closures: Seq<ClosureView<C>>, now: u64) -> Self
        decreases closures.len(),
    {
        if closures.len() == 0 {
            self
        } else {
            let c = closures[0];
            self.ended(c.endpoint.key, c.endpoint.instance_id, c.process_id, now).with_action(
                ActionView::CompleteClassify(c.classify),
            ).closures_drained(closures.drop_first(), now)
        }
    }

    /// Every closing endpoint completed without waiting any longer.
    pub open spec fn all_closures_drained(self, now: u64) -> Self {
        DeviceView { closures: Map::empty(), ..self }.closures_drained(
            ordered_keys(self.closures.dom()).map_values(|id: u64| self.closures[id]),
            now,
        )
    }

    /// No flow context is accepted any more, and nothing is queued.
    pub open spec fn drained(self) -> Self {
        DeviceView { flows_closing: true, queue: Seq::empty(), ..self }
    }

    /// Nothing waits for a decision any more.
    pub open spec fn all_resolved(self, now: u64) -> Self {
        let resolved = self.drained().requests_resolved(self.queue, now).all_closures_drained(now);
        DeviceView { endpoints: Endpoints::empty(), sockets: Sockets::empty(), ..resolved }
    }

    /// The driver instance came to its end: classification stops, and nothing waits for a
    /// decision any more.
    pub open spec fn shut_down(self, now: u64) -> Self {
        self.with_action(ActionView::Stop).all_resolved(now)
    }
}

/// Peers of every socket are among all instances.
proof fn lemma_peer_is_listed(sockets: Sockets, handle: u64, n: int)
    requires
        ordered_keys(sockets.dom()).to_set() == sockets.dom(),
        sockets.contains_key(handle),
        0 <= n < sockets[handle].len(),
    ensures
        all_instances(sockets).contains(sockets[handle][n].instance_id),
{
    let keys = ordered_keys(sockets.dom());
    assert(keys.to_set().contains(handle));
    let i = choose|i: int| 0 <= i < keys.len() && keys[i] == handle;
    let j = lemma_concat_holds(keys, sockets, i, n);
    let peers = concat(keys, sockets);
    assert(all_instances(sockets)[j] == peers[j].instance_id);
}

/// Removing the peers that are listed and gone keeps exactly the live ones.
proof fn lemma_stale_peers(
    sockets: Sockets,
    stale: Seq<u64>,
    v4: MapView<Ipv4Address>,
    v6: MapView<Ipv6Address>,
)
    requires
        ordered_keys(sockets.dom()).to_set() == sockets.dom(),
        forall|id: u64| #[trigger]
            stale.contains(id) <==> all_instances(sockets).contains(id) && !live_udp_instance(
                v4,
                v6,
                id,
            ),
    ensures
        peers_removed(sockets, |p: UdpEndpointPeer| !stale.contains(p.instance_id))
            == peers_removed(
            sockets,
            |p: UdpEndpointPeer| live_udp_instance(v4, v6, p.instance_id),
        ),
{
    let a = |p: UdpEndpointPeer| !stale.contains(p.instance_id);
    let b = |p: UdpEndpointPeer| live_udp_instance(v4, v6, p.instance_id);
    assert forall|h: u64| sockets.contains_key(h) implies #[trigger] sockets[h].filter(a)
        == sockets[h].filter(b) by {
        assert forall|n: int| 0 <= n < sockets[h].len() implies a(#[trigger] sockets[h][n]) == b(
            sockets[h][n],
        ) by {
            lemma_peer_is_listed(sockets, h, n);
            assert(stale.contains(sockets[h][n].instance_id) || live_udp_instance(
                v4,
                v6,
                sockets[h][n].instance_id,
            ));
        }
        lemma_filter_agree(sockets[h], a, b);
    }
    assert(peers_removed(sockets, a) =~= peers_removed(sockets, b));
}

impl<H, C> Device<H, C> {
    /// The instance IDs of live UDP connections, in order.
    fn live_udp_instances(&self) -> (live: Vec<u64>)
        requires
            self.wf(),
        ensures
            lists::increasing(live@),
            forall|id: u64| #[trigger]
                live@.contains(id) <==> live_udp_instance(
                    self@.connections_v4,
                    self@.connections_v6,
                    id,
                ),
    {
        let all: Vec<u64> = self.connection_cache.live_udp_instance_ids();
        let ghost found = all@;
        let live: Vec<u64> = sort_dedup(all);
        proof {
            let v4 = live_udp_ids(map_sequence(self@.connections_v4));
            let v6 = live_udp_ids(map_sequence(self@.connections_v6));
            broadcast use vstd::seq_lib::group_to_multiset_ensures;

            assert forall|id: u64| #[trigger] live@.contains(id) <==> live_udp_instance(
                self@.connections_v4,
                self@.connections_v6,
                id,
            ) by {
                assert(live@.to_set().contains(id) <==> found.to_set().contains(id));
                assert(found.contains(id) <==> found.to_multiset().count(id) > 0);
                assert((v4 + v6).contains(id) <==> (v4 + v6).to_multiset().count(id) > 0);
                if v4.contains(id) {
                    let i = choose|i: int| 0 <= i < v4.len() && v4[i] == id;
                    assert((v4 + v6)[i] == id);
                }
                if v6.contains(id) {
                    let i = choose|i: int| 0 <= i < v6.len() && v6[i] == id;
                    assert((v4 + v6)[v4.len() + i] == id);
                }
            }
        }
        live
    }

    /// Asks for a flow's context, if it still names the connection.
    fn claim_flow(&mut self, flow_context: u64, instance_id: u64)
        requires
            old(self).wf(),
        ensures
            final(self).wf(),
            final(self)@ == old(self)@.flow_claimed(flow_context, instance_id),
    {
        let claimed: Option<UdpFlowRegistration> = self.udp_flow_cache.claim_removal(
            flow_context,
            instance_id,
        );
        if let Some(registration) = claimed {
            self.actions.push(Action::RemoveFlowContext(registration));
        }
        assert(self@ =~= old(self)@.flow_claimed(flow_context, instance_id));
    }

    /// Reconciles endpoint/flow bookkeeping with the live connection cache. Removing a
    /// context does not close the UDP socket or flow; it merely asks WFP to return it.
    pub fn clean_udp_lifecycle_state(&mut self)
        requires
            old(self).wf(),
        ensures
            final(self).wf(),
            final(self)@ == old(self)@.udp_reconciled(),
    {
        let ghost before = self@;
        let endpoint_instances: Vec<u64> = self.udp_endpoint_cache.instance_ids();
        let candidates: Vec<(u64, u64)> = self.udp_flow_cache.removal_candidates();
        let live: Vec<u64> = self.live_udp_instances();
        let mut stale: Vec<u64> = Vec::new();
        let count: usize = endpoint_instances.len();
        let mut n: usize = 0;
        while n < count
            invariant
                n <= count == endpoint_instances@.len(),
                lists::increasing(live@),
                forall|id: u64| #[trigger]
                    stale@.contains(id) <==> endpoint_instances@.take(n as int).contains(id)
                        && !live@.contains(id),
            decreases count - n,
        {
            let id: u64 = endpoint_instances[n];
            let ghost done = endpoint_instances@.take(n as int);
            let ghost had = stale@;
            assert(endpoint_instances@.take(n + 1) =~= done.push(id));
            if !lists::contains(&live, id) {
                stale.push(id);
            }
            proof {
                assert forall|x: u64| #[trigger] stale@.contains(x) <==> done.push(id).contains(x)
                    && !live@.contains(x) by {
                    assert(had.contains(x) <==> done.contains(x) && !live@.contains(x));
                    if done.contains(x) {
                        let i = choose|i: int| 0 <= i < done.len() && done[i] == x;
                        assert(done.push(id)[i] == x);
                    }
                    if had.contains(x) {
                        let i = choose|i: int| 0 <= i < had.len() && had[i] == x;
                        assert(stale@[i] == x);
                    }
                    if x == id {
                        assert(done.push(id)[done.len() as int] == x);
                        if !live@.contains(id) {
                            assert(stale@[had.len() as int] == x);
                        }
                    }
                }
            }
            n = n + 1;
        }
        assert(endpoint_instances@.take(count as int) =~= endpoint_instances@);
        proof {
            lemma_stale_peers(
                before.sockets,
                stale@,
                before.connections_v4,
                before.connections_v6,
            );
        }
        let _ = self.udp_endpoint_cache.remove_instances(stale);
        let ghost start = self@;
        assert(start =~= (DeviceView {
            sockets: peers_removed(
                before.sockets,
                |p: UdpEndpointPeer|
                    live_udp_instance(before.connections_v4, before.connections_v6, p.instance_id),
            ),
            ..before
        }));
        let total: usize = candidates.len();
        let mut k: usize = 0;
        assert(candidates@.skip(0) =~= candidates@);
        while k < total
            invariant
                k <= total == candidates@.len(),
                self.wf(),
                lists::increasing(live@),
                self@.connections_v4 == start.connections_v4,
                self@.connections_v6 == start.connections_v6,
                forall|id: u64| #[trigger]
                    live@.contains(id) <==> live_udp_instance(
                        start.connections_v4,
                        start.connections_v6,
                        id,
                    ),
                self@.flows_claimed(candidates@.skip(k as int)) == start.flows_claimed(
                    candidates@,
                ),
            decreases total - k,
        {
            let (context, id): (u64, u64) = candidates[k];
            assert(candidates@.skip(k as int).drop_first() =~= candidates@.skip(k + 1));
            if !lists::contains(&live, id) {
                self.claim_flow(context, id);
            }
            k = k + 1;
        }
        assert(candidates@.skip(total as int) =~= Seq::empty());
    }

    /// Ends an authorization that waited too long for its flow.
    fn end_overdue(&mut self, endpoint: TcpEndpointConnection, now: u64)
        requires
            old(self).wf(),
        ensures
            final(self).wf(),
            final(self)@ == old(self)@.overdue_ended(endpoint, now),
    {
        let ghost before = self@;
        let key = endpoint.key;
        let id: u64 = endpoint.instance_id;
        if key.is_ipv6() {
            let ended: Option<ConnectionV6> = self.connection_cache.end_connection_instance_v6(
                key,
                id,
                now,
            );
            if let Some(connection) = ended {
                let event: Info = emit_connection_end_v6(&connection, connection.process_id);
                self.event_queue.push_back(event);
            }
        } else {
            let ended: Option<ConnectionV4> = self.connection_cache.end_connection_instance_v4(
                key,
                id,
                now,
            );
            if let Some(connection) = ended {
                let event: Info = emit_connection_end_v4(&connection, connection.process_id);
                self.event_queue.push_back(event);
            }
        }
        assert(self@ =~= before.ended(key, id, before.owner_of(endpoint), now));
        let mut ids: Vec<u64> = Vec::new();
        ids.push(id);
        assert(ids@ =~= seq![id]);
        self.retire_pending_connection_instances(ids.as_slice(), now);
    }

    /// Ends local TCP authorizations that have not reached an established flow within ten
    /// seconds.
    pub fn end_unestablished(&mut self, now: u64)
        requires
            old(self).wf(),
        ensures
            final(self).wf(),
            exists|expired: Seq<TcpEndpointConnection>|
                overdue_generations(
                    old(self)@.endpoints,
                    earlier(now, UNESTABLISHED_TIMEOUT_MS),
                    expired,
                ) && final(self)@ == #[trigger] old(self)@.unestablished_ended(expired, now),
    {
        let ghost before = self@;
        let cutoff: u64 = now.saturating_sub(UNESTABLISHED_TIMEOUT_MS);
        let overdue_now: Vec<TcpEndpointConnection> =
            self.tcp_endpoint_cache.take_unestablished_before(cutoff, always);
        let ghost all = overdue_now@;
        proof {
            assert(overdue_generations(before.endpoints, cutoff, all));
            assert(self@.endpoints =~= endpoints_without(before.endpoints, all));
            assert(self@ =~= (DeviceView {
                endpoints: endpoints_without(before.endpoints, all),
                ..before
            }));
        }
        let ghost start = self@;
        let count: usize = overdue_now.len();
        let mut n: usize = 0;
        assert(all.skip(0) =~= all);
        while n < count
            invariant
                n <= count == overdue_now@.len(),
                all == overdue_now@,
                self.wf(),
                self@.overdue_ended_all(all.skip(n as int), now) == start.overdue_ended_all(
                    all,
                    now,
                ),
            decreases count - n,
        {
            assert(all.skip(n as int).drop_first() =~= all.skip(n + 1));
            self.end_overdue(overdue_now[n], now);
            n = n + 1;
        }
        assert(all.skip(count as int) =~= Seq::empty());
        assert(self@ == before.unestablished_ended(all, now));
    }

    /// Ends outbound fallback connections after a minute of silence, reports their end
    /// and retires their requests.
    pub fn end_idle_untracked(&mut self, now: u64)
        requires
            old(self).wf(),
        ensures
            final(self).wf(),
            final(self)@ == old(self)@.idle_ended(now),
    {
        let ghost before = self@;
        let (ended_v4, ended_v6): (Vec<ConnectionV4>, Vec<ConnectionV6>) =
            self.connection_cache.end_inactive_untracked_connections(now);
        let ghost start = self@;
        let mut ids: Vec<u64> = Vec::new();
        let count_v4: usize = ended_v4.len();
        let mut n: usize = 0;
        while n < count_v4
            invariant
                n <= count_v4 == ended_v4@.len(),
                self.wf(),
                self@ == (DeviceView { events: self@.events, ..start }),
                self@.events == start.events + ended_v4@.take(n as int).map_values(
                    |c: ConnectionV4| end_event_v4(c, c.process_id),
                ),
                ids@ == ended_v4@.take(n as int).map_values(|c: ConnectionV4| c.instance_id),
            decreases count_v4 - n,
        {
            let connection: ConnectionV4 = ended_v4[n];
            let ghost prior = self@;
            let event: Info = emit_connection_end_v4(&connection, connection.process_id);
            self.push_event(event);
            ids.push(connection.instance_id);
            n = n + 1;
            proof {
                assert(ended_v4@.take(n as int) =~= ended_v4@.take(n - 1).push(connection));
                assert(self@.events =~= start.events + ended_v4@.take(n as int).map_values(
                    |c: ConnectionV4| end_event_v4(c, c.process_id),
                ));
                assert(ids@ =~= ended_v4@.take(n as int).map_values(
                    |c: ConnectionV4| c.instance_id,
                ));
                assert(self@ =~= (DeviceView { events: self@.events, ..start }));
            }
        }
        assert(ended_v4@.take(count_v4 as int) =~= ended_v4@);
        let ghost middle = self@;
        let ghost first_ids = ids@;
        let count_v6: usize = ended_v6.len();
        let mut k: usize = 0;
        assert(ids@ =~= first_ids + ended_v6@.take(0).map_values(|c: ConnectionV6| c.instance_id));
        assert(self@.events =~= middle.events + ended_v6@.take(0).map_values(
            |c: ConnectionV6| end_event_v6(c, c.process_id),
        ));
        while k < count_v6
            invariant
                k <= count_v6 == ended_v6@.len(),
                self.wf(),
                self@ == (DeviceView { events: self@.events, ..start }),
                self@.events == middle.events + ended_v6@.take(k as int).map_values(
                    |c: ConnectionV6| end_event_v6(c, c.process_id),
                ),
                ids@ == first_ids + ended_v6@.take(k as int).map_values(
                    |c: ConnectionV6| c.instance_id,
                ),
            decreases count_v6 - k,
        {
            let connection: ConnectionV6 = ended_v6[k];
            let event: Info = emit_connection_end_v6(&connection, connection.process_id);
            self.push_event(event);
            ids.push(connection.instance_id);
            k = k + 1;
            proof {
                assert(ended_v6@.take(k as int) =~= ended_v6@.take(k - 1).push(connection));
                assert(self@.events =~= middle.events + ended_v6@.take(k as int).map_values(
                    |c: ConnectionV6| end_event_v6(c, c.process_id),
                ));
                assert(ids@ =~= first_ids + ended_v6@.take(k as int).map_values(
                    |c: ConnectionV6| c.instance_id,
                ));
                assert(self@ =~= (DeviceView { events: self@.events, ..start }));
            }
        }
        assert(ended_v6@.take(count_v6 as int) =~= ended_v6@);
        self.retire_pending_connection_instances(ids.as_slice(), now);
    }

    fn expire_echoes(&mut self, now: u64)
        requires
            old(self).wf(),
        ensures
            final(self).wf(),
            final(self)@ == old(self)@.echoes_expired(now),
    {
        self.icmp_echo_cache.clean_expired_entries(now);
        assert(self@ =~= old(self)@.echoes_expired(now));
    }

    /// Performs periodic state maintenance: removes ended history after its grace period,
    /// ends idle fallback connections and authorizations without a flow, reconciles UDP
    /// sockets and flows, and forgets unanswered echo requests.
    pub fn clean_ended_connections(&mut self, now: u64)
        requires
            old(self).wf(),
        ensures
            final(self).wf(),
            exists|expired: Seq<TcpEndpointConnection>|
                overdue_generations(
                    old(self)@.endpoints,
                    earlier(now, UNESTABLISHED_TIMEOUT_MS),
                    expired,
                ) && final(self)@ == #[trigger] old(self)@.cleaned(expired, now),
    {
        let ghost before = self@;
        self.connection_cache.clean_ended_connections(now);
        assert(self@ =~= before.history_removed(now));
        self.end_idle_untracked(now);
        proof {
            lemma_idle_keeps_endpoints(before.history_removed(now), now);
        }
        let ghost idle = self@;
        self.end_unestablished(now);
        let ghost expired = choose|expired: Seq<TcpEndpointConnection>|
            overdue_generations(
                idle.endpoints,
                earlier(now, UNESTABLISHED_TIMEOUT_MS),
                expired,
            ) && self@ == #[trigger] idle.unestablished_ended(expired, now);
        self.clean_udp_lifecycle_state();
        self.expire_echoes(now);
        assert(self@ == before.cleaned(expired, now));
    }

    /// Forgets connections and endpoints and reconciles what is left. No end is reported.
    pub fn clear_cache(&mut self)
        requires
            old(self).wf(),
        ensures
            final(self).wf(),
            final(self)@ == old(self)@.caches_cleared(),
    {
        let ghost before = self@;
        self.connection_cache.clear();
        self.tcp_endpoint_cache.clear();
        self.udp_endpoint_cache.clear();
        assert(self@ =~= (DeviceView {
            connections_v4: MapView::<Ipv4Address>::empty(),
            connections_v6: MapView::<Ipv6Address>::empty(),
            endpoints: Endpoints::empty(),
            sockets: Sockets::empty(),
            ..before
        }));
        self.clean_udp_lifecycle_state();
        self.push_action(Action::ResetFilters);
    }

    /// Turns the recorded lines into events.
    pub fn report_logs(&mut self)
        requires
            old(self).wf(),
        ensures
            final(self).wf(),
            final(self)@ == old(self)@.logs_reported(),
    {
        let ghost before = self@;
        let lines: Vec<Info> = logger::flush(&mut self.log);
        let ghost all = lines@;
        let mut rest: VecDeque<Info> = VecDeque::new();
        for line in iter: lines.into_iter()
            invariant
                iter.seq() == all,
                rest@ == all.take(iter.index() as int),
        {
            rest.push_back(line);
            assert(rest@ =~= all.take(iter.index() + 1));
        }
        assert(rest@ =~= all);
        self.event_queue.append(&mut rest);
        proof {
            assert(self@.log =~= Seq::empty());
            assert(self@.events =~= before.events + before.log);
            assert(self@ =~= before.logs_reported());
        }
    }
}

proof fn lemma_idle_keeps_endpoints<H, C>(s: DeviceView<H, C>, now: u64)
    ensures
        s.idle_ended(now).endpoints == s.endpoints,
{
    let idle = Selection::Idle { cutoff: earlier(now, UNTRACKED_IDLE_TIMEOUT_MS) };
    let ended_v4 = idle.reported(map_sequence(s.connections_v4), now);
    let ended_v6 = idle.reported(map_sequence(s.connections_v6), now);
    let t = DeviceView {
        connections_v4: map_applied(s.connections_v4, idle, now),
        connections_v6: map_applied(s.connections_v6, idle, now),
        events: s.events + ended_v4.map_values(|c: ConnectionV4| end_event_v4(c, c.process_id))
            + ended_v6.map_values(|c: ConnectionV6| end_event_v6(c, c.process_id)),
        ..s
    };
    retirement_touches_only_requests(
        t,
        ended_v4.map_values(|c: ConnectionV4| c.instance_id) + ended_v6.map_values(
            |c: ConnectionV6| c.instance_id,
        ),
        now,
    );
}

fn always(endpoint: &TcpEndpointConnection) -> (r: bool)
    ensures
        r,
{
    true
}

} // verus!
