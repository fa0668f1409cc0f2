//! Reports to user space, and the end of a driver instance.

use crate::bandwidth::{
    in_order, left_over, lemma_all_taken, lemma_cut_in_order, record_v4, record_v6, records_v4,
    records_v6, taken, Stats,
};
use crate::connection::{AddressFamily, Verdict};
use crate::device::Device;
use crate::device_maintenance::{counted, report_bytes_v4, report_bytes_v6};
use crate::device_state::{closure_view, Action, DeviceView};
use crate::id_cache::Request;
use crate::info::{MAX_BANDWIDTH_ENTRIES_V4, MAX_BANDWIDTH_ENTRIES_V6};
use crate::ip::{IpProtocol, Ipv4Address, Ipv6Address};
use crate::ordered::ordered_keys;
use crate::tcp_closure_cache::PendingTcpClosure;
use crate::tcp_endpoint_cache::Endpoints;
use crate::text::{push_decimal, push_text};
use crate::udp_endpoint_cache::Sockets;
use std::collections::VecDeque;
use vstd::prelude::*;
use vstd::utf8::encode_utf8;

verus! {

fn push_count(out: &mut Vec<u8>, text: &str, n: usize)
    ensures
        final(out)@ == old(out)@ + counted(text, n as int),
{
    push_text(out, text);
    push_decimal(out, n as u64);
    assert(out@ =~= old(out)@ + counted(text, n as int));
}

/// The first record of some counters, and those that follow.
proof fn lemma_next_record_v4(stats: Stats<Ipv4Address>, protocol: IpProtocol)
    requires
        stats.dom().finite(),
        stats.dom().len() > 0,
    ensures
        ({
            let limit = MAX_BANDWIDTH_ENTRIES_V4 as nat;
            &&& report_bytes_v4(stats, protocol) == seq![record_v4(taken(stats, limit), protocol)]
                + report_bytes_v4(left_over(stats, limit), protocol)
            &&& in_order(left_over(stats, limit)).len() < in_order(stats).len()
        }),
{
    let limit = MAX_BANDWIDTH_ENTRIES_V4 as nat;
    lemma_cut_in_order(stats, limit);
    let values = in_order(stats);
    let rest = in_order(left_over(stats, limit));
    if values.len() <= limit {
        assert(rest.len() == 0);
        assert(records_v4(rest, protocol) =~= Seq::empty());
    } else {
        assert(rest =~= values.skip(limit as int));
    }
    assert(report_bytes_v4(stats, protocol) =~= seq![record_v4(taken(stats, limit), protocol)]
        + report_bytes_v4(left_over(stats, limit), protocol));
}

/// The first record of some counters, and those that follow.
proof fn lemma_next_record_v6(stats: Stats<Ipv6Address>, protocol: IpProtocol)
    requires
        stats.dom().finite(),
        stats.dom().len() > 0,
    ensures
        ({
            let limit = MAX_BANDWIDTH_ENTRIES_V6 as nat;
            &&& report_bytes_v6(stats, protocol) == seq![record_v6(taken(stats, limit), protocol)]
                + report_bytes_v6(left_over(stats, limit), protocol)
            &&& in_order(left_over(stats, limit)).len() < in_order(stats).len()
        }),
{
    let limit = MAX_BANDWIDTH_ENTRIES_V6 as nat;
    lemma_cut_in_order(stats, limit);
    let values = in_order(stats);
    let rest = in_order(left_over(stats, limit));
    if values.len() <= limit {
        assert(rest.len() == 0);
        assert(records_v6(rest, protocol) =~= Seq::empty());
    } else {
        assert(rest =~= values.skip(limit as int));
    }
    assert(report_bytes_v6(stats, protocol) =~= seq![record_v6(taken(stats, limit), protocol)]
        + report_bytes_v6(left_over(stats, limit), protocol));
}

/// There is nothing to report of no flow.
proof fn lemma_nothing_in_order<A: AddressFamily>()
    ensures
        in_order(Stats::<A>::empty()).len() == 0,
{
    lemma_cut_in_order(Stats::<A>::empty(), 0);
}

impl<H, C> Device<H, C> {
    /// Turns the TCP counters over IPv4 into events, in as many records as they need.
    fn report_tcp_v4(&mut self)
        requires
            old(self).wf(),
        ensures
            final(self).wf(),
            final(self)@ == (DeviceView {
                events: old(self)@.events + report_bytes_v4(old(self)@.tcp_v4, IpProtocol::Tcp),
                tcp_v4: Stats::<Ipv4Address>::empty(),
                ..old(self)@
            }),
    {
        let ghost start = self@;
        let ghost all = report_bytes_v4(start.tcp_v4, IpProtocol::Tcp);
        let ghost mut done: Seq<Seq<u8>> = Seq::empty();
        let mut more: bool = true;
        assert(all =~= done + all);
        assert(start.events =~= start.events + done);
        while more
            invariant
                self.wf(),
                self@ == (DeviceView {
                    events: start.events + done,
                    tcp_v4: self@.tcp_v4,
                    ..start
                }),
                all == done + report_bytes_v4(self@.tcp_v4, IpProtocol::Tcp),
                !more ==> self@.tcp_v4 == Stats::<Ipv4Address>::empty(),
            decreases more as int + in_order(self@.tcp_v4).len(),
        {
            let ghost before = self@;
            match self.bandwidth_stats.get_all_updates_tcp_v4() {
                Some(report) => {
                    proof {
                        lemma_next_record_v4(before.tcp_v4, IpProtocol::Tcp);
                        done = done.push(report@);
                    }
                    self.push_event(report);
                    proof {
                        assert(self@.events =~= start.events + done);
                        assert(all =~= done + report_bytes_v4(self@.tcp_v4, IpProtocol::Tcp));
                    }
                },
                None => {
                    proof {
                        lemma_all_taken(before.tcp_v4, MAX_BANDWIDTH_ENTRIES_V4 as nat);
                        assert(before.tcp_v4 =~= Stats::<Ipv4Address>::empty());
                        assert(self@ =~= before);
                    }
                    more = false;
                },
            }
        }
        proof {
            lemma_nothing_in_order::<Ipv4Address>();
            assert(all =~= done);
        }
    }

    /// Turns the TCP counters over IPv6 into events, in as many records as they need.
    fn report_tcp_v6(&mut self)
        requires
            old(self).wf(),
        ensures
            final(self).wf(),
            final(self)@ == (DeviceView {
                events: old(self)@.events + report_bytes_v6(old(self)@.tcp_v6, IpProtocol::Tcp),
                tcp_v6: Stats::<Ipv6Address>::empty(),
                ..old(self)@
            }),
    {
        let ghost start = self@;
        let ghost all = report_bytes_v6(start.tcp_v6, IpProtocol::Tcp);
        let ghost mut done: Seq<Seq<u8>> = Seq::empty();
        let mut more: bool = true;
        assert(all =~= done + all);
        assert(start.events =~= start.events + done);
        while more
            invariant
                self.wf(),
                self@ == (DeviceView {
                    events: start.events + done,
                    tcp_v6: self@.tcp_v6,
                    ..start
                }),
                all == done + report_bytes_v6(self@.tcp_v6, IpProtocol::Tcp),
                !more ==> self@.tcp_v6 == Stats::<Ipv6Address>::empty(),
            decreases more as int + in_order(self@.tcp_v6).len(),
        {
            let ghost before = self@;
            match self.bandwidth_stats.get_all_updates_tcp_v6() {
                Some(report) => {
                    proof {
                        lemma_next_record_v6(before.tcp_v6, IpProtocol::Tcp);
                        done = done.push(report@);
                    }
                    self.push_event(report);
                    proof {
                        assert(self@.events =~= start.events + done);
                        assert(all =~= done + report_bytes_v6(self@.tcp_v6, IpProtocol::Tcp));
                    }
                },
                None => {
                    proof {
                        lemma_all_taken(before.tcp_v6, MAX_BANDWIDTH_ENTRIES_V6 as nat);
                        assert(before.tcp_v6 =~= Stats::<Ipv6Address>::empty());
                        assert(self@ =~= before);
                    }
                    more = false;
                },
            }
        }
        proof {
            lemma_nothing_in_order::<Ipv6Address>();
            assert(all =~= done);
        }
    }

    /// Turns the UDP counters over IPv4 into events, in as many records as they need.
    fn report_udp_v4(&mut self)
        requires
            old(self).wf(),
        ensures
            final(self).wf(),
            final(self)@ == (DeviceView {
                events: old(self)@.events + report_bytes_v4(old(self)@.udp_v4, IpProtocol::Udp),
                udp_v4: Stats::<Ipv4Address>::empty(),
                ..old(self)@
            }),
    {
        let ghost start = self@;
        let ghost all = report_bytes_v4(start.udp_v4, IpProtocol::Udp);
        let ghost mut done: Seq<Seq<u8>> = Seq::empty();
        let mut more: bool = true;
        assert(all =~= done + all);
        assert(start.events =~= start.events + done);
        while more
            invariant
                self.wf(),
                self@ == (DeviceView {
                    events: start.events + done,
                    udp_v4: self@.udp_v4,
                    ..start
                }),
                all == done + report_bytes_v4(self@.udp_v4, IpProtocol::Udp),
                !more ==> self@.udp_v4 == Stats::<Ipv4Address>::empty(),
            decreases more as int + in_order(self@.udp_v4).len(),
        {
            let ghost before = self@;
            match self.bandwidth_stats.get_all_updates_udp_v4() {
                Some(report) => {
                    proof {
                        lemma_next_record_v4(before.udp_v4, IpProtocol::Udp);
                        done = done.push(report@);
                    }
                    self.push_event(report);
                    proof {
                        assert(self@.events =~= start.events + done);
                        assert(all =~= done + report_bytes_v4(self@.udp_v4, IpProtocol::Udp));
                    }
                },
                None => {
                    proof {
                        lemma_all_taken(before.udp_v4, MAX_BANDWIDTH_ENTRIES_V4 as nat);
                        assert(before.udp_v4 =~= Stats::<Ipv4Address>::empty());
                        assert(self@ =~= before);
                    }
                    more = false;
                },
            }
        }
        proof {
            lemma_nothing_in_order::<Ipv4Address>();
            assert(all =~= done);
        }
    }

    /// Turns the UDP counters over IPv6 into events, in as many records as they need.
    fn report_udp_v6(&mut self)
        requires
            old(self).wf(),
        ensures
            final(self).wf(),
            final(self)@ == (DeviceView {
                events: old(self)@.events + report_bytes_v6(old(self)@.udp_v6, IpProtocol::Udp),
                udp_v6: Stats::<Ipv6Address>::empty(),
                ..old(self)@
            }),
    {
        let ghost start = self@;
        let ghost all = report_bytes_v6(start.udp_v6, IpProtocol::Udp);
        let ghost mut done: Seq<Seq<u8>> = Seq::empty();
        let mut more: bool = true;
        assert(all =~= done + all);
        assert(start.events =~= start.events + done);
        while more
            invariant
                self.wf(),
                self@ == (DeviceView {
                    events: start.events + done,
                    udp_v6: self@.udp_v6,
                    ..start
                }),
                all == done + report_bytes_v6(self@.udp_v6, IpProtocol::Udp),
                !more ==> self@.udp_v6 == Stats::<Ipv6Address>::empty(),
            decreases more as int + in_order(self@.udp_v6).len(),
        {
            let ghost before = self@;
            match self.bandwidth_stats.get_all_updates_udp_v6() {
                Some(report) => {
                    proof {
                        lemma_next_record_v6(before.udp_v6, IpProtocol::Udp);
                        done = done.push(report@);
                    }
                    self.push_event(report);
                    proof {
                        assert(self@.events =~= start.events + done);
                        assert(all =~= done + report_bytes_v6(self@.udp_v6, IpProtocol::Udp));
                    }
                },
                None => {
                    proof {
                        lemma_all_taken(before.udp_v6, MAX_BANDWIDTH_ENTRIES_V6 as nat);
                        assert(before.udp_v6 =~= Stats::<Ipv6Address>::empty());
                        assert(self@ =~= before);
                    }
                    more = false;
                },
            }
        }
        proof {
            lemma_nothing_in_order::<Ipv6Address>();
            assert(all =~= done);
        }
    }

    /// Takes the byte counters and turns them into events. Empty sets are not reported.
    pub fn report_bandwidth(&mut self)
        requires
            old(self).wf(),
        ensures
            final(self).wf(),
            final(self)@ == old(self)@.bandwidth_reported(),
    {
        self.report_tcp_v4();
        self.report_tcp_v6();
        self.report_udp_v4();
        self.report_udp_v6();
        assert(self@ =~= old(self)@.bandwidth_reported());
    }

    fn echo_count(&self) -> (n: usize)
        ensures
            n == self@.echoes.len(),
    {
        self.icmp_echo_cache.get_entries_count()
    }

    /// Records the sizes of all caches in the log.
    pub fn record_sizes(&mut self)
        requires
            old(self).wf(),
        ensures
            final(self).wf(),
            final(self)@ == old(self)@.sizes_recorded(),
    {
        let ghost s = self@;
        proof {
            assert(s.closures.dom() =~= self.tcp_closure_cache@.dom());
        }
        let packets: usize = self.packet_cache.get_entries_count();
        let (connections_v4, connections_v6): (usize, usize) =
            self.connection_cache.get_entries_counts();
        let untracked: usize = self.connection_cache.get_untracked_count();
        let (tcp_v4, tcp_v6, udp_v4, udp_v6): (usize, usize, usize, usize) =
            self.bandwidth_stats.get_entries_counts();
        let endpoints: usize = self.tcp_endpoint_cache.get_entries_count();
        let closures: usize = self.tcp_closure_cache.get_entries_count();
        let (sockets, peers): (usize, usize) = self.udp_endpoint_cache.get_entries_counts();
        let (flows, callbacks): (usize, usize) = self.udp_flow_cache.get_entries_counts();
        let echoes: usize = self.echo_count();

        let mut line: Vec<u8> = Vec::new();
        push_count(&mut line, "Packet cache: ", packets);
        push_text(&mut line, " entries");
        assert(line@ =~= counted("Packet cache: ", packets as int) + encode_utf8(" entries"@));
        self.record_error(line.as_slice());

        let mut line: Vec<u8> = Vec::new();
        push_count(&mut line, "Connection cache: IPv4 ", connections_v4);
        push_count(&mut line, " entries, IPv6 ", connections_v6);
        push_text(&mut line, " entries");
        assert(line@ =~= counted("Connection cache: IPv4 ", connections_v4 as int) + counted(
            " entries, IPv6 ",
            connections_v6 as int,
        ) + encode_utf8(" entries"@));
        self.record_error(line.as_slice());

        let mut line: Vec<u8> = Vec::new();
        push_count(&mut line, "Untracked connections: ", untracked);
        push_text(&mut line, " entries");
        assert(line@ =~= counted("Untracked connections: ", untracked as int) + encode_utf8(
            " entries"@,
        ));
        self.record_error(line.as_slice());

        let mut line: Vec<u8> = Vec::new();
        push_count(&mut line, "BandwidthStats cache: TCPv4 ", tcp_v4);
        push_count(&mut line, ", TCPv6 ", tcp_v6);
        push_count(&mut line, ", UDPv4 ", udp_v4);
        push_count(&mut line, ", UDPv6 ", udp_v6);
        push_text(&mut line, " entries");
        assert(line@ =~= counted("BandwidthStats cache: TCPv4 ", tcp_v4 as int) + counted(
            ", TCPv6 ",
            tcp_v6 as int,
        ) + counted(", UDPv4 ", udp_v4 as int) + counted(", UDPv6 ", udp_v6 as int) + encode_utf8(
            " entries"@,
        ));
        self.record_error(line.as_slice());

        let mut line: Vec<u8> = Vec::new();
        push_count(&mut line, "TCP endpoint cache: ", endpoints);
        push_count(&mut line, " entries, ", closures);
        push_text(&mut line, " pending closures");
        assert(line@ =~= counted("TCP endpoint cache: ", endpoints as int) + counted(
            " entries, ",
            closures as int,
        ) + encode_utf8(" pending closures"@));
        self.record_error(line.as_slice());

        let mut line: Vec<u8> = Vec::new();
        push_count(&mut line, "UDP endpoint cache: ", sockets);
        push_count(&mut line, " endpoints, ", peers);
        push_text(&mut line, " peers");
        assert(line@ =~= counted("UDP endpoint cache: ", sockets as int) + counted(
            " endpoints, ",
            peers as int,
        ) + encode_utf8(" peers"@));
        self.record_error(line.as_slice());

        let mut line: Vec<u8> = Vec::new();
        push_count(&mut line, "UDP flow cache: ", flows);
        push_count(&mut line, " entries, ", callbacks);
        push_text(&mut line, " callbacks in progress");
        assert(line@ =~= counted("UDP flow cache: ", flows as int) + counted(
            " entries, ",
            callbacks as int,
        ) + encode_utf8(" callbacks in progress"@));
        self.record_error(line.as_slice());

        let mut line: Vec<u8> = Vec::new();
        push_count(&mut line, "ICMP echo cache: ", echoes);
        push_text(&mut line, " entries");
        assert(line@ =~= counted("ICMP echo cache: ", echoes as int) + encode_utf8(" entries"@));
        self.record_error(line.as_slice());
    }

    /// Resolves requests for good that have left the queue.
    fn resolve_requests(&mut self, requests: VecDeque<Request<H>>, now: u64)
        requires
            old(self).wf(),
            old(self)@.queue.len() == 0,
        ensures
            final(self).wf(),
            final(self)@ == old(self)@.requests_resolved(requests@, now),
            final(self)@.queue.len() == 0,
    {
        let ghost start = self@;
        let ghost all = requests@;
        let mut rest: VecDeque<Request<H>> = requests;
        while rest.len() > 0
            invariant
                self.wf(),
                self@.queue.len() == 0,
                self@.requests_resolved(rest@, now) == start.requests_resolved(all, now),
            decreases rest@.len(),
        {
            let ghost remaining = rest@;
            if let Some(request) = rest.pop_front() {
                assert(rest@ =~= remaining.drop_first());
                let id: u64 = request.id;
                // Any verdict will do: the filters are not active after this.
                match request.value.connection_instance_id {
                    Some(instance_id) => {
                        let _ = self.decide(
                            request.value.key,
                            instance_id,
                            Verdict::PermanentBlock,
                            now,
                        );
                    },
                    None => {},
                }
                self.push_action(
                    Action::Inject {
                        packet: request.value.packet,
                        blocked: true,
                        reset_first: false,
                    },
                );
                self.finish_pending_request(id, now);
            }
        }
    }

    /// Completes every closing endpoint without waiting any longer.
    fn drain_tcp_endpoint_closures(&mut self, now: u64)
        requires
            old(self).wf(),
        ensures
            final(self).wf(),
            final(self)@ == old(self)@.all_closures_drained(now),
            final(self)@.queue == old(self)@.queue,
    {
        let ghost before = self@;
        let drained: Vec<PendingTcpClosure<C>> = self.tcp_closure_cache.drain();
        let ghost start = self@;
        let ghost all = drained@.map_values(
            |c: PendingTcpClosure<C>| closure_view(c),
        );
        proof {
            assert(before.closures.dom() =~= old(self).tcp_closure_cache@.dom());
            assert(start =~= (DeviceView { closures: Map::empty(), ..before }));
            let ids = ordered_keys(before.closures.dom());
            assert(all =~= ids.map_values(|id: u64| before.closures[id])) by {
                assert forall|i: int| 0 <= i < ids.len() implies #[trigger] all[i]
                    == before.closures[ids[i]] by {
                    assert(ids.to_set().contains(ids[i]));
                }
            }
        }
        let ghost mut left = all;
        for closure in iter: drained.into_iter()
            invariant
                self.wf(),
                self@.queue == start.queue,
                iter.seq().map_values(
                    |c: PendingTcpClosure<C>| closure_view(c),
                ) == all,
                left == all.skip(iter.index() as int),
                self@.closures_drained(left, now) == start.closures_drained(all, now),
        {
            let ghost view = closure_view(closure);
            proof {
                assert(left[0] == view);
            }
            let endpoint = closure.endpoint;
            self.end_instance(endpoint.key, endpoint.instance_id, closure.process_id, now);
            self.push_action(Action::CompleteClassify(closure.classify));
            proof {
                left = left.drop_first();
                assert(left =~= all.skip(iter.index() + 1));
            }
        }
        assert(left =~= Seq::empty());
    }

    /// Permanently stops classification for this driver instance and resolves all
    /// pending user-space decisions as blocked.
    pub fn shutdown(&mut self, now: u64)
        requires
            old(self).wf(),
        ensures
            final(self).wf(),
            final(self)@ == old(self)@.shut_down(now),
            final(self)@.queue.len() == 0,
    {
        self.push_action(Action::Stop);
        self.resolve_all(now);
    }

    /// Resolves everything that waits as blocked. Once classification has stopped, this
    /// also resolves what was asked while it stopped.
    pub fn resolve_all(&mut self, now: u64)
        requires
            old(self).wf(),
        ensures
            final(self).wf(),
            final(self)@ == old(self)@.all_resolved(now),
            final(self)@.queue.len() == 0,
    {
        let ghost before = self@;
        self.udp_flow_cache.start_shutdown();
        let pending: VecDeque<Request<H>> = self.packet_cache.pop_all();
        assert(self@ =~= before.drained());
        self.resolve_requests(pending, now);
        self.drain_tcp_endpoint_closures(now);
        let ghost resolved = self@;
        self.tcp_endpoint_cache.clear();
        self.udp_endpoint_cache.clear();
        assert(self@ =~= (DeviceView {
            endpoints: Endpoints::empty(),
            sockets: Sockets::empty(),
            ..resolved
        }));
    }
}

} // verus!
