//! What the byte counters promise.

use crate::bandwidth::{
    entry_v4, entry_v6, in_order, lemma_flow_order, record_v4, record_v6, Key, Stats, Value,
};
use crate::bytes::{le_bytes, lemma_le_bytes_len};
use crate::connection::{AddressFamily, Direction};
use crate::device_maintenance::{report_bytes_v4, report_bytes_v6};
use crate::device_state::DeviceView;
use crate::info::{
    bandwidth_entry_v4_size, bandwidth_entry_v6_size, entries_v4, entries_v6, BandwidthValueV4,
    BandwidthValueV6,
};
use crate::ip::{IpProtocol, Ipv4Address, Ipv6Address};
use crate::ordered::{ordered_keys, ordered_keys_list_the_set};
use crate::record_laws::{
    bandwidth_entry_v4_names_the_flow, bandwidth_entry_v6_names_the_flow, holds_ipv4, holds_ipv6,
    holds_number, lemma_record,
};
use crate::stream_callouts::payload_sum;
use vstd::prelude::*;

verus! {

/// The bytes that a flow has received since the last report.
pub open spec fn received<A: AddressFamily>(stats: Stats<A>, key: Key<A>) -> int {
    if stats.contains_key(key.index()) {
        stats[key.index()].received_bytes as int
    } else {
        0
    }
}

/// The bytes that a flow has sent since the last report.
pub open spec fn sent<A: AddressFamily>(stats: Stats<A>, key: Key<A>) -> int {
    if stats.contains_key(key.index()) {
        stats[key.index()].transmitted_bytes as int
    } else {
        0
    }
}

/// The bytes of some net buffers behind a header of `skipped` bytes in each.
pub open spec fn total(lengths: Seq<usize>, skipped: int) -> int
    decreases lengths.len(),
{
    if lengths.len() == 0 {
        0
    } else {
        let last = lengths.last() as int;
        total(lengths.drop_last(), skipped) + if last >= skipped {
            last - skipped
        } else {
            0
        }
    }
}

proof fn lemma_totals(lengths: Seq<usize>)
    ensures
        payload_sum(Direction::Inbound, lengths) == total(lengths, 0),
        payload_sum(Direction::Outbound, lengths) == total(lengths, 8),
        0 <= total(lengths, 8) <= total(lengths, 0),
    decreases lengths.len(),
{
    if lengths.len() > 0 {
        lemma_totals(lengths.drop_last());
    }
}

/// A stream indication adds its bytes to the received bytes of its IPv4 flow if it was received
/// and to the sent bytes if it was sent, and to nothing else.
pub proof fn stream_bytes_are_counted_v4<H, C>(
    s: DeviceView<H, C>,
    key: Key<Ipv4Address>,
    is_receive: bool,
    data_length: usize,
    other: Key<Ipv4Address>,
)
    requires
        received(s.tcp_v4, key) + data_length <= u64::MAX,
        sent(s.tcp_v4, key) + data_length <= u64::MAX,
    ensures
        ({
            let t = s.stream_seen_v4(key, is_receive, data_length);
            &&& received(t.tcp_v4, key) == received(s.tcp_v4, key) + if is_receive {
                data_length as int
            } else {
                0
            }
            &&& sent(t.tcp_v4, key) == sent(s.tcp_v4, key) + if is_receive {
                0
            } else {
                data_length as int
            }
            &&& other.index() != key.index() ==> received(t.tcp_v4, other) == received(
                s.tcp_v4,
                other,
            ) && sent(t.tcp_v4, other) == sent(s.tcp_v4, other)
            &&& t.tcp_v4.contains_key(key.index()) <==> s.tcp_v4.contains_key(key.index())
                || data_length > 0
            &&& t == (DeviceView { tcp_v4: t.tcp_v4, ..s })
        }),
{
}

/// A received datagram, which is indicated with direction value one, adds the lengths of its
/// net buffers to the received bytes of its IPv4 flow, even if the driver injected it itself. A
/// sent one, with direction value zero, adds what its net buffers hold behind their UDP
/// headers to the sent bytes, unless the driver injected it. Nothing else is counted, and
/// nothing of another protocol.
pub proof fn datagram_bytes_are_counted_v4<H, C>(
    s: DeviceView<H, C>,
    key: Key<Ipv4Address>,
    protocol: IpProtocol,
    self_injected: bool,
    lengths: Seq<usize>,
    other: Key<Ipv4Address>,
)
    requires
        total(lengths, 0) <= usize::MAX,
        received(s.udp_v4, key) + total(lengths, 0) <= u64::MAX,
        sent(s.udp_v4, key) + total(lengths, 8) <= u64::MAX,
    ensures
        ({
            let r = s.datagram_seen_v4(key, protocol, 1, self_injected, lengths);
            let t = s.datagram_seen_v4(key, protocol, 0, self_injected, lengths);
            let receives = protocol is Udp;
            let sends = protocol is Udp && !self_injected;
            &&& received(r.udp_v4, key) == received(s.udp_v4, key) + if receives {
                total(lengths, 0)
            } else {
                0
            }
            &&& sent(r.udp_v4, key) == sent(s.udp_v4, key)
            &&& sent(t.udp_v4, key) == sent(s.udp_v4, key) + if sends {
                total(lengths, 8)
            } else {
                0
            }
            &&& received(t.udp_v4, key) == received(s.udp_v4, key)
            &&& other.index() != key.index() ==> {
                &&& received(r.udp_v4, other) == received(s.udp_v4, other)
                &&& sent(r.udp_v4, other) == sent(s.udp_v4, other)
                &&& received(t.udp_v4, other) == received(s.udp_v4, other)
                &&& sent(t.udp_v4, other) == sent(s.udp_v4, other)
            }
            &&& r.udp_v4.contains_key(key.index()) <==> s.udp_v4.contains_key(key.index())
                || (receives && total(lengths, 0) > 0)
            &&& t.udp_v4.contains_key(key.index()) <==> s.udp_v4.contains_key(key.index())
                || (sends && total(lengths, 8) > 0)
            &&& r == (DeviceView { udp_v4: r.udp_v4, ..s })
            &&& t == (DeviceView { udp_v4: t.udp_v4, ..s })
        }),
{
    lemma_totals(lengths);
}

/// A stream indication adds its bytes to the received bytes of its IPv6 flow if it was received
/// and to the sent bytes if it was sent, and to nothing else.
pub proof fn stream_bytes_are_counted_v6<H, C>(
    s: DeviceView<H, C>,
    key: Key<Ipv6Address>,
    is_receive: bool,
    data_length: usize,
    other: Key<Ipv6Address>,
)
    requires
        received(s.tcp_v6, key) + data_length <= u64::MAX,
        sent(s.tcp_v6, key) + data_length <= u64::MAX,
    ensures
        ({
            let t = s.stream_seen_v6(key, is_receive, data_length);
            &&& received(t.tcp_v6, key) == received(s.tcp_v6, key) + if is_receive {
                data_length as int
            } else {
                0
            }
            &&& sent(t.tcp_v6, key) == sent(s.tcp_v6, key) + if is_receive {
                0
            } else {
                data_length as int
            }
            &&& other.index() != key.index() ==> received(t.tcp_v6, other) == received(
                s.tcp_v6,
                other,
            ) && sent(t.tcp_v6, other) == sent(s.tcp_v6, other)
            &&& t.tcp_v6.contains_key(key.index()) <==> s.tcp_v6.contains_key(key.index())
                || data_length > 0
            &&& t == (DeviceView { tcp_v6: t.tcp_v6, ..s })
        }),
{
}

/// A received datagram, which is indicated with direction value one, adds the lengths of its
/// net buffers to the received bytes of its IPv6 flow, even if the driver injected it itself. A
/// sent one, with direction value zero, adds what its net buffers hold behind their UDP
/// headers to the sent bytes, unless the driver injected it. Nothing else is counted, and
/// nothing of another protocol.
pub proof fn datagram_bytes_are_counted_v6<H, C>(
    s: DeviceView<H, C>,
    key: Key<Ipv6Address>,
    protocol: IpProtocol,
    self_injected: bool,
    lengths: Seq<usize>,
    other: Key<Ipv6Address>,
)
    requires
        total(lengths, 0) <= usize::MAX,
        received(s.udp_v6, key) + total(lengths, 0) <= u64::MAX,
        sent(s.udp_v6, key) + total(lengths, 8) <= u64::MAX,
    ensures
        ({
            let r = s.datagram_seen_v6(key, protocol, 1, self_injected, lengths);
            let t = s.datagram_seen_v6(key, protocol, 0, self_injected, lengths);
            let receives = protocol is Udp;
            let sends = protocol is Udp && !self_injected;
            &&& received(r.udp_v6, key) == received(s.udp_v6, key) + if receives {
                total(lengths, 0)
            } else {
                0
            }
            &&& sent(r.udp_v6, key) == sent(s.udp_v6, key)
            &&& sent(t.udp_v6, key) == sent(s.udp_v6, key) + if sends {
                total(lengths, 8)
            } else {
                0
            }
            &&& received(t.udp_v6, key) == received(s.udp_v6, key)
            &&& other.index() != key.index() ==> {
                &&& received(r.udp_v6, other) == received(s.udp_v6, other)
                &&& sent(r.udp_v6, other) == sent(s.udp_v6, other)
                &&& received(t.udp_v6, other) == received(s.udp_v6, other)
                &&& sent(t.udp_v6, other) == sent(s.udp_v6, other)
            }
            &&& r.udp_v6.contains_key(key.index()) <==> s.udp_v6.contains_key(key.index())
                || (receives && total(lengths, 0) > 0)
            &&& t.udp_v6.contains_key(key.index()) <==> s.udp_v6.contains_key(key.index())
                || (sends && total(lengths, 8) > 0)
            &&& r == (DeviceView { udp_v6: r.udp_v6, ..s })
            &&& t == (DeviceView { udp_v6: t.udp_v6, ..s })
        }),
{
    lemma_totals(lengths);
}

/// Entry `i` of the record tells the counters of a flow.
pub open spec fn tells_flow_v4(
    r: Seq<u8>,
    protocol: u8,
    i: int,
    key: Key<Ipv4Address>,
    received: int,
    sent: int,
) -> bool {
    let at = 10 + 28 * i;
    &&& r.len() >= at + 28
    &&& r[0] == 5
    &&& r[5] == protocol
    &&& holds_ipv4(r.subrange(at, at + 4), key.local_ip)
    &&& holds_number(r.subrange(at + 4, at + 6), key.local_port as int)
    &&& holds_ipv4(r.subrange(at + 6, at + 10), key.remote_ip)
    &&& holds_number(r.subrange(at + 10, at + 12), key.remote_port as int)
    &&& holds_number(r.subrange(at + 12, at + 20), sent)
    &&& holds_number(r.subrange(at + 20, at + 28), received)
}

proof fn lemma_entries_v4(values: Seq<BandwidthValueV4>, i: int)
    requires
        0 <= i < values.len(),
    ensures
        entries_v4(values).len() == 28 * values.len(),
        entries_v4(values).subrange(28 * i, 28 * i + 28) == values[i].encoded(),
    decreases values.len(),
{
    let rest = values.drop_last();
    bandwidth_entry_v4_size(values.last());
    if rest.len() > 0 {
        let j = if i < rest.len() {
            i
        } else {
            0
        };
        lemma_entries_v4(rest, j);
    } else {
        assert(entries_v4(rest) =~= Seq::empty());
    }
    if i < rest.len() {
        assert(entries_v4(values).subrange(28 * i, 28 * i + 28) =~= entries_v4(rest).subrange(
            28 * i,
            28 * i + 28,
        ));
    } else {
        assert(entries_v4(values).subrange(28 * i, 28 * i + 28) =~= values[i].encoded());
    }
}

proof fn lemma_fields_v4(r: Seq<u8>, at: int, value: BandwidthValueV4)
    requires
        0 <= at <= at + 28 <= r.len(),
        r.subrange(at, at + 28) == value.encoded(),
    ensures
        holds_ipv4(r.subrange(at, at + 4), value.local_ip),
        holds_number(r.subrange(at + 4, at + 6), value.local_port as int),
        holds_ipv4(r.subrange(at + 6, at + 10), value.remote_ip),
        holds_number(r.subrange(at + 10, at + 12), value.remote_port as int),
        holds_number(r.subrange(at + 12, at + 20), value.transmitted_bytes as int),
        holds_number(r.subrange(at + 20, at + 28), value.received_bytes as int),
{
    let entry = r.subrange(at, at + 28);
    bandwidth_entry_v4_names_the_flow(value);
    assert(r.subrange(at, at + 4) =~= entry.subrange(0, 4));
    assert(r.subrange(at + 4, at + 6) =~= entry.subrange(4, 6));
    assert(r.subrange(at + 6, at + 10) =~= entry.subrange(6, 10));
    assert(r.subrange(at + 10, at + 12) =~= entry.subrange(10, 12));
    assert(r.subrange(at + 12, at + 20) =~= entry.subrange(12, 20));
    assert(r.subrange(at + 20, at + 28) =~= entry.subrange(20, 28));
}

/// The report of some counters tells each flow among them.
proof fn lemma_report_tells_v4(
    stats: Stats<Ipv4Address>,
    protocol: IpProtocol,
    key: Key<Ipv4Address>,
) -> (i: int)
    requires
        stats.dom().finite(),
        stats.contains_key(key.index()),
        stats[key.index()].key == key,
        stats.dom().len() <= 153_391_688,
    ensures
        report_bytes_v4(stats, protocol).len() == 1,
        0 <= i < stats.dom().len(),
        tells_flow_v4(
            report_bytes_v4(stats, protocol)[0],
            protocol.spec_number(),
            i,
            key,
            stats[key.index()].received_bytes as int,
            stats[key.index()].transmitted_bytes as int,
        ),
{
    lemma_flow_order::<Ipv4Address>();
    let keys = ordered_keys(stats.dom());
    ordered_keys_list_the_set(stats.dom());
    assert(keys.to_set().contains(key.index()));
    let i = choose|i: int| 0 <= i < keys.len() && keys[i] == key.index();
    let values = in_order(stats);
    assert(values[i] == stats[key.index()]);
    let entries = values.map_values(|v: Value<Ipv4Address>| entry_v4(v));
    lemma_entries_v4(entries, i);
    let p = seq![protocol.spec_number()] + le_bytes(values.len(), 4) + entries_v4(entries);
    let r = record_v4(values, protocol);
    assert(report_bytes_v4(stats, protocol) == seq![r]);
    lemma_le_bytes_len(values.len(), 4);
    lemma_record(5, p);
    assert(r.subrange(10 + 28 * i, 10 + 28 * i + 28) == entries[i].encoded()) by {
        let from = 5 + 28 * i;
        assert(p.subrange(from, from + 28) =~= entries_v4(entries).subrange(28 * i, 28 * i + 28));
        assert(p.subrange(from, from + 28) == r.subrange(from + 5, from + 28 + 5));
    }
    assert(p[0] == r[5]);
    lemma_fields_v4(r, 10 + 28 * i, entries[i]);
    i
}

/// A report tells each IPv4 flow of either protocol by its own endpoints, with the bytes that
/// it received and sent since the last one, and counting starts again.
pub proof fn report_tells_each_flow_v4<H, C>(s: DeviceView<H, C>, key: Key<Ipv4Address>)
    ensures
        ({
            let t = s.bandwidth_reported();
            &&& s.tcp_v4.dom().finite() && s.tcp_v4.dom().len() <= 153_391_688
                && s.tcp_v4.contains_key(key.index()) && s.tcp_v4[key.index()].key == key
                ==> exists|n: int, i: int|
                s.events.len() <= n < t.events.len() && #[trigger] tells_flow_v4(
                    t.events[n],
                    6,
                    i,
                    key,
                    received(s.tcp_v4, key),
                    sent(s.tcp_v4, key),
                )
            &&& s.udp_v4.dom().finite() && s.udp_v4.dom().len() <= 153_391_688
                && s.udp_v4.contains_key(key.index()) && s.udp_v4[key.index()].key == key
                ==> exists|n: int, i: int|
                s.events.len() <= n < t.events.len() && #[trigger] tells_flow_v4(
                    t.events[n],
                    17,
                    i,
                    key,
                    received(s.udp_v4, key),
                    sent(s.udp_v4, key),
                )
            &&& t.events.take(s.events.len() as int) == s.events
            &&& received(t.tcp_v4, key) == 0 && sent(t.tcp_v4, key) == 0
            &&& received(t.udp_v4, key) == 0 && sent(t.udp_v4, key) == 0
        }),
{
    let t = s.bandwidth_reported();
    let a = report_bytes_v4(s.tcp_v4, IpProtocol::Tcp);
    let b = report_bytes_v6(s.tcp_v6, IpProtocol::Tcp);
    let c = report_bytes_v4(s.udp_v4, IpProtocol::Udp);
    let start = s.events.len() as int;
    assert(t.events.take(start) =~= s.events);
    if s.tcp_v4.dom().finite() && s.tcp_v4.dom().len() <= 153_391_688 && s.tcp_v4.contains_key(
        key.index(),
    ) && s.tcp_v4[key.index()].key == key {
        let i = lemma_report_tells_v4(s.tcp_v4, IpProtocol::Tcp, key);
        let n = start + 0;
        assert(t.events[n] == report_bytes_v4(s.tcp_v4, IpProtocol::Tcp)[0]);
        assert(tells_flow_v4(
            t.events[n],
            6,
            i,
            key,
            received(s.tcp_v4, key),
            sent(s.tcp_v4, key),
        ));
    }
    if s.udp_v4.dom().finite() && s.udp_v4.dom().len() <= 153_391_688 && s.udp_v4.contains_key(
        key.index(),
    ) && s.udp_v4[key.index()].key == key {
        let i = lemma_report_tells_v4(s.udp_v4, IpProtocol::Udp, key);
        let n = start + a.len() + b.len();
        assert(t.events[n] == report_bytes_v4(s.udp_v4, IpProtocol::Udp)[0]);
        assert(tells_flow_v4(
            t.events[n],
            17,
            i,
            key,
            received(s.udp_v4, key),
            sent(s.udp_v4, key),
        ));
    }
}

/// Entry `i` of the record tells the counters of a flow.
pub open spec fn tells_flow_v6(
    r: Seq<u8>,
    protocol: u8,
    i: int,
    key: Key<Ipv6Address>,
    received: int,
    sent: int,
) -> bool {
    let at = 10 + 52 * i;
    &&& r.len() >= at + 52
    &&& r[0] == 6
    &&& r[5] == protocol
    &&& holds_ipv6(r.subrange(at, at + 16), key.local_ip)
    &&& holds_number(r.subrange(at + 16, at + 18), key.local_port as int)
    &&& holds_ipv6(r.subrange(at + 18, at + 34), key.remote_ip)
    &&& holds_number(r.subrange(at + 34, at + 36), key.remote_port as int)
    &&& holds_number(r.subrange(at + 36, at + 44), sent)
    &&& holds_number(r.subrange(at + 44, at + 52), received)
}

proof fn lemma_entries_v6(values: Seq<BandwidthValueV6>, i: int)
    requires
        0 <= i < values.len(),
    ensures
        entries_v6(values).len() == 52 * values.len(),
        entries_v6(values).subrange(52 * i, 52 * i + 52) == values[i].encoded(),
    decreases values.len(),
{
    let rest = values.drop_last();
    bandwidth_entry_v6_size(values.last());
    if rest.len() > 0 {
        let j = if i < rest.len() {
            i
        } else {
            0
        };
        lemma_entries_v6(rest, j);
    } else {
        assert(entries_v6(rest) =~= Seq::empty());
    }
    if i < rest.len() {
        assert(entries_v6(values).subrange(52 * i, 52 * i + 52) =~= entries_v6(rest).subrange(
            52 * i,
            52 * i + 52,
        ));
    } else {
        assert(entries_v6(values).subrange(52 * i, 52 * i + 52) =~= values[i].encoded());
    }
}

proof fn lemma_fields_v6(r: Seq<u8>, at: int, value: BandwidthValueV6)
    requires
        0 <= at <= at + 52 <= r.len(),
        r.subrange(at, at + 52) == value.encoded(),
    ensures
        holds_ipv6(r.subrange(at, at + 16), value.local_ip),
        holds_number(r.subrange(at + 16, at + 18), value.local_port as int),
        holds_ipv6(r.subrange(at + 18, at + 34), value.remote_ip),
        holds_number(r.subrange(at + 34, at + 36), value.remote_port as int),
        holds_number(r.subrange(at + 36, at + 44), value.transmitted_bytes as int),
        holds_number(r.subrange(at + 44, at + 52), value.received_bytes as int),
{
    let entry = r.subrange(at, at + 52);
    bandwidth_entry_v6_names_the_flow(value);
    assert(r.subrange(at, at + 16) =~= entry.subrange(0, 16));
    assert(r.subrange(at + 16, at + 18) =~= entry.subrange(16, 18));
    assert(r.subrange(at + 18, at + 34) =~= entry.subrange(18, 34));
    assert(r.subrange(at + 34, at + 36) =~= entry.subrange(34, 36));
    assert(r.subrange(at + 36, at + 44) =~= entry.subrange(36, 44));
    assert(r.subrange(at + 44, at + 52) =~= entry.subrange(44, 52));
}

/// The report of some counters tells each flow among them.
proof fn lemma_report_tells_v6(
    stats: Stats<Ipv6Address>,
    protocol: IpProtocol,
    key: Key<Ipv6Address>,
) -> (i: int)
    requires
        stats.dom().finite(),
        stats.contains_key(key.index()),
        stats[key.index()].key == key,
        stats.dom().len() <= 82_595_524,
    ensures
        report_bytes_v6(stats, protocol).len() == 1,
        0 <= i < stats.dom().len(),
        tells_flow_v6(
            report_bytes_v6(stats, protocol)[0],
            protocol.spec_number(),
            i,
            key,
            stats[key.index()].received_bytes as int,
            stats[key.index()].transmitted_bytes as int,
        ),
{
    lemma_flow_order::<Ipv6Address>();
    let keys = ordered_keys(stats.dom());
    ordered_keys_list_the_set(stats.dom());
    assert(keys.to_set().contains(key.index()));
    let i = choose|i: int| 0 <= i < keys.len() && keys[i] == key.index();
    let values = in_order(stats);
    assert(values[i] == stats[key.index()]);
    let entries = values.map_values(|v: Value<Ipv6Address>| entry_v6(v));
    lemma_entries_v6(entries, i);
    let p = seq![protocol.spec_number()] + le_bytes(values.len(), 4) + entries_v6(entries);
    let r = record_v6(values, protocol);
    assert(report_bytes_v6(stats, protocol) == seq![r]);
    lemma_le_bytes_len(values.len(), 4);
    lemma_record(6, p);
    assert(r.subrange(10 + 52 * i, 10 + 52 * i + 52) == entries[i].encoded()) by {
        let from = 5 + 52 * i;
        assert(p.subrange(from, from + 52) =~= entries_v6(entries).subrange(52 * i, 52 * i + 52));
        assert(p.subrange(from, from + 52) == r.subrange(from + 5, from + 52 + 5));
    }
    assert(p[0] == r[5]);
    lemma_fields_v6(r, 10 + 52 * i, entries[i]);
    i
}

/// A report tells each IPv6 flow of either protocol by its own endpoints, with the bytes that
/// it received and sent since the last one, and counting starts again.
pub proof fn report_tells_each_flow_v6<H, C>(s: DeviceView<H, C>, key: Key<Ipv6Address>)
    ensures
        ({
            let t = s.bandwidth_reported();
            &&& s.tcp_v6.dom().finite() && s.tcp_v6.dom().len() <= 82_595_524
                && s.tcp_v6.contains_key(key.index()) && s.tcp_v6[key.index()].key == key
                ==> exists|n: int, i: int|
                s.events.len() <= n < t.events.len() && #[trigger] tells_flow_v6(
                    t.events[n],
                    6,
                    i,
                    key,
                    received(s.tcp_v6, key),
                    sent(s.tcp_v6, key),
                )
            &&& s.udp_v6.dom().finite() && s.udp_v6.dom().len() <= 82_595_524
                && s.udp_v6.contains_key(key.index()) && s.udp_v6[key.index()].key == key
                ==> exists|n: int, i: int|
                s.events.len() <= n < t.events.len() && #[trigger] tells_flow_v6(
                    t.events[n],
                    17,
                    i,
                    key,
                    received(s.udp_v6, key),
                    sent(s.udp_v6, key),
                )
            &&& t.events.take(s.events.len() as int) == s.events
            &&& received(t.tcp_v6, key) == 0 && sent(t.tcp_v6, key) == 0
            &&& received(t.udp_v6, key) == 0 && sent(t.udp_v6, key) == 0
        }),
{
    let t = s.bandwidth_reported();
    let a = report_bytes_v4(s.tcp_v4, IpProtocol::Tcp);
    let b = report_bytes_v6(s.tcp_v6, IpProtocol::Tcp);
    let c = report_bytes_v4(s.udp_v4, IpProtocol::Udp);
    let start = s.events.len() as int;
    assert(t.events.take(start) =~= s.events);
    if s.tcp_v6.dom().finite() && s.tcp_v6.dom().len() <= 82_595_524 && s.tcp_v6.contains_key(
        key.index(),
    ) && s.tcp_v6[key.index()].key == key {
        let i = lemma_report_tells_v6(s.tcp_v6, IpProtocol::Tcp, key);
        let n = start + a.len();
        assert(t.events[n] == report_bytes_v6(s.tcp_v6, IpProtocol::Tcp)[0]);
        assert(tells_flow_v6(
            t.events[n],
            6,
            i,
            key,
            received(s.tcp_v6, key),
            sent(s.tcp_v6, key),
        ));
    }
    if s.udp_v6.dom().finite() && s.udp_v6.dom().len() <= 82_595_524 && s.udp_v6.contains_key(
        key.index(),
    ) && s.udp_v6[key.index()].key == key {
        let i = lemma_report_tells_v6(s.udp_v6, IpProtocol::Udp, key);
        let n = start + a.len() + b.len() + c.len();
        assert(t.events[n] == report_bytes_v6(s.udp_v6, IpProtocol::Udp)[0]);
        assert(tells_flow_v6(
            t.events[n],
            17,
            i,
            key,
            received(s.udp_v6, key),
            sent(s.udp_v6, key),
        ));
    }
}

} // verus!
