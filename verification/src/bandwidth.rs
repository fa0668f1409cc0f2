//! Bytes per flow since the last report.

use crate::connection::{AddressFamily, Direction};
use crate::info::{
    bandiwth_stats_array_v4, bandiwth_stats_array_v6, entries_v4, entries_v6, record,
    BandwidthValueV4, BandwidthValueV6, Info, INFO_BANDWIDTH_V4, INFO_BANDWIDTH_V6,
    MAX_BANDWIDTH_ENTRIES_V4, MAX_BANDWIDTH_ENTRIES_V6,
};
use crate::bytes::le_bytes;
use crate::ip::{IpProtocol, Ipv4Address, Ipv6Address};
use crate::ordered::{
    ascending, get_mut, lawful_key, lemma_ordered_keys, lemma_pair_key, ordered_keys,
    ordered_keys_list_the_set, sorted_keys,
};
use std::collections::BTreeMap;
use vstd::prelude::*;

verus! {

/// One flow.
#[derive(Debug)]
pub struct Key<A> {
    pub local_ip: A,
    pub local_port: u16,
    pub remote_ip: A,
    pub remote_port: u16,
}

/// A flow in report order: by local address, local port, remote address, remote port.
pub type FlowIndex<A> = (
    (<A as AddressFamily>::RemoteAddressKey, u16),
    (<A as AddressFamily>::RemoteAddressKey, u16),
);

impl<A: AddressFamily> Key<A> {
    /// The flow's place in report order.
    pub open spec fn index(self) -> FlowIndex<A> {
        (
            (self.local_ip.spec_remote_key(), self.local_port),
            (self.remote_ip.spec_remote_key(), self.remote_port),
        )
    }
}

/// A flow and its bytes.
pub struct Value<A> {
    pub key: Key<A>,
    pub received_bytes: u64,
    pub transmitted_bytes: u64,
}

/// Bytes of each flow.
pub type Stats<A> = Map<FlowIndex<A>, Value<A>>;

/// The counters with some more bytes, modulo the counter's range.
pub open spec fn counted<A>(value: Value<A>, direction: Direction, bytes: u64) -> Value<A> {
    match direction {
        Direction::Outbound => Value {
            transmitted_bytes: value.transmitted_bytes.wrapping_add(bytes),
            ..value
        },
        Direction::Inbound => Value {
            received_bytes: value.received_bytes.wrapping_add(bytes),
            ..value
        },
    }
}

/// The flow's counters so far.
pub open spec fn so_far<A: AddressFamily>(stats: Stats<A>, key: Key<A>) -> Value<A> {
    if stats.contains_key(key.index()) {
        stats[key.index()]
    } else {
        Value { key, received_bytes: 0, transmitted_bytes: 0 }
    }
}

/// The counters after some bytes of one flow.
pub open spec fn updated<A: AddressFamily>(
    stats: Stats<A>,
    key: Key<A>,
    direction: Direction,
    bytes: u64,
) -> Stats<A> {
    stats.insert(key.index(), counted(so_far(stats, key), direction, bytes))
}

/// The counters in report order.
pub open spec fn in_order<A: AddressFamily>(stats: Stats<A>) -> Seq<Value<A>> {
    ordered_keys(stats.dom()).map_values(|i: FlowIndex<A>| stats[i])
}

/// The first elements of a sequence, at most `limit` of them.
pub open spec fn first_of<T>(s: Seq<T>, limit: nat) -> Seq<T> {
    if s.len() <= limit {
        s
    } else {
        s.take(limit as int)
    }
}

/// The counters that one report of at most `limit` flows takes.
pub open spec fn taken<A: AddressFamily>(stats: Stats<A>, limit: nat) -> Seq<Value<A>> {
    first_of(in_order(stats), limit)
}

/// The counters that one report of at most `limit` flows leaves for the next.
pub open spec fn left_over<A: AddressFamily>(stats: Stats<A>, limit: nat) -> Stats<A> {
    stats.remove_keys(first_of(ordered_keys(stats.dom()), limit).to_set())
}

/// The report entry of one IPv4 flow.
pub open spec fn entry_v4(value: Value<Ipv4Address>) -> BandwidthValueV4 {
    BandwidthValueV4 {
        local_ip: value.key.local_ip,
        local_port: value.key.local_port,
        remote_ip: value.key.remote_ip,
        remote_port: value.key.remote_port,
        transmitted_bytes: value.transmitted_bytes,
        received_bytes: value.received_bytes,
    }
}

/// The report entry of one IPv6 flow.
pub open spec fn entry_v6(value: Value<Ipv6Address>) -> BandwidthValueV6 {
    BandwidthValueV6 {
        local_ip: value.key.local_ip,
        local_port: value.key.local_port,
        remote_ip: value.key.remote_ip,
        remote_port: value.key.remote_port,
        transmitted_bytes: value.transmitted_bytes,
        received_bytes: value.received_bytes,
    }
}

/// The record that reports some IPv4 counters.
pub open spec fn record_v4(values: Seq<Value<Ipv4Address>>, protocol: IpProtocol) -> Seq<u8> {
    record(
        INFO_BANDWIDTH_V4,
        seq![protocol.spec_number()] + le_bytes(values.len(), 4) + entries_v4(
            values.map_values(|v: Value<Ipv4Address>| entry_v4(v)),
        ),
    )
}

/// The record that reports some IPv6 counters.
pub open spec fn record_v6(values: Seq<Value<Ipv6Address>>, protocol: IpProtocol) -> Seq<u8> {
    record(
        INFO_BANDWIDTH_V6,
        seq![protocol.spec_number()] + le_bytes(values.len(), 4) + entries_v6(
            values.map_values(|v: Value<Ipv6Address>| entry_v6(v)),
        ),
    )
}

/// What reporting IPv4 counters returns: nothing for no flow. Flows that do not fit into
/// one record are left for the next.
pub open spec fn reported_v4(
    stats: Stats<Ipv4Address>,
    protocol: IpProtocol,
    info: Option<Info>,
) -> bool {
    match info {
        Some(i) => stats.dom().len() > 0 && i@ == record_v4(
            taken(stats, MAX_BANDWIDTH_ENTRIES_V4 as nat),
            protocol,
        ),
        None => stats.dom().len() == 0,
    }
}

/// The records that report some IPv4 counters: as few as can hold them.
pub open spec fn records_v4(values: Seq<Value<Ipv4Address>>, protocol: IpProtocol) -> Seq<Seq<u8>>
    decreases values.len(),
{
    let limit = MAX_BANDWIDTH_ENTRIES_V4 as int;
    if values.len() == 0 {
        Seq::empty()
    } else if values.len() <= limit {
        seq![record_v4(values, protocol)]
    } else {
        seq![record_v4(values.take(limit), protocol)] + records_v4(values.skip(limit), protocol)
    }
}

/// What reporting IPv6 counters returns: nothing for no flow. Flows that do not fit into
/// one record are left for the next.
pub open spec fn reported_v6(
    stats: Stats<Ipv6Address>,
    protocol: IpProtocol,
    info: Option<Info>,
) -> bool {
    match info {
        Some(i) => stats.dom().len() > 0 && i@ == record_v6(
            taken(stats, MAX_BANDWIDTH_ENTRIES_V6 as nat),
            protocol,
        ),
        None => stats.dom().len() == 0,
    }
}

/// The records that report some IPv6 counters: as few as can hold them.
pub open spec fn records_v6(values: Seq<Value<Ipv6Address>>, protocol: IpProtocol) -> Seq<Seq<u8>>
    decreases values.len(),
{
    let limit = MAX_BANDWIDTH_ENTRIES_V6 as int;
    if values.len() == 0 {
        Seq::empty()
    } else if values.len() <= limit {
        seq![record_v6(values, protocol)]
    } else {
        seq![record_v6(values.take(limit), protocol)] + records_v6(values.skip(limit), protocol)
    }
}

type Table<A> = BTreeMap<FlowIndex<A>, Value<A>>;

/// Flows have a lawful order.
pub proof fn lemma_flow_order<A: AddressFamily>()
    ensures
        lawful_key::<FlowIndex<A>>(),
{
    A::lemma_family();
    lemma_pair_key::<(A::RemoteAddressKey, u16), (A::RemoteAddressKey, u16)>();
}

fn copy_flow<A: AddressFamily>(index: &FlowIndex<A>) -> (copy: FlowIndex<A>)
    ensures
        copy == *index,
{
    ((A::copy_key(&index.0.0), index.0.1), (A::copy_key(&index.1.0), index.1.1))
}

fn update<A: AddressFamily>(stats: &mut Table<A>, key: Key<A>, direction: Direction, bytes: u64)
    ensures
        final(stats)@ == updated(old(stats)@, key, direction, bytes),
{
    proof {
        lemma_flow_order::<A>();
    }
    let index: FlowIndex<A> = (
        (key.local_ip.remote_key(), key.local_port),
        (key.remote_ip.remote_key(), key.remote_port),
    );
    match get_mut(stats, &index) {
        Some(value) => {
            match direction {
                Direction::Outbound => {
                    value.transmitted_bytes = value.transmitted_bytes.wrapping_add(bytes);
                },
                Direction::Inbound => {
                    value.received_bytes = value.received_bytes.wrapping_add(bytes);
                },
            }
            return;
        },
        None => {},
    }
    let value = match direction {
        Direction::Outbound => Value { key, received_bytes: 0, transmitted_bytes: bytes },
        Direction::Inbound => Value { key, received_bytes: bytes, transmitted_bytes: 0 },
    };
    stats.insert(index, value);
}

/// What a report takes and leaves are the counters in report order, cut in two.
pub proof fn lemma_cut_in_order<A: AddressFamily>(stats: Stats<A>, limit: nat)
    requires
        stats.dom().finite(),
    ensures
        in_order(stats).len() == stats.dom().len(),
        in_order(stats) == taken(stats, limit) + in_order(left_over(stats, limit)),
        left_over(stats, limit).dom().finite(),
        left_over(stats, limit).dom().len() == in_order(left_over(stats, limit)).len(),
{
    lemma_flow_order::<A>();
    let keys = ordered_keys(stats.dom());
    ordered_keys_list_the_set(stats.dom());
    let first = first_of(keys, limit);
    let rest = keys.skip(first.len() as int);
    let left = left_over(stats, limit);
    assert(keys =~= first + rest);
    assert forall|k: FlowIndex<A>| rest.to_set().contains(k) == left.dom().contains(k) by {
        if rest.contains(k) {
            let i = choose|i: int| 0 <= i < rest.len() && rest[i] == k;
            assert(keys[first.len() + i] == k);
            assert(keys.to_set().contains(k));
            if first.contains(k) {
                let j = choose|j: int| 0 <= j < first.len() && first[j] == k;
                assert(keys[j] == k);
            }
        }
        if left.dom().contains(k) {
            assert(keys.to_set().contains(k));
            let i = choose|i: int| 0 <= i < keys.len() && keys[i] == k;
            if i < first.len() {
                assert(first[i] == k);
            } else {
                assert(rest[i - first.len()] == k);
            }
        }
    }
    assert(rest.to_set() =~= left.dom());
    lemma_ordered_keys(rest);
    rest.unique_seq_to_set();
    assert forall|i: int| 0 <= i < rest.len() implies left[#[trigger] rest[i]] == stats[rest[i]] by {
        assert(rest.to_set().contains(rest[i]));
    }
    assert(in_order(stats) =~= taken(stats, limit) + in_order(left));
}

/// A report that has room for every flow takes them all.
pub proof fn lemma_all_taken<A: AddressFamily>(stats: Stats<A>, limit: nat)
    requires
        stats.dom().finite(),
        stats.dom().len() <= limit,
    ensures
        taken(stats, limit) == in_order(stats),
        left_over(stats, limit) == Stats::<A>::empty(),
{
    lemma_flow_order::<A>();
    lemma_cut_in_order(stats, limit);
    ordered_keys_list_the_set(stats.dom());
    assert(left_over(stats, limit) =~= Stats::<A>::empty());
}

fn drain<A: AddressFamily>(stats: &mut Table<A>, limit: usize) -> (values: Vec<Value<A>>)
    ensures
        final(stats)@ == left_over(old(stats)@, limit as nat),
        values@ == taken(old(stats)@, limit as nat),
        values@.len() == 0 <==> old(stats)@.dom().len() == 0 || limit == 0,
        values@.len() <= limit,
        old(stats)@.dom().finite(),
{
    proof {
        lemma_flow_order::<A>();
    }
    let ghost before = stats@;
    let keys: Vec<FlowIndex<A>> = sorted_keys(stats, copy_flow::<A>);
    proof {
        keys@.unique_seq_to_set();
    }
    let count: usize = if keys.len() <= limit {
        keys.len()
    } else {
        limit
    };
    let mut values: Vec<Value<A>> = Vec::with_capacity(count);
    let mut n: usize = 0;
    assert(stats@ =~= before.remove_keys(keys@.take(0).to_set()));
    while n < count
        invariant
            n <= count <= keys@.len(),
            lawful_key::<FlowIndex<A>>(),
            keys@.no_duplicates(),
            keys@.to_set() == before.dom(),
            values@ == keys@.take(n as int).map_values(|i: FlowIndex<A>| before[i]),
            stats@ == before.remove_keys(keys@.take(n as int).to_set()),
        decreases count - n,
    {
        let ghost key = keys@[n as int];
        let ghost done = keys@.take(n as int);
        proof {
            assert(keys@.to_set().contains(key));
            assert(!done.contains(key)) by {
                if done.contains(key) {
                    let i = choose|i: int| 0 <= i < done.len() && done[i] == key;
                    assert(keys@[i] == keys@[n as int]);
                }
            }
            assert(!done.to_set().contains(key));
        }
        assert(stats@.contains_key(key));
        if let Some(value) = stats.remove(&keys[n]) {
            values.push(value);
        }
        n = n + 1;
        proof {
            assert(keys@.take(n as int) =~= done.push(key));
            assert(values@ =~= keys@.take(n as int).map_values(|i: FlowIndex<A>| before[i]));
            assert(done.push(key).to_set() =~= done.to_set().insert(key)) by {
                assert(done.push(key)[done.len() as int] == key);
                assert forall|k: FlowIndex<A>| done.contains(k) implies done.push(key).contains(
                    k,
                ) by {
                    let i = choose|i: int| 0 <= i < done.len() && done[i] == k;
                    assert(done.push(key)[i] == k);
                }
            }
            assert(stats@ =~= before.remove_keys(keys@.take(n as int).to_set()));
        }
    }
    proof {
        assert(keys@.take(keys@.len() as int) =~= keys@);
        assert(values@ =~= taken(before, limit as nat));
    }
    values
}

fn report_table_v4(stats: &mut Table<Ipv4Address>, protocol: IpProtocol) -> (info: Option<Info>)
    ensures
        final(stats)@ == left_over(old(stats)@, MAX_BANDWIDTH_ENTRIES_V4 as nat),
        reported_v4(old(stats)@, protocol, info),
        old(stats)@.dom().finite(),
{
    let drained: Vec<Value<Ipv4Address>> = drain(stats, MAX_BANDWIDTH_ENTRIES_V4);
    if drained.len() == 0 {
        return None;
    }
    let count: usize = drained.len();
    let mut values: Vec<BandwidthValueV4> = Vec::with_capacity(count);
    let mut n: usize = 0;
    while n < count
        invariant
            n <= count == drained@.len(),
            values@ == drained@.take(n as int).map_values(|v: Value<Ipv4Address>| entry_v4(v)),
        decreases count - n,
    {
        let value: &Value<Ipv4Address> = &drained[n];
        values.push(
            BandwidthValueV4 {
                local_ip: value.key.local_ip,
                local_port: value.key.local_port,
                remote_ip: value.key.remote_ip,
                remote_port: value.key.remote_port,
                transmitted_bytes: value.transmitted_bytes,
                received_bytes: value.received_bytes,
            },
        );
        n = n + 1;
        assert(values@ =~= drained@.take(n as int).map_values(
            |v: Value<Ipv4Address>| entry_v4(v),
        ));
    }
    assert(drained@.take(count as int) =~= drained@);
    Some(bandiwth_stats_array_v4(protocol.number(), values))
}

fn report_table_v6(stats: &mut Table<Ipv6Address>, protocol: IpProtocol) -> (info: Option<Info>)
    ensures
        final(stats)@ == left_over(old(stats)@, MAX_BANDWIDTH_ENTRIES_V6 as nat),
        reported_v6(old(stats)@, protocol, info),
        old(stats)@.dom().finite(),
{
    let drained: Vec<Value<Ipv6Address>> = drain(stats, MAX_BANDWIDTH_ENTRIES_V6);
    if drained.len() == 0 {
        return None;
    }
    let count: usize = drained.len();
    let mut values: Vec<BandwidthValueV6> = Vec::with_capacity(count);
    let mut n: usize = 0;
    while n < count
        invariant
            n <= count == drained@.len(),
            values@ == drained@.take(n as int).map_values(|v: Value<Ipv6Address>| entry_v6(v)),
        decreases count - n,
    {
        let value: &Value<Ipv6Address> = &drained[n];
        values.push(
            BandwidthValueV6 {
                local_ip: value.key.local_ip,
                local_port: value.key.local_port,
                remote_ip: value.key.remote_ip,
                remote_port: value.key.remote_port,
                transmitted_bytes: value.transmitted_bytes,
                received_bytes: value.received_bytes,
            },
        );
        n = n + 1;
        assert(values@ =~= drained@.take(n as int).map_values(
            |v: Value<Ipv6Address>| entry_v6(v),
        ));
    }
    assert(drained@.take(count as int) =~= drained@);
    Some(bandiwth_stats_array_v6(protocol.number(), values))
}

/// Byte counters of both protocols and families.
pub struct Bandwidth {
    stats_tcp_v4: Table<Ipv4Address>,
    stats_tcp_v6: Table<Ipv6Address>,
    stats_udp_v4: Table<Ipv4Address>,
    stats_udp_v6: Table<Ipv6Address>,
}

impl Bandwidth {
    /// TCP over IPv4.
    pub closed spec fn tcp_v4(&self) -> Stats<Ipv4Address> {
        self.stats_tcp_v4@
    }

    /// TCP over IPv6.
    pub closed spec fn tcp_v6(&self) -> Stats<Ipv6Address> {
        self.stats_tcp_v6@
    }

    /// UDP over IPv4.
    pub closed spec fn udp_v4(&self) -> Stats<Ipv4Address> {
        self.stats_udp_v4@
    }

    /// UDP over IPv6.
    pub closed spec fn udp_v6(&self) -> Stats<Ipv6Address> {
        self.stats_udp_v6@
    }

    /// Creates empty counters.
    pub fn new() -> (bandwidth: Self)
        ensures
            bandwidth.tcp_v4() == Stats::<Ipv4Address>::empty(),
            bandwidth.tcp_v6() == Stats::<Ipv6Address>::empty(),
            bandwidth.udp_v4() == Stats::<Ipv4Address>::empty(),
            bandwidth.udp_v6() == Stats::<Ipv6Address>::empty(),
    {
        Bandwidth {
            stats_tcp_v4: BTreeMap::new(),
            stats_tcp_v6: BTreeMap::new(),
            stats_udp_v4: BTreeMap::new(),
            stats_udp_v6: BTreeMap::new(),
        }
    }

    /// Takes the TCP counters over IPv4 and encodes them. Flows beyond what one record can
    /// hold are left for the next call.
    pub fn get_all_updates_tcp_v4(&mut self) -> (info: Option<Info>)
        ensures
            old(self).tcp_v4().dom().finite(),
            final(self).tcp_v4() == left_over(
                old(self).tcp_v4(),
                MAX_BANDWIDTH_ENTRIES_V4 as nat,
            ),
            reported_v4(old(self).tcp_v4(), IpProtocol::Tcp, info),
            final(self).tcp_v6() == old(self).tcp_v6(),
            final(self).udp_v4() == old(self).udp_v4(),
            final(self).udp_v6() == old(self).udp_v6(),
    {
        report_table_v4(&mut self.stats_tcp_v4, IpProtocol::Tcp)
    }

    /// Counts bytes of one TCP flow over IPv4.
    pub fn update_tcp_v4(&mut self, key: Key<Ipv4Address>, direction: Direction, bytes: u64)
        ensures
            final(self).tcp_v4() == updated(old(self).tcp_v4(), key, direction, bytes),
            final(self).tcp_v6() == old(self).tcp_v6(),
            final(self).udp_v4() == old(self).udp_v4(),
            final(self).udp_v6() == old(self).udp_v6(),
    {
        update(&mut self.stats_tcp_v4, key, direction, bytes);
    }

    /// Takes the TCP counters over IPv6 and encodes them. Flows beyond what one record can
    /// hold are left for the next call.
    pub fn get_all_updates_tcp_v6(&mut self) -> (info: Option<Info>)
        ensures
            old(self).tcp_v6().dom().finite(),
            final(self).tcp_v6() == left_over(
                old(self).tcp_v6(),
                MAX_BANDWIDTH_ENTRIES_V6 as nat,
            ),
            reported_v6(old(self).tcp_v6(), IpProtocol::Tcp, info),
            final(self).tcp_v4() == old(self).tcp_v4(),
            final(self).udp_v4() == old(self).udp_v4(),
            final(self).udp_v6() == old(self).udp_v6(),
    {
        report_table_v6(&mut self.stats_tcp_v6, IpProtocol::Tcp)
    }

    /// Counts bytes of one TCP flow over IPv6.
    pub fn update_tcp_v6(&mut self, key: Key<Ipv6Address>, direction: Direction, bytes: u64)
        ensures
            final(self).tcp_v6() == updated(old(self).tcp_v6(), key, direction, bytes),
            final(self).tcp_v4() == old(self).tcp_v4(),
            final(self).udp_v4() == old(self).udp_v4(),
            final(self).udp_v6() == old(self).udp_v6(),
    {
        update(&mut self.stats_tcp_v6, key, direction, bytes);
    }

    /// Takes the UDP counters over IPv4 and encodes them. Flows beyond what one record can
    /// hold are left for the next call.
    pub fn get_all_updates_udp_v4(&mut self) -> (info: Option<Info>)
        ensures
            old(self).udp_v4().dom().finite(),
            final(self).udp_v4() == left_over(
                old(self).udp_v4(),
                MAX_BANDWIDTH_ENTRIES_V4 as nat,
            ),
            reported_v4(old(self).udp_v4(), IpProtocol::Udp, info),
            final(self).tcp_v4() == old(self).tcp_v4(),
            final(self).tcp_v6() == old(self).tcp_v6(),
            final(self).udp_v6() == old(self).udp_v6(),
    {
        report_table_v4(&mut self.stats_udp_v4, IpProtocol::Udp)
    }

    /// Counts bytes of one UDP flow over IPv4.
    pub fn update_udp_v4(&mut self, key: Key<Ipv4Address>, direction: Direction, bytes: u64)
        ensures
            final(self).udp_v4() == updated(old(self).udp_v4(), key, direction, bytes),
            final(self).tcp_v4() == old(self).tcp_v4(),
            final(self).tcp_v6() == old(self).tcp_v6(),
            final(self).udp_v6() == old(self).udp_v6(),
    {
        update(&mut self.stats_udp_v4, key, direction, bytes);
    }

    /// Takes the UDP counters over IPv6 and encodes them. Flows beyond what one record can
    /// hold are left for the next call.
    pub fn get_all_updates_udp_v6(&mut self) -> (info: Option<Info>)
        ensures
            old(self).udp_v6().dom().finite(),
            final(self).udp_v6() == left_over(
                old(self).udp_v6(),
                MAX_BANDWIDTH_ENTRIES_V6 as nat,
            ),
            reported_v6(old(self).udp_v6(), IpProtocol::Udp, info),
            final(self).tcp_v4() == old(self).tcp_v4(),
            final(self).tcp_v6() == old(self).tcp_v6(),
            final(self).udp_v4() == old(self).udp_v4(),
    {
        report_table_v6(&mut self.stats_udp_v6, IpProtocol::Udp)
    }

    /// Counts bytes of one UDP flow over IPv6.
    pub fn update_udp_v6(&mut self, key: Key<Ipv6Address>, direction: Direction, bytes: u64)
        ensures
            final(self).udp_v6() == updated(old(self).udp_v6(), key, direction, bytes),
            final(self).tcp_v4() == old(self).tcp_v4(),
            final(self).tcp_v6() == old(self).tcp_v6(),
            final(self).udp_v4() == old(self).udp_v4(),
    {
        update(&mut self.stats_udp_v6, key, direction, bytes);
    }

    /// Number of flows of each table.
    pub fn get_entries_counts(&self) -> (counts: (usize, usize, usize, usize))
        ensures
            counts.0 == self.tcp_v4().dom().len(),
            counts.1 == self.tcp_v6().dom().len(),
            counts.2 == self.udp_v4().dom().len(),
            counts.3 == self.udp_v6().dom().len(),
    {
        proof {
            lemma_flow_order::<Ipv4Address>();
            lemma_flow_order::<Ipv6Address>();
        }
        (
            self.stats_tcp_v4.len(),
            self.stats_tcp_v6.len(),
            self.stats_udp_v4.len(),
            self.stats_udp_v6.len(),
        )
    }
}

/// Counters add up: two indications of one flow and direction count as one with the sum
/// of their bytes, and no other flow's counters change.
pub proof fn counters_add_up<A: AddressFamily>(
    stats: Stats<A>,
    key: Key<A>,
    other: Key<A>,
    direction: Direction,
    a: u64,
    b: u64,
)
    requires
        a + b <= u64::MAX,
    ensures
        updated(updated(stats, key, direction, a), key, direction, b) == updated(
            stats,
            key,
            direction,
            (a + b) as u64,
        ),
        other.index() != key.index() ==> so_far(updated(stats, key, direction, a), other) == so_far(
            stats,
            other,
        ),
{
    assert(updated(updated(stats, key, direction, a), key, direction, b) =~= updated(
        stats,
        key,
        direction,
        (a + b) as u64,
    ));
}

/// Bytes of one flow that were indicated.
pub struct Update<A> {
    pub key: Key<A>,
    pub direction: Direction,
    pub bytes: u64,
}

/// The counters after some updates since the last report.
pub open spec fn after_updates<A: AddressFamily>(updates: Seq<Update<A>>) -> Stats<A>
    decreases updates.len(),
{
    if updates.len() == 0 {
        Stats::<A>::empty()
    } else {
        let last = updates.last();
        updated(after_updates(updates.drop_last()), last.key, last.direction, last.bytes)
    }
}

/// The sum of the bytes of one flow and direction.
pub open spec fn bytes_of<A: AddressFamily>(
    updates: Seq<Update<A>>,
    key: Key<A>,
    direction: Direction,
) -> nat
    decreases updates.len(),
{
    if updates.len() == 0 {
        0
    } else {
        let last = updates.last();
        bytes_of(updates.drop_last(), key, direction) + if last.key == key && last.direction
            == direction {
            last.bytes as nat
        } else {
            0
        }
    }
}

/// No sum exceeds the range of a counter.
pub open spec fn sums_fit<A: AddressFamily>(updates: Seq<Update<A>>) -> bool {
    forall|key: Key<A>, direction: Direction| #[trigger]
        bytes_of(updates, key, direction) <= u64::MAX
}

/// Bytes of the flow were indicated.
pub open spec fn is_updated<A: AddressFamily>(updates: Seq<Update<A>>, key: Key<A>) -> bool {
    exists|j: int| 0 <= j < updates.len() && (#[trigger] updates[j]).key == key
}

/// The flows that were updated, each once, in report order.
pub open spec fn flows<A: AddressFamily>(updates: Seq<Update<A>>) -> Seq<Key<A>> {
    in_order(after_updates(updates)).map_values(|v: Value<A>| v.key)
}

/// A flow is determined by its place in report order.
proof fn lemma_index_injective<A: AddressFamily>(a: Key<A>, b: Key<A>)
    requires
        a.index() == b.index(),
    ensures
        a == b,
{
    A::lemma_family();
    assert(a.local_ip.spec_remote_key() == b.local_ip.spec_remote_key());
    assert(a.remote_ip.spec_remote_key() == b.remote_ip.spec_remote_key());
}

/// After any updates there are counters for exactly the flows that were updated, and each
/// holds the sum of the bytes of its flow and direction.
pub proof fn updates_add_up<A: AddressFamily>(updates: Seq<Update<A>>)
    requires
        sums_fit(updates),
    ensures
        after_updates(updates).dom().finite(),
        forall|key: Key<A>| #[trigger]
            after_updates(updates).contains_key(key.index()) <==> is_updated(updates, key),
        forall|key: Key<A>| #[trigger]
            after_updates(updates).contains_key(key.index()) ==> after_updates(updates)[key.index()]
                == (Value {
                key,
                received_bytes: bytes_of(updates, key, Direction::Inbound) as u64,
                transmitted_bytes: bytes_of(updates, key, Direction::Outbound) as u64,
            }),
        forall|i: FlowIndex<A>| #[trigger]
            after_updates(updates).contains_key(i) ==> after_updates(updates)[i].key.index() == i,
    decreases updates.len(),
{
    if updates.len() > 0 {
        let rest = updates.drop_last();
        let last = updates.last();
        let before = after_updates(rest);
        let after = after_updates(updates);
        assert forall|key: Key<A>, direction: Direction| #[trigger]
            bytes_of(rest, key, direction) <= u64::MAX by {
            assert(bytes_of(updates, key, direction) <= u64::MAX);
        }
        updates_add_up(rest);
        assert forall|key: Key<A>| #[trigger] after.contains_key(key.index()) <==> is_updated(
            updates,
            key,
        ) by {
            if key.index() == last.key.index() {
                lemma_index_injective(key, last.key);
                assert(updates[updates.len() - 1].key == key);
            } else {
                assert(before.contains_key(key.index()) <==> is_updated(rest, key));
                if is_updated(rest, key) {
                    let j = choose|j: int| 0 <= j < rest.len() && (#[trigger] rest[j]).key == key;
                    assert(updates[j].key == key);
                }
                if is_updated(updates, key) {
                    let j = choose|j: int|
                        0 <= j < updates.len() && (#[trigger] updates[j]).key == key;
                    assert(rest[j].key == key);
                }
            }
        }
        assert forall|key: Key<A>| #[trigger] after.contains_key(key.index()) implies after[key.index()]
            == (Value {
            key,
            received_bytes: bytes_of(updates, key, Direction::Inbound) as u64,
            transmitted_bytes: bytes_of(updates, key, Direction::Outbound) as u64,
        }) by {
            assert(bytes_of(updates, key, Direction::Inbound) <= u64::MAX);
            assert(bytes_of(updates, key, Direction::Outbound) <= u64::MAX);
            if key.index() == last.key.index() {
                lemma_index_injective(key, last.key);
                if !before.contains_key(key.index()) {
                    assert(!is_updated(rest, key));
                    lemma_no_bytes(rest, key, Direction::Inbound);
                    lemma_no_bytes(rest, key, Direction::Outbound);
                }
            } else {
                assert(before.contains_key(key.index()));
            }
        }
        assert forall|i: FlowIndex<A>| #[trigger] after.contains_key(i) implies after[i].key.index()
            == i by {
            if i == last.key.index() {
                if before.contains_key(i) {
                    assert(before[i].key.index() == i);
                }
            } else {
                assert(before.contains_key(i));
            }
        }
    }
}

/// A flow that was not updated has no bytes.
proof fn lemma_no_bytes<A: AddressFamily>(
    updates: Seq<Update<A>>,
    key: Key<A>,
    direction: Direction,
)
    requires
        !is_updated(updates, key),
    ensures
        bytes_of(updates, key, direction) == 0,
    decreases updates.len(),
{
    if updates.len() > 0 {
        let rest = updates.drop_last();
        assert(updates[updates.len() - 1] == updates.last());
        assert(!is_updated(rest, key)) by {
            if is_updated(rest, key) {
                let j = choose|j: int| 0 <= j < rest.len() && (#[trigger] rest[j]).key == key;
                assert(updates[j].key == key);
            }
        }
        lemma_no_bytes(rest, key, direction);
    }
}

/// The counters in report order are those of the updated flows, with their sums.
proof fn lemma_reported_flows<A: AddressFamily>(updates: Seq<Update<A>>)
    requires
        sums_fit(updates),
    ensures
        after_updates(updates).dom().finite(),
        after_updates(updates).dom().len() == 0 <==> updates.len() == 0,
        in_order(after_updates(updates)).len() == flows(updates).len(),
        forall|n: int|
            0 <= n < flows(updates).len() ==> (#[trigger] in_order(after_updates(updates))[n])
                == (Value {
                key: flows(updates)[n],
                received_bytes: bytes_of(updates, flows(updates)[n], Direction::Inbound) as u64,
                transmitted_bytes: bytes_of(updates, flows(updates)[n], Direction::Outbound) as u64,
            }),
        ascending(flows(updates).map_values(|key: Key<A>| key.index())),
        forall|key: Key<A>| #[trigger]
            flows(updates).contains(key) <==> is_updated(updates, key),
{
    lemma_flow_order::<A>();
    updates_add_up(updates);
    let stats = after_updates(updates);
    let keys = ordered_keys(stats.dom());
    ordered_keys_list_the_set(stats.dom());
    let values = in_order(stats);
    let listed = flows(updates);
    assert forall|n: int| 0 <= n < keys.len() implies #[trigger] listed[n].index() == keys[n]
        && stats.contains_key(keys[n]) by {
        assert(keys.to_set().contains(keys[n]));
    }
    assert forall|n: int| 0 <= n < listed.len() implies (#[trigger] values[n]) == (Value {
        key: listed[n],
        received_bytes: bytes_of(updates, listed[n], Direction::Inbound) as u64,
        transmitted_bytes: bytes_of(updates, listed[n], Direction::Outbound) as u64,
    }) by {
        assert(listed[n].index() == keys[n]);
        assert(stats.contains_key(listed[n].index()));
    }
    assert(listed.map_values(|key: Key<A>| key.index()) =~= keys);
    assert forall|key: Key<A>| #[trigger] listed.contains(key) <==> is_updated(updates, key) by {
        if listed.contains(key) {
            let n = choose|n: int| 0 <= n < listed.len() && listed[n] == key;
            assert(listed[n].index() == keys[n]);
            assert(stats.contains_key(key.index()));
        }
        if is_updated(updates, key) {
            assert(stats.contains_key(key.index()));
            assert(keys.to_set().contains(key.index()));
            let n = choose|n: int| 0 <= n < keys.len() && keys[n] == key.index();
            assert(listed[n].index() == keys[n]);
            lemma_index_injective(listed[n], key);
        }
    }
    if updates.len() > 0 {
        assert(updates[0].key == updates[0].key);
        assert(is_updated(updates, updates[0].key));
        assert(stats.contains_key(updates[0].key.index()));
        assert(stats.dom().contains(updates[0].key.index()));
    }
}

/// The report entry of one IPv4 flow after some updates.
pub open spec fn sum_entry_v4(
    updates: Seq<Update<Ipv4Address>>,
    key: Key<Ipv4Address>,
) -> BandwidthValueV4 {
    BandwidthValueV4 {
        local_ip: key.local_ip,
        local_port: key.local_port,
        remote_ip: key.remote_ip,
        remote_port: key.remote_port,
        transmitted_bytes: bytes_of(updates, key, Direction::Outbound) as u64,
        received_bytes: bytes_of(updates, key, Direction::Inbound) as u64,
    }
}

/// A report after any updates since the last one is nothing if there were none, and
/// otherwise one record with one entry for each flow that was updated, in ascending order,
/// which holds the sums of the bytes of that flow in either direction. Another report right
/// after it is nothing. `info` and `again` are what the two reports return.
pub proof fn report_gives_each_flow_its_sum_v4(
    updates: Seq<Update<Ipv4Address>>,
    protocol: IpProtocol,
    info: Option<Info>,
    again: Option<Info>,
)
    requires
        sums_fit(updates),
        after_updates(updates).dom().len() <= MAX_BANDWIDTH_ENTRIES_V4,
        reported_v4(after_updates(updates), protocol, info),
        reported_v4(
            left_over(after_updates(updates), MAX_BANDWIDTH_ENTRIES_V4 as nat),
            protocol,
            again,
        ),
    ensures
        info is None <==> updates.len() == 0,
        info matches Some(i) ==> i@ == record(
            INFO_BANDWIDTH_V4,
            seq![protocol.spec_number()] + le_bytes(flows(updates).len(), 4) + entries_v4(
                flows(updates).map_values(
                    |key: Key<Ipv4Address>| sum_entry_v4(updates, key),
                ),
            ),
        ),
        ascending(flows(updates).map_values(|key: Key<Ipv4Address>| key.index())),
        forall|key: Key<Ipv4Address>| #[trigger]
            flows(updates).contains(key) <==> is_updated(updates, key),
        again is None,
{
    let stats = after_updates(updates);
    let limit = MAX_BANDWIDTH_ENTRIES_V4 as nat;
    lemma_reported_flows(updates);
    lemma_all_taken(stats, limit);
    let values = in_order(stats);
    assert(values.map_values(|v: Value<Ipv4Address>| entry_v4(v)) =~= flows(updates).map_values(
        |key: Key<Ipv4Address>| sum_entry_v4(updates, key),
    ));
}

/// The report entry of one IPv6 flow after some updates.
pub open spec fn sum_entry_v6(
    updates: Seq<Update<Ipv6Address>>,
    key: Key<Ipv6Address>,
) -> BandwidthValueV6 {
    BandwidthValueV6 {
        local_ip: key.local_ip,
        local_port: key.local_port,
        remote_ip: key.remote_ip,
        remote_port: key.remote_port,
        transmitted_bytes: bytes_of(updates, key, Direction::Outbound) as u64,
        received_bytes: bytes_of(updates, key, Direction::Inbound) as u64,
    }
}

/// A report after any updates since the last one is nothing if there were none, and
/// otherwise one record with one entry for each flow that was updated, in ascending order,
/// which holds the sums of the bytes of that flow in either direction. Another report right
/// after it is nothing. `info` and `again` are what the two reports return.
pub proof fn report_gives_each_flow_its_sum_v6(
    updates: Seq<Update<Ipv6Address>>,
    protocol: IpProtocol,
    info: Option<Info>,
    again: Option<Info>,
)
    requires
        sums_fit(updates),
        after_updates(updates).dom().len() <= MAX_BANDWIDTH_ENTRIES_V6,
        reported_v6(after_updates(updates), protocol, info),
        reported_v6(
            left_over(after_updates(updates), MAX_BANDWIDTH_ENTRIES_V6 as nat),
            protocol,
            again,
        ),
    ensures
        info is None <==> updates.len() == 0,
        info matches Some(i) ==> i@ == record(
            INFO_BANDWIDTH_V6,
            seq![protocol.spec_number()] + le_bytes(flows(updates).len(), 4) + entries_v6(
                flows(updates).map_values(
                    |key: Key<Ipv6Address>| sum_entry_v6(updates, key),
                ),
            ),
        ),
        ascending(flows(updates).map_values(|key: Key<Ipv6Address>| key.index())),
        forall|key: Key<Ipv6Address>| #[trigger]
            flows(updates).contains(key) <==> is_updated(updates, key),
        again is None,
{
    let stats = after_updates(updates);
    let limit = MAX_BANDWIDTH_ENTRIES_V6 as nat;
    lemma_reported_flows(updates);
    lemma_all_taken(stats, limit);
    let values = in_order(stats);
    assert(values.map_values(|v: Value<Ipv6Address>| entry_v6(v)) =~= flows(updates).map_values(
        |key: Key<Ipv6Address>| sum_entry_v6(updates, key),
    ));
}

} // verus!
