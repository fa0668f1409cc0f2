//! Packets waiting for a decision, by request ID.

use crate::connection::Direction;
use crate::connection_map::{capped, lemma_filter_push};
use crate::info::{
    connection_info_v4, connection_info_v6, connection_payload, record, Info, INFO_CONNECTION_V4,
    INFO_CONNECTION_V6, MAX_CAPTURED_V4, MAX_CAPTURED_V6,
};
use crate::ip::{IpAddress, IpProtocol};
use crate::key::Key;
use crate::lists::{
    increasing, lemma_filter_agree, lemma_filter_all, lemma_filter_append, lemma_filter_none,
    lemma_filter_source, lemma_filter_split, lemma_filter_target, lemma_filter_without, search,
    sort_dedup,
};
use crate::ordered::{get_mut, lawful_key, lemma_integer_keys, sorted_keys};
use crate::packet::{NetBuffer, Packet};
use crate::tcp_closure_cache::{request_matches_tcp_endpoint, spec_request_matches};
use std::collections::{BTreeMap, VecDeque};
use vstd::prelude::*;

verus! {

/// A queued value and its request ID.
pub struct Entry<T> {
    pub value: T,
    pub id: u64,
}

impl<T> Entry<T> {
    /// The request ID.
    pub open spec fn spec_id(&self) -> u64 {
        self.id
    }

    /// Returns the request ID.
    pub fn id(&self) -> (id: u64)
        ensures
            id == self.spec_id(),
    {
        self.id
    }
}

/// Which tuple and connection generation a request is about.
#[derive(Clone, Copy, Debug, PartialEq, Eq, Structural)]
pub struct PendingIdentity {
    pub key: Key,
    pub connection_instance_id: Option<u64>,
}

/// A packet that waits for a decision.
pub struct PendingPacket<H> {
    pub key: Key,
    pub packet: Packet<H>,
    /// Exact live connection that queued this packet. Protocols without
    /// connection state (for example ICMP) deliberately leave this unset.
    pub connection_instance_id: Option<u64>,
}

/// Request IDs still queued for one live connection generation. Most
/// generations have only one undecided packet, so keep that ID inline and
/// allocate a vector only while several requests overlap.
pub enum PendingIds {
    One(u64),
    Multiple(Vec<u64>),
}

impl PendingIds {
    /// The IDs, oldest first.
    pub open spec fn view(&self) -> Seq<u64> {
        match self {
            PendingIds::One(id) => seq![*id],
            PendingIds::Multiple(ids) => ids@,
        }
    }

    fn len(&self) -> (n: usize)
        ensures
            n == self@.len(),
    {
        match self {
            PendingIds::One(_) => 1,
            PendingIds::Multiple(ids) => ids.len(),
        }
    }

    fn extend(&self, target: &mut Vec<u64>)
        ensures
            final(target)@ == old(target)@ + self@,
    {
        match self {
            PendingIds::One(id) => {
                target.push(*id);
            },
            PendingIds::Multiple(ids) => {
                target.extend_from_slice(ids.as_slice());
            },
        }
        assert(target@ =~= old(target)@ + self@);
    }

    fn push(&mut self, id: u64)
        ensures
            final(self)@ == old(self)@.push(id),
    {
        match self {
            PendingIds::One(previous) => {
                let mut ids: Vec<u64> = Vec::with_capacity(2);
                ids.push(*previous);
                ids.push(id);
                *self = PendingIds::Multiple(ids);
            },
            PendingIds::Multiple(ids) => {
                ids.push(id);
            },
        }
        assert(self@ =~= old(self)@.push(id));
    }

    /// Removes one claimed request and returns whether the bucket is empty. A sole
    /// inline ID stays in place.
    fn remove(&mut self, id: u64) -> (empty: bool)
        requires
            increasing(old(self)@),
            old(self)@.contains(id),
        ensures
            empty == (old(self)@.len() == 1),
            !empty ==> exists|i: int|
                0 <= i < old(self)@.len() && #[trigger] old(self)@[i] == id && final(self)@
                    == old(self)@.remove(i),
    {
        match self {
            PendingIds::One(_) => true,
            PendingIds::Multiple(ids) => {
                match search(ids, id) {
                    Ok(index) => {
                        assert(old(self)@[index as int] == id);
                        ids.remove(index);
                        ids.len() == 0
                    },
                    Err(_) => {
                        assert(false);
                        false
                    },
                }
            },
        }
    }
}

/// Value of the payload-layer field of a request.
pub open spec fn payload_layer(ale_layer: bool) -> u8 {
    if ale_layer {
        4
    } else {
        3
    }
}

/// The port of a request: protocols without ports report zero.
pub open spec fn reported_port(protocol: IpProtocol, port: u16) -> u16 {
    if protocol is Tcp || protocol is Udp {
        port
    } else {
        0
    }
}

/// The record that asks user space about a packet. Tuples that mix address families
/// have none.
pub open spec fn request_record(
    key: Key,
    id: u64,
    process_id: u64,
    direction: Direction,
    payload: Seq<u8>,
    ale_layer: bool,
) -> Option<Seq<u8>> {
    let protocol = key.protocol.spec_number();
    let local_port = reported_port(key.protocol, key.local_port);
    let remote_port = reported_port(key.protocol, key.remote_port);
    let layer = payload_layer(ale_layer);
    match (key.local_address, key.remote_address) {
        (IpAddress::Ipv6(local_ip), IpAddress::Ipv6(remote_ip)) => Some(
            record(
                INFO_CONNECTION_V6,
                connection_payload(
                    id,
                    process_id,
                    direction.spec_number(),
                    protocol,
                    local_ip.octets(),
                    remote_ip.octets(),
                    local_port,
                    remote_port,
                    layer,
                    payload,
                ),
            ),
        ),
        (IpAddress::Ipv4(local_ip), IpAddress::Ipv4(remote_ip)) => Some(
            record(
                INFO_CONNECTION_V4,
                connection_payload(
                    id,
                    process_id,
                    direction.spec_number(),
                    protocol,
                    local_ip.octets(),
                    remote_ip.octets(),
                    local_port,
                    remote_port,
                    layer,
                    payload,
                ),
            ),
        ),
        _ => None,
    }
}

/// A record about a packet of this tuple can carry so many captured bytes. There is no
/// record about a tuple that mixes address families.
pub open spec fn fits_record(key: Key, captured: nat) -> bool {
    match (key.local_address, key.remote_address) {
        (IpAddress::Ipv4(_), IpAddress::Ipv4(_)) => captured <= MAX_CAPTURED_V4,
        (IpAddress::Ipv6(_), IpAddress::Ipv6(_)) => captured <= MAX_CAPTURED_V6,
        _ => true,
    }
}

/// Returns whether a record about a packet of this tuple can carry so many captured bytes.
pub fn record_has_room(key: &Key, captured: usize) -> (r: bool)
    ensures
        r == fits_record(*key, captured as nat),
{
    match (key.local_address, key.remote_address) {
        (IpAddress::Ipv4(_), IpAddress::Ipv4(_)) => captured <= MAX_CAPTURED_V4,
        (IpAddress::Ipv6(_), IpAddress::Ipv6(_)) => captured <= MAX_CAPTURED_V6,
        _ => true,
    }
}

/// Builds the record that asks user space about a packet.
pub fn build_info(
    key: &Key,
    packet_id: u64,
    process_id: u64,
    direction: Direction,
    payload: &[u8],
    ale_layer: bool,
) -> (info: Option<Info>)
    requires
        fits_record(*key, payload@.len()),
    ensures
        match info {
            Some(i) => request_record(*key, packet_id, process_id, direction, payload@, ale_layer)
                == Some(i@),
            None => request_record(*key, packet_id, process_id, direction, payload@, ale_layer)
                is None,
        },
{
    let has_ports: bool = key.protocol == IpProtocol::Tcp || key.protocol == IpProtocol::Udp;
    let local_port: u16 = if has_ports {
        key.local_port
    } else {
        0
    };
    let remote_port: u16 = if has_ports {
        key.remote_port
    } else {
        0
    };
    let layer: u8 = if ale_layer {
        4
    } else {
        3
    };
    match (key.local_address, key.remote_address) {
        (IpAddress::Ipv6(local_ip), IpAddress::Ipv6(remote_ip)) => Some(
            connection_info_v6(
                packet_id,
                process_id,
                direction.number(),
                key.protocol.number(),
                local_ip,
                remote_ip,
                local_port,
                remote_port,
                layer,
                payload,
            ),
        ),
        (IpAddress::Ipv4(local_ip), IpAddress::Ipv4(remote_ip)) => Some(
            connection_info_v4(
                packet_id,
                process_id,
                direction.number(),
                key.protocol.number(),
                local_ip,
                remote_ip,
                local_port,
                remote_port,
                layer,
                payload,
            ),
        ),
        _ => None,
    }
}

/// One queued request.
pub type Request<H> = Entry<PendingPacket<H>>;

/// The request IDs of a queue, in queue order.
pub open spec fn request_ids<H>(queue: Seq<Request<H>>) -> Seq<u64> {
    queue.map_values(|e: Request<H>| e.spec_id())
}

/// The request is bound to one connection generation.
pub open spec fn bound_to<H>(e: Request<H>, instance_id: u64) -> bool {
    e.value.connection_instance_id == Some(instance_id)
}

/// The IDs of the requests bound to one connection generation, in queue order.
pub open spec fn bound_ids<H>(queue: Seq<Request<H>>, instance_id: u64) -> Seq<u64> {
    request_ids(queue.filter(|e: Request<H>| bound_to(e, instance_id)))
}

/// The request is bound to one of some connection generations. Zero is none.
pub open spec fn owned<H>(e: Request<H>, instance_ids: Seq<u64>) -> bool {
    e.value.connection_instance_id matches Some(i) && i != 0 && instance_ids.contains(i)
}

/// The packet can be delivered without its connection.
pub open spec fn survives<H>(e: Request<H>) -> bool {
    e.value.packet.spec_survives_connection_end(e.value.key)
}

/// The request without its binding to a connection.
pub open spec fn detached<H>(e: Request<H>) -> Request<H> {
    Entry { value: PendingPacket { connection_instance_id: None, ..e.value }, id: e.id }
}

/// What retirement leaves in the queue: requests of other connections as they are, and
/// deliverable packets of the retired ones, detached.
pub open spec fn after_retirement<H>(queue: Seq<Request<H>>, instance_ids: Seq<u64>) -> Seq<
    Request<H>,
> {
    queue.filter(|e: Request<H>| !owned(e, instance_ids) || survives(e)).map_values(
        |e: Request<H>|
            if owned(e, instance_ids) {
                detached(e)
            } else {
                e
            },
    )
}

/// What retirement takes from the queue.
pub open spec fn retired<H>(queue: Seq<Request<H>>, instance_ids: Seq<u64>) -> Seq<Request<H>> {
    queue.filter(|e: Request<H>| owned(e, instance_ids) && !survives(e))
}

spec fn kept_after<H>(queue: Seq<Request<H>>, done: Seq<u64>) -> Seq<Request<H>> {
    queue.filter(|e: Request<H>| !done.contains(e.id) || survives(e)).map_values(
        |e: Request<H>|
            if done.contains(e.id) {
                detached(e)
            } else {
                e
            },
    )
}

spec fn removed_after<H>(queue: Seq<Request<H>>, done: Seq<u64>) -> Seq<Request<H>> {
    queue.filter(|e: Request<H>| done.contains(e.id) && !survives(e))
}

/// Packets waiting for a decision.
pub struct IdCache<H> {
    values: VecDeque<Request<H>>,
    /// Reverse index for requests that have not yet been claimed by a verdict.
    /// Active requests are tracked separately in `active` and cannot be retired
    /// from this queue.
    pending_by_instance: BTreeMap<u64, PendingIds>,
    active: BTreeMap<u64, PendingIdentity>,
    next_id: u64,
}

spec fn index_exact<H>(queue: Seq<Request<H>>, index: Map<u64, PendingIds>) -> bool {
    forall|i: u64|
        {
            &&& #[trigger] index.contains_key(i) <==> i != 0 && bound_ids(queue, i).len() > 0
            &&& index.contains_key(i) ==> index[i]@ == bound_ids(queue, i)
        }
}

impl<H> IdCache<H> {
    /// The queued requests, oldest first.
    pub closed spec fn queue(&self) -> Seq<Request<H>> {
        self.values@
    }

    /// The requests whose verdict is being applied.
    pub closed spec fn in_progress(&self) -> Map<u64, PendingIdentity> {
        self.active@
    }

    /// The ID of the next request.
    pub closed spec fn next(&self) -> u64 {
        self.next_id
    }

    /// IDs increase along the queue and are below the next one, no claimed request is
    /// queued, and the reverse index is exact.
    pub closed spec fn wf(&self) -> bool {
        &&& increasing(request_ids(self.values@))
        &&& forall|k: int|
            0 <= k < self.values@.len() ==> 1 <= (#[trigger] self.values@[k]).id < self.next_id
        &&& forall|id: u64| #[trigger]
            self.active@.contains_key(id) ==> 1 <= id < self.next_id && !request_ids(
                self.values@,
            ).contains(id)
        &&& index_exact(self.values@, self.pending_by_instance@)
        &&& self.next_id >= 1
    }

    /// Request IDs increase along the queue, a request whose verdict is being applied is
    /// no longer queued, and there are finitely many of those.
    pub proof fn ids_are_unique(&self)
        requires
            self.wf(),
        ensures
            increasing(request_ids(self.queue())),
            forall|id: u64| #[trigger]
                self.in_progress().contains_key(id) ==> !request_ids(self.queue()).contains(id),
            forall|k: int|
                0 <= k < self.queue().len() ==> 1 <= (#[trigger] self.queue()[k]).spec_id()
                    < self.next(),
            self.in_progress().dom().finite(),
    {
    }

    /// Creates an empty cache. Zero is no request ID.
    pub fn new() -> (cache: Self)
        ensures
            cache.wf(),
            cache.queue() == Seq::<Request<H>>::empty(),
            cache.in_progress() == Map::<u64, PendingIdentity>::empty(),
            cache.next() == 1,
    {
        let cache = IdCache {
            values: VecDeque::with_capacity(1000),
            pending_by_instance: BTreeMap::new(),
            active: BTreeMap::new(),
            next_id: 1,
        };
        proof {
            reveal(Seq::filter);
            assert forall|i: u64| bound_ids(cache.values@, i).len() == 0 by {}
        }
        cache
    }
}

proof fn lemma_filtered_ids<H>(queue: Seq<Request<H>>, p: spec_fn(Request<H>) -> bool)
    requires
        increasing(request_ids(queue)),
    ensures
        increasing(request_ids(queue.filter(p))),
    decreases queue.len(),
{
    reveal(Seq::filter);
    if queue.len() > 0 {
        let rest = queue.drop_last();
        assert forall|i: int, j: int| 0 <= i < j < rest.len() implies request_ids(rest)[i]
            < request_ids(rest)[j] by {
            assert(request_ids(queue)[i] < request_ids(queue)[j]);
        }
        lemma_filtered_ids(rest, p);
        let kept = queue.filter(p);
        assert forall|i: int, j: int| 0 <= i < j < kept.len() implies request_ids(kept)[i]
            < request_ids(kept)[j] by {
            if j < rest.filter(p).len() {
                assert(request_ids(rest.filter(p))[i] < request_ids(rest.filter(p))[j]);
            } else {
                lemma_filter_source(rest, p, i);
                let k = choose|k: int|
                    0 <= k < rest.len() && rest[k] == rest.filter(p)[i] && p(rest[k]);
                assert(kept[i] == rest[k]);
                assert(request_ids(queue)[k] < request_ids(queue)[queue.len() - 1]);
            }
        }
    }
}

proof fn lemma_filter_of_remove<T>(s: Seq<T>, f: spec_fn(T) -> bool, k: int)
    requires
        0 <= k < s.len(),
    ensures
        !f(s[k]) ==> s.remove(k).filter(f) == s.filter(f),
        f(s[k]) ==> s.take(k).filter(f).len() < s.filter(f).len() && s.filter(f)[s.take(k).filter(
            f,
        ).len() as int] == s[k] && s.remove(k).filter(f) == s.filter(f).remove(
            s.take(k).filter(f).len() as int,
        ),
{
    lemma_filter_split(s, f, k);
    assert(s.remove(k) =~= s.take(k) + s.skip(k + 1));
    Seq::filter_distributes_over_add(s.take(k), s.skip(k + 1), f);
    if f(s[k]) {
        assert(s.remove(k).filter(f) =~= s.filter(f).remove(s.take(k).filter(f).len() as int));
    } else {
        assert(s.remove(k).filter(f) =~= s.filter(f));
    }
}

/// The requests that one packet becomes: each buffer of a batch is decided on its own.
pub open spec fn packet_parts<H>(packet: Packet<H>) -> Seq<Packet<H>> {
    match packet {
        Packet::NetworkBatch(buffers, inject_info) => buffers@.map_values(
            |buffer: NetBuffer<H>| Packet::Network(buffer, inject_info),
        ),
        packet => seq![packet],
    }
}

/// The requests queued for some packets, with consecutive IDs from `first` on.
pub open spec fn new_requests<H>(
    parts: Seq<Packet<H>>,
    key: Key,
    connection_instance_id: Option<u64>,
    first: u64,
) -> Seq<Request<H>> {
    Seq::new(
        parts.len(),
        |i: int|
            Entry {
                value: PendingPacket { key, packet: parts[i], connection_instance_id },
                id: (first + i) as u64,
            },
    )
}

/// A tuple whose packets can be reported: its addresses belong to one family.
pub open spec fn reportable(key: Key) -> bool {
    key.local_address is Ipv6 == key.remote_address is Ipv6
}

proof fn lemma_bound_push<H>(queue: Seq<Request<H>>, e: Request<H>, i: u64)
    ensures
        bound_ids(queue.push(e), i) == if bound_to(e, i) {
            bound_ids(queue, i).push(e.id)
        } else {
            bound_ids(queue, i)
        },
{
    lemma_filter_push(queue, |e: Request<H>| bound_to(e, i), e);
    assert(bound_ids(queue.push(e), i) =~= if bound_to(e, i) {
        bound_ids(queue, i).push(e.id)
    } else {
        bound_ids(queue, i)
    });
}

fn add_pending_request(
    pending_by_instance: &mut BTreeMap<u64, PendingIds>,
    connection_instance_id: Option<u64>,
    request_id: u64,
)
    ensures
        match connection_instance_id {
            Some(i) if i != 0 => {
                &&& final(pending_by_instance)@.dom() == old(pending_by_instance)@.dom().insert(i)
                &&& final(pending_by_instance)@[i]@ == (if old(pending_by_instance)@.contains_key(i) {
                    old(pending_by_instance)@[i]@
                } else {
                    Seq::empty()
                }).push(request_id)
                &&& forall|j: u64|
                    j != i && #[trigger] old(pending_by_instance)@.contains_key(j)
                        ==> final(pending_by_instance)@[j] == old(pending_by_instance)@[j]
            },
            _ => final(pending_by_instance)@ == old(pending_by_instance)@,
        },
{
    proof {
        lemma_integer_keys();
    }
    let instance_id: u64 = match connection_instance_id {
        Some(instance_id) => instance_id,
        None => {
            return;
        },
    };
    if instance_id == 0 {
        return;
    }
    match get_mut(pending_by_instance, &instance_id) {
        Some(ids) => {
            ids.push(request_id);
            assert(pending_by_instance@.dom() =~= old(pending_by_instance)@.dom().insert(
                instance_id,
            ));
            return;
        },
        None => {},
    }
    pending_by_instance.insert(instance_id, PendingIds::One(request_id));
    assert(pending_by_instance@.dom() =~= old(pending_by_instance)@.dom().insert(instance_id));
    assert(pending_by_instance@[instance_id]@ =~= Seq::empty().push(request_id));
}

impl<H> IdCache<H> {
    fn push_packet(
        &mut self,
        packet: Packet<H>,
        key: Key,
        connection_instance_id: Option<u64>,
        process_id: u64,
        direction: Direction,
        ale_layer: bool,
    ) -> (queued: Option<(u64, Info)>)
        requires
            old(self).wf(),
            old(self).next() < u64::MAX,
            fits_record(key, packet.spec_payload().len()),
        ensures
            final(self).wf(),
            final(self).in_progress() == old(self).in_progress(),
            match request_record(
                key,
                old(self).next(),
                process_id,
                direction,
                packet.spec_payload(),
                ale_layer,
            ) {
                Some(bytes) => {
                    &&& queued matches Some((id, info)) && id == old(self).next() && info@ == bytes
                    &&& final(self).next() == old(self).next() + 1
                    &&& final(self).queue() == old(self).queue().push(
                        Entry {
                            value: PendingPacket { key, packet, connection_instance_id },
                            id: old(self).next(),
                        },
                    )
                },
                None => queued is None && *final(self) == *old(self),
            },
    {
        let id: u64 = self.next_id;
        let info: Info = match build_info(
            &key,
            id,
            process_id,
            direction,
            packet.payload(),
            ale_layer,
        ) {
            Some(info) => info,
            None => {
                return None;
            },
        };
        let ghost before = self.values@;
        let ghost index = self.pending_by_instance@;
        let entry = Entry { value: PendingPacket { key, packet, connection_instance_id }, id };
        let ghost e = entry;
        self.values.push_back(entry);
        self.next_id = id + 1;
        add_pending_request(&mut self.pending_by_instance, connection_instance_id, id);
        proof {
            assert forall|a: int, b: int| 0 <= a < b < self.values@.len() implies request_ids(
                self.values@,
            )[a] < request_ids(self.values@)[b] by {
                if b < before.len() {
                    assert(request_ids(before)[a] < request_ids(before)[b]);
                } else {
                    assert(before[a].id < id);
                }
            }
            assert forall|x: u64| #[trigger] self.active@.contains_key(x) implies !request_ids(
                self.values@,
            ).contains(x) by {
                assert(!request_ids(before).contains(x));
                if request_ids(self.values@).contains(x) {
                    let n = choose|n: int|
                        0 <= n < self.values@.len() && request_ids(self.values@)[n] == x;
                    assert(n < before.len());
                    assert(request_ids(before)[n] == x);
                }
            }
            assert forall|i: u64|
                {
                    &&& #[trigger] self.pending_by_instance@.contains_key(i) <==> i != 0
                        && bound_ids(self.values@, i).len() > 0
                    &&& self.pending_by_instance@.contains_key(i)
                        ==> self.pending_by_instance@[i]@ == bound_ids(self.values@, i)
                } by {
                lemma_bound_push(before, e, i);
                assert(index.contains_key(i) <==> i != 0 && bound_ids(before, i).len() > 0);
                if i != 0 && bound_to(e, i) && !index.contains_key(i) {
                    assert(bound_ids(before, i) =~= Seq::empty());
                }
            }
        }
        Some((id, info))
    }

    /// Queues a packet and returns its requests with their records.
    ///
    /// One outgoing WFP indication can contain several packets. Userspace decides
    /// packets rather than indications, so every clone gets its own cache entry, event
    /// and verdict ID. A packet whose tuple mixes address families is not queued.
    pub fn push(
        &mut self,
        value: (Key, Packet<H>),
        connection_instance_id: Option<u64>,
        process_id: u64,
        direction: Direction,
        ale_layer: bool,
    ) -> (queued: Vec<(u64, Info)>)
        requires
            old(self).wf(),
            old(self).next() + packet_parts(value.1).len() <= u64::MAX,
            forall|i: int|
                0 <= i < packet_parts(value.1).len() ==> fits_record(
                    value.0,
                    (#[trigger] packet_parts(value.1)[i]).spec_payload().len(),
                ),
        ensures
            final(self).wf(),
            final(self).in_progress() == old(self).in_progress(),
            if reportable(value.0) {
                let parts = packet_parts(value.1);
                &&& final(self).next() == old(self).next() + parts.len()
                &&& final(self).queue() == old(self).queue() + new_requests(
                    parts,
                    value.0,
                    connection_instance_id,
                    old(self).next(),
                )
                &&& queued@.len() == parts.len()
                &&& forall|i: int|
                    0 <= i < parts.len() ==> (#[trigger] queued@[i]).0 == old(self).next() + i
                        && request_record(
                        value.0,
                        queued@[i].0,
                        process_id,
                        direction,
                        parts[i].spec_payload(),
                        ale_layer,
                    ) == Some(queued@[i].1@)
            } else {
                queued@.len() == 0 && final(self).next() == old(self).next() && final(self).queue()
                    == old(self).queue()
            },
    {
        let (key, packet) = value;
        let ghost parts = packet_parts(packet);
        let ghost first = self.next_id;
        let ghost start = self.values@;
        let ghost in_progress = self.active@;
        let mut queued: Vec<(u64, Info)> = Vec::new();
        match packet {
            Packet::NetworkBatch(buffers, inject_info) => {
                let ghost all = buffers@;
                let ghost active = self.active@;
                for buffer in iter: buffers.into_iter()
                    invariant
                        self.wf(),
                        self.active@ == active,
                        iter.seq() == all,
                        parts == all.map_values(
                            |buffer: NetBuffer<H>| Packet::Network(buffer, inject_info),
                        ),
                        first + parts.len() <= u64::MAX,
                        forall|i: int|
                            0 <= i < parts.len() ==> fits_record(
                                key,
                                (#[trigger] parts[i]).spec_payload().len(),
                            ),
                        if reportable(key) {
                            &&& self.next_id == first + iter.index()
                            &&& self.values@ == start + new_requests(
                                parts,
                                key,
                                connection_instance_id,
                                first,
                            ).take(iter.index() as int)
                            &&& queued@.len() == iter.index()
                            &&& forall|i: int|
                                0 <= i < queued@.len() ==> (#[trigger] queued@[i]).0 == first + i
                                    && request_record(
                                    key,
                                    queued@[i].0,
                                    process_id,
                                    direction,
                                    parts[i].spec_payload(),
                                    ale_layer,
                                ) == Some(queued@[i].1@)
                        } else {
                            &&& self.next_id == first
                            &&& self.values@ == start
                            &&& queued@.len() == 0
                        },
                {
                    let ghost n = iter.index() as int;
                    proof {
                        assert(buffer == all[n]);
                        assert(parts[n] == Packet::Network(buffer, inject_info));
                    }
                    let entry = self.push_packet(
                        Packet::Network(buffer, inject_info),
                        key,
                        connection_instance_id,
                        process_id,
                        direction,
                        ale_layer,
                    );
                    if let Some(request) = entry {
                        queued.push(request);
                    }
                    proof {
                        if reportable(key) {
                            let all_new = new_requests(parts, key, connection_instance_id, first);
                            assert(all_new.take(n + 1) =~= all_new.take(n).push(all_new[n]));
                            assert(self.values@ =~= start + all_new.take(n + 1));
                        }
                    }
                }
                proof {
                    let all_new = new_requests(parts, key, connection_instance_id, first);
                    assert(all_new.take(all.len() as int) =~= all_new);
                }
            },
            packet => {
                proof {
                    assert(parts[0] == packet);
                }
                let entry = self.push_packet(
                    packet,
                    key,
                    connection_instance_id,
                    process_id,
                    direction,
                    ale_layer,
                );
                if let Some(request) = entry {
                    queued.push(request);
                }
                proof {
                    if reportable(key) {
                        assert(self.values@ =~= start + new_requests(
                            parts,
                            key,
                            connection_instance_id,
                            first,
                        ));
                    }
                }
            },
        }
        queued
    }
}

fn find_request<H>(values: &VecDeque<Request<H>>, id: u64) -> (position: Option<usize>)
    requires
        increasing(request_ids(values@)),
    ensures
        match position {
            Some(i) => i < values@.len() && values@[i as int].id == id,
            None => !request_ids(values@).contains(id),
        },
{
    let mut low: usize = 0;
    let mut high: usize = values.len();
    while low < high
        invariant
            low <= high <= values@.len(),
            increasing(request_ids(values@)),
            forall|j: int| 0 <= j < low ==> (#[trigger] values@[j]).id < id,
            forall|j: int| high <= j < values@.len() ==> (#[trigger] values@[j]).id > id,
        decreases high - low,
    {
        let middle: usize = low + (high - low) / 2;
        let found: u64 = values[middle].id;
        if found == id {
            return Some(middle);
        }
        proof {
            assert forall|j: int| 0 <= j < values@.len() && j != middle implies (j < middle
                ==> (#[trigger] values@[j]).id < found) && (j > middle ==> values@[j].id
                > found) by {
                if j < middle {
                    assert(request_ids(values@)[j] < request_ids(values@)[middle as int]);
                } else {
                    assert(request_ids(values@)[middle as int] < request_ids(values@)[j]);
                }
            }
        }
        if found < id {
            low = middle + 1;
        } else {
            high = middle;
        }
    }
    proof {
        assert forall|j: int| 0 <= j < values@.len() implies request_ids(values@)[j] != id by {
            assert(values@[j].id != id);
        }
    }
    None
}

/// The queue without the request with a given ID.
pub open spec fn without<H>(queue: Seq<Request<H>>, id: u64) -> Seq<Request<H>> {
    queue.filter(|e: Request<H>| e.spec_id() != id)
}

proof fn lemma_without<H>(queue: Seq<Request<H>>, k: int)
    requires
        0 <= k < queue.len(),
        increasing(request_ids(queue)),
    ensures
        without(queue, queue[k].id) == queue.remove(k),
{
    let id = queue[k].id;
    let all = |e: Request<H>| true;
    let g = |e: Request<H>| e.spec_id() != id;
    assert forall|i: int| 0 <= i < queue.len() implies g(#[trigger] queue[i]) == (all(queue[i])
        && i != k) by {
        assert(request_ids(queue)[i] == queue[i].id);
        assert(request_ids(queue)[k] == queue[k].id);
    }
    lemma_filter_without(queue, all, g, k);
    lemma_filter_all(queue, all);
    lemma_filter_all(queue.take(k), all);
}

proof fn lemma_index_remove<H>(queue: Seq<Request<H>>, k: int, i: u64)
    requires
        0 <= k < queue.len(),
        increasing(request_ids(queue)),
    ensures
        !bound_to(queue[k], i) ==> bound_ids(queue.remove(k), i) == bound_ids(queue, i),
        bound_to(queue[k], i) ==> bound_ids(queue, i).contains(queue[k].id) && forall|n: int|
            0 <= n < bound_ids(queue, i).len() && #[trigger] bound_ids(queue, i)[n] == queue[k].id
                ==> bound_ids(queue.remove(k), i) == bound_ids(queue, i).remove(n),
        increasing(bound_ids(queue, i)),
{
    let f = |e: Request<H>| bound_to(e, i);
    lemma_filter_of_remove(queue, f, k);
    lemma_filtered_ids(queue, f);
    if bound_to(queue[k], i) {
        let pos = queue.take(k).filter(f).len() as int;
        assert(bound_ids(queue, i)[pos] == queue[k].id);
        assert forall|n: int| 0 <= n < bound_ids(queue, i).len() && #[trigger] bound_ids(queue, i)[n]
            == queue[k].id implies bound_ids(queue.remove(k), i) == bound_ids(queue, i).remove(
            n,
        ) by {
            assert(n == pos);
            assert(bound_ids(queue.remove(k), i) =~= bound_ids(queue, i).remove(n));
        }
    }
}

fn remove_pending_request(
    pending_by_instance: &mut BTreeMap<u64, PendingIds>,
    connection_instance_id: Option<u64>,
    request_id: u64,
)
    requires
        connection_instance_id matches Some(i) ==> i != 0 ==> old(
            pending_by_instance
        )@.contains_key(i) && increasing(old(pending_by_instance)@[i]@) && old(
            pending_by_instance
        )@[i]@.contains(request_id),
    ensures
        match connection_instance_id {
            Some(i) if i != 0 => {
                let ids = old(pending_by_instance)@[i]@;
                if ids.len() == 1 {
                    final(pending_by_instance)@ == old(pending_by_instance)@.remove(i)
                } else {
                    &&& final(pending_by_instance)@.dom() == old(pending_by_instance)@.dom()
                    &&& forall|j: u64|
                        j != i && #[trigger] old(pending_by_instance)@.contains_key(j) ==> final(
                            pending_by_instance
                        )@[j] == old(pending_by_instance)@[j]
                    &&& exists|n: int|
                        0 <= n < ids.len() && #[trigger] ids[n] == request_id && final(
                            pending_by_instance
                        )@[i]@ == ids.remove(n)
                }
            },
            _ => final(pending_by_instance)@ == old(pending_by_instance)@,
        },
{
    proof {
        lemma_integer_keys();
    }
    let instance_id: u64 = match connection_instance_id {
        Some(instance_id) => instance_id,
        None => {
            return;
        },
    };
    if instance_id == 0 {
        return;
    }
    let ghost before = pending_by_instance@;
    let mut emptied: bool = false;
    if let Some(ids) = get_mut(pending_by_instance, &instance_id) {
        emptied = ids.remove(request_id);
    }
    assert(pending_by_instance@.dom() =~= before.dom());
    if emptied {
        pending_by_instance.remove(&instance_id);
        assert(pending_by_instance@ =~= before.remove(instance_id));
    }
}

impl<H> IdCache<H> {
    /// Claims a queued request for its verdict.
    pub fn pop_id(&mut self, id: u64) -> (pending: Option<PendingPacket<H>>)
        requires
            old(self).wf(),
        ensures
            final(self).wf(),
            final(self).next() == old(self).next(),
            match pending {
                Some(p) => {
                    &&& exists|k: int|
                        0 <= k < old(self).queue().len() && #[trigger] old(self).queue()[k] == (
                        Entry { value: p, id })
                    &&& final(self).queue() == without(old(self).queue(), id)
                    &&& final(self).in_progress() == old(self).in_progress().insert(
                        id,
                        PendingIdentity {
                            key: p.key,
                            connection_instance_id: p.connection_instance_id,
                        },
                    )
                },
                None => !request_ids(old(self).queue()).contains(id) && *final(self) == *old(self),
            },
    {
        proof {
            lemma_integer_keys();
        }
        let index: usize = match find_request(&self.values, id) {
            Some(index) => index,
            None => {
                return None;
            },
        };
        let ghost before = self.values@;
        let ghost pending = self.pending_by_instance@;
        let ghost k = index as int;
        let ghost e = before[k];
        proof {
            lemma_without(before, k);
        }
        match self.values.remove(index) {
            Some(entry) => {
                let instance: Option<u64> = entry.value.connection_instance_id;
                proof {
                    assert(old(self).queue()[k] == (Entry { value: entry.value, id }));
                    if let Some(i) = instance {
                        lemma_index_remove(before, k, i);
                        if i != 0 {
                            assert(bound_ids(before, i).len() > 0);
                            assert(pending.contains_key(i));
                        }
                    }
                }
                remove_pending_request(&mut self.pending_by_instance, instance, id);
                self.active.insert(
                    id,
                    PendingIdentity { key: entry.value.key, connection_instance_id: instance },
                );
                proof {
                    let after = self.values@;
                    assert forall|a: int, b: int| 0 <= a < b < after.len() implies request_ids(
                        after,
                    )[a] < request_ids(after)[b] by {
                        let a0 = if a < k {
                            a
                        } else {
                            a + 1
                        };
                        let b0 = if b < k {
                            b
                        } else {
                            b + 1
                        };
                        assert(request_ids(before)[a0] < request_ids(before)[b0]);
                    }
                    assert forall|n: int| 0 <= n < after.len() implies request_ids(
                        before,
                    ).contains(#[trigger] request_ids(after)[n]) && request_ids(after)[n] != id by {
                        let n0 = if n < k {
                            n
                        } else {
                            n + 1
                        };
                        assert(request_ids(before)[n0] == request_ids(after)[n]);
                        assert(request_ids(before)[k] == id);
                    }
                    assert forall|n: int| 0 <= n < after.len() implies 1 <= (#[trigger] after[n]).id
                        < self.next_id by {
                        let n0 = if n < k {
                            n
                        } else {
                            n + 1
                        };
                        assert(after[n] == before[n0]);
                    }
                    assert forall|i: u64|
                        {
                            &&& #[trigger] self.pending_by_instance@.contains_key(i) <==> i != 0
                                && bound_ids(after, i).len() > 0
                            &&& self.pending_by_instance@.contains_key(i)
                                ==> self.pending_by_instance@[i]@ == bound_ids(after, i)
                        } by {
                        lemma_index_remove(before, k, i);
                        assert(pending.contains_key(i) <==> i != 0 && bound_ids(before, i).len()
                            > 0);
                        if i != 0 && bound_to(e, i) {
                            let ids = bound_ids(before, i);
                            if ids.len() == 1 {
                                let n = choose|n: int| 0 <= n < ids.len() && ids[n] == id;
                                assert(bound_ids(after, i) == ids.remove(n));
                            }
                        }
                    }
                }
                Some(entry.value)
            },
            None => None,
        }
    }

    /// Removes the in-progress marker created when a verdict claimed this ID.
    pub fn finish_id(&mut self, id: u64)
        requires
            old(self).wf(),
        ensures
            final(self).wf(),
            final(self).queue() == old(self).queue(),
            final(self).next() == old(self).next(),
            final(self).in_progress() == old(self).in_progress().remove(id),
    {
        proof {
            lemma_integer_keys();
        }
        self.active.remove(&id);
    }

    /// Number of requests that are queued or being applied.
    pub fn get_entries_count(&self) -> (n: usize)
        requires
            self.wf(),
        ensures
            n == capped(
                self.queue().len() + self.in_progress().dom().len() as int,
            ),
    {
        self.values.len().saturating_add(self.active.len())
    }

    /// Number of queued requests of one connection generation.
    pub fn pending_request_count(&self, instance_id: u64) -> (n: usize)
        requires
            self.wf(),
        ensures
            n == if instance_id == 0 {
                0
            } else {
                bound_ids(self.queue(), instance_id).len()
            },
    {
        proof {
            lemma_integer_keys();
            assert(self.pending_by_instance@.contains_key(instance_id) <==> instance_id != 0
                && bound_ids(self.values@, instance_id).len() > 0);
        }
        match self.pending_by_instance.get(&instance_id) {
            Some(ids) => ids.len(),
            None => 0,
        }
    }

    /// The IDs of the queued requests, oldest first.
    pub fn queued_ids(&self) -> (ids: Vec<u64>)
        requires
            self.wf(),
        ensures
            ids@ == request_ids(self.queue()),
    {
        let count: usize = self.values.len();
        let mut ids: Vec<u64> = Vec::with_capacity(count);
        let mut k: usize = 0;
        while k < count
            invariant
                k <= count == self.values@.len(),
                ids@ == request_ids(self.values@).take(k as int),
            decreases count - k,
        {
            ids.push(self.values[k].id);
            k = k + 1;
            assert(request_ids(self.values@).take(k as int) =~= request_ids(self.values@).take(
                k - 1,
            ).push(request_ids(self.values@)[k - 1]));
        }
        assert(request_ids(self.values@).take(count as int) =~= request_ids(self.values@));
        ids
    }

    /// Whether there are IDs for this many more requests.
    pub fn has_ids_for(&self, count: usize) -> (r: bool)
        requires
            self.wf(),
        ensures
            r == (self.next() + count <= u64::MAX),
    {
        count as u64 <= u64::MAX - self.next_id
    }

    /// The connection generation that a queued request is bound to.
    pub fn queued_instance(&self, id: u64) -> (instance: Option<Option<u64>>)
        requires
            self.wf(),
        ensures
            match instance {
                Some(i) => exists|k: int|
                    0 <= k < self.queue().len() && (#[trigger] self.queue()[k]).spec_id() == id
                        && self.queue()[k].value.connection_instance_id == i,
                None => !request_ids(self.queue()).contains(id),
            },
    {
        match find_request(&self.values, id) {
            Some(k) => {
                assert(self.queue()[k as int].spec_id() == id);
                Some(self.values[k].value.connection_instance_id)
            },
            None => None,
        }
    }

    /// Takes every queued request.
    pub fn pop_all(&mut self) -> (values: VecDeque<Request<H>>)
        requires
            old(self).wf(),
        ensures
            final(self).wf(),
            final(self).queue() == Seq::<Request<H>>::empty(),
            final(self).in_progress() == old(self).in_progress(),
            final(self).next() == old(self).next(),
            values@ == old(self).queue(),
    {
        let mut values: VecDeque<Request<H>> = VecDeque::with_capacity(1);
        core::mem::swap(&mut self.values, &mut values);
        self.pending_by_instance.clear();
        proof {
            reveal(Seq::filter);
            assert forall|i: u64| bound_ids(self.values@, i).len() == 0 by {}
        }
        values
    }
}

proof fn lemma_kept_ids<H>(queue: Seq<Request<H>>, done: Seq<u64>)
    requires
        increasing(request_ids(queue)),
    ensures
        increasing(request_ids(kept_after(queue, done))),
        request_ids(kept_after(queue, done)) == request_ids(
            queue.filter(|e: Request<H>| !done.contains(e.id) || survives(e)),
        ),
{
    let f = |e: Request<H>| !done.contains(e.id) || survives(e);
    lemma_filtered_ids(queue, f);
    assert(request_ids(kept_after(queue, done)) =~= request_ids(queue.filter(f)));
}

/// One more retired request changes the queue at one place only.
proof fn lemma_retire_step<H>(queue: Seq<Request<H>>, done: Seq<u64>, k: int, at: int)
    requires
        0 <= k < queue.len(),
        increasing(request_ids(queue)),
        forall|x: u64| done.contains(x) ==> x < queue[k].id,
        0 <= at < kept_after(queue, done).len(),
        kept_after(queue, done)[at].id == queue[k].id,
    ensures
        kept_after(queue, done)[at] == queue[k],
        survives(queue[k]) ==> kept_after(queue, done.push(queue[k].id)) == kept_after(
            queue,
            done,
        ).update(at, detached(queue[k])) && removed_after(queue, done.push(queue[k].id))
            == removed_after(queue, done),
        !survives(queue[k]) ==> kept_after(queue, done.push(queue[k].id)) == kept_after(
            queue,
            done,
        ).remove(at) && removed_after(queue, done.push(queue[k].id)) == removed_after(
            queue,
            done,
        ).push(queue[k]),
{
    let x = queue[k].id;
    let more = done.push(x);
    let f = |e: Request<H>| !done.contains(e.id) || survives(e);
    let g = |e: Request<H>| !more.contains(e.id) || survives(e);
    let d = |e: Request<H>|
        if done.contains(e.id) {
            detached(e)
        } else {
            e
        };
    let d2 = |e: Request<H>|
        if more.contains(e.id) {
            detached(e)
        } else {
            e
        };
    assert forall|y: u64| more.contains(y) <==> done.contains(y) || y == x by {
        if done.contains(y) {
            let n = choose|n: int| 0 <= n < done.len() && done[n] == y;
            assert(more[n] == y);
        }
        if y == x {
            assert(more[done.len() as int] == y);
        }
        if more.contains(y) && y != x {
            let n = choose|n: int| 0 <= n < more.len() && more[n] == y;
            assert(done[n] == y);
        }
    }
    assert(!done.contains(x));
    assert forall|i: int| 0 <= i < queue.len() && i != k implies (#[trigger] queue[i]).id != x by {
        assert(request_ids(queue)[i] == queue[i].id);
        assert(request_ids(queue)[k] == x);
    }
    lemma_kept_ids(queue, done);
    lemma_filtered_ids(queue, f);
    let pos = queue.take(k).filter(f).len() as int;
    lemma_filter_split(queue, f, k);
    assert(queue.filter(f)[pos] == queue[k]);
    assert(request_ids(queue.filter(f))[pos] == x);
    assert(request_ids(kept_after(queue, done))[at] == x);
    assert(at == pos);
    if survives(queue[k]) {
        lemma_filter_agree(queue, f, g);
        let h = |e: Request<H>| done.contains(e.id) && !survives(e);
        let h2 = |e: Request<H>| more.contains(e.id) && !survives(e);
        assert forall|i: int| 0 <= i < queue.len() implies h(#[trigger] queue[i]) == h2(
            queue[i],
        ) by {}
        lemma_filter_agree(queue, h, h2);
        assert forall|j: int| 0 <= j < queue.filter(f).len() && j != pos implies (
        #[trigger] queue.filter(f)[j]).id != x by {
            assert(request_ids(queue.filter(f))[j] == queue.filter(f)[j].id);
        }
        assert(kept_after(queue, more) =~= kept_after(queue, done).update(at, detached(queue[k])));
    } else {
        assert forall|i: int| 0 <= i < queue.len() implies g(#[trigger] queue[i]) == (f(queue[i])
            && i != k) by {}
        lemma_filter_without(queue, f, g, k);
        let h = |e: Request<H>| done.contains(e.id) && !survives(e);
        let h2 = |e: Request<H>| more.contains(e.id) && !survives(e);
        assert forall|i: int| k <= i < queue.len() implies !h(#[trigger] queue[i]) by {
            if i > k {
                assert(request_ids(queue)[k] < request_ids(queue)[i]);
            }
        }
        assert forall|i: int| 0 <= i < queue.len() implies h2(#[trigger] queue[i]) == (h(queue[i])
            || i == k) by {}
        lemma_filter_append(queue, h, h2, k);
        assert forall|j: int| 0 <= j < queue.filter(f).len() && j != pos implies (
        #[trigger] queue.filter(f)[j]).id != x by {
            assert(request_ids(queue.filter(f))[j] == queue.filter(f)[j].id);
        }
        assert(kept_after(queue, more) =~= kept_after(queue, done).remove(at));
    }
}

/// A rewritten and filtered queue has the same requests of an untouched connection.
proof fn lemma_untouched_bound<H>(
    queue: Seq<Request<H>>,
    f: spec_fn(Request<H>) -> bool,
    d: spec_fn(Request<H>) -> Request<H>,
    q: spec_fn(Request<H>) -> bool,
)
    requires
        forall|k: int|
            0 <= k < queue.len() ==> (q(#[trigger] queue[k]) ==> f(queue[k]) && d(queue[k])
                == queue[k]),
        forall|k: int|
            0 <= k < queue.len() ==> (!q(#[trigger] queue[k]) && f(queue[k]) ==> !q(d(queue[k]))),
    ensures
        queue.filter(f).map_values(d).filter(q) == queue.filter(q),
    decreases queue.len(),
{
    if queue.len() == 0 {
        reveal(Seq::filter);
        assert(queue.filter(f).map_values(d) =~= Seq::empty());
        assert(queue =~= Seq::empty());
    } else {
        let rest = queue.drop_last();
        let e = queue.last();
        assert forall|k: int| 0 <= k < rest.len() implies (q(#[trigger] rest[k]) ==> f(rest[k])
            && d(rest[k]) == rest[k]) && (!q(rest[k]) && f(rest[k]) ==> !q(d(rest[k]))) by {
            assert(rest[k] == queue[k]);
        }
        lemma_untouched_bound(rest, f, d, q);
        assert(queue =~= rest.push(e));
        assert(queue[queue.len() - 1] == e);
        lemma_filter_push(rest, f, e);
        lemma_filter_push(rest, q, e);
        if f(e) {
            assert(rest.filter(f).push(e).map_values(d) =~= rest.filter(f).map_values(d).push(
                d(e),
            ));
            lemma_filter_push(rest.filter(f).map_values(d), q, d(e));
        }
    }
}

/// After retirement no request is bound to a retired connection, and those of other
/// connections are as before.
pub proof fn retirement_unbinds<H>(queue: Seq<Request<H>>, instance_ids: Seq<u64>, i: u64)
    requires
        i != 0,
    ensures
        bound_ids(after_retirement(queue, instance_ids), i) == if instance_ids.contains(i) {
            Seq::empty()
        } else {
            bound_ids(queue, i)
        },
{
    let f = |e: Request<H>| !owned(e, instance_ids) || survives(e);
    let d = |e: Request<H>|
        if owned(e, instance_ids) {
            detached(e)
        } else {
            e
        };
    let q = |e: Request<H>| bound_to(e, i);
    if instance_ids.contains(i) {
        let after = after_retirement(queue, instance_ids);
        assert forall|k: int| 0 <= k < after.len() implies !q(#[trigger] after[k]) by {
            lemma_filter_source(queue, f, k);
        }
        lemma_filter_none(after, q);
        assert(bound_ids(after, i) =~= Seq::empty());
    } else {
        lemma_untouched_bound(queue, f, d, q);
    }
}

/// Retirement loses nothing: every request stays queued or is handed back.
pub proof fn retirement_keeps_or_returns<H>(queue: Seq<Request<H>>, instance_ids: Seq<u64>, k: int)
    requires
        0 <= k < queue.len(),
    ensures
        retired(queue, instance_ids).contains(queue[k]) || request_ids(
            after_retirement(queue, instance_ids),
        ).contains(queue[k].spec_id()),
{
    let f = |e: Request<H>| !owned(e, instance_ids) || survives(e);
    let h = |e: Request<H>| owned(e, instance_ids) && !survives(e);
    assert(request_ids(after_retirement(queue, instance_ids)) =~= request_ids(queue.filter(f)));
    if f(queue[k]) {
        lemma_filter_target(queue, f, k);
        let i = choose|i: int| 0 <= i < queue.filter(f).len() && #[trigger] queue.filter(f)[i]
            == queue[k];
        assert(request_ids(queue.filter(f))[i] == queue[k].id);
    } else {
        lemma_filter_target(queue, h, k);
    }
}

impl<H> IdCache<H> {
    /// Retires pending packets owned by one of the supplied connection instances
    /// while preserving the ID order of unrelated requests.
    ///
    /// Outbound UDP packet-layer clones are retained but detached from the ended
    /// instance. The application's send completed before the packet was absorbed,
    /// and endpoint closure must not revoke that already accepted datagram. A later
    /// verdict therefore remains valid for the clone, but cannot update a reused
    /// connection tuple. Every packet retains its own request ID; entries are never
    /// merged. Other packets are removed and returned for fail-closed completion.
    ///
    /// The reverse index makes the ordinary one-endpoint path proportional to the
    /// number of that endpoint's pending requests rather than the size of the global
    /// queue. No replacement queue is allocated: a surviving UDP entry is taken out and put
    /// back detached at its own place, and other entries are removed directly from the
    /// existing deque.
    pub fn retire_connection_instances(&mut self, instance_ids: &[u64]) -> (removed: VecDeque<
        Request<H>,
    >)
        requires
            old(self).wf(),
        ensures
            final(self).wf(),
            final(self).queue() == after_retirement(old(self).queue(), instance_ids@),
            final(self).in_progress() == old(self).in_progress(),
            final(self).next() == old(self).next(),
            removed@ == retired(old(self).queue(), instance_ids@),
    {
        let ghost queue = self.values@;
        let ghost index = self.pending_by_instance@;
        let ghost all = instance_ids@;
        let gathered: Vec<u64> = self.take_pending_ids(instance_ids);
        // Requests from several instances can interleave in the global queue. Sort
        // only the affected IDs so fail-closed completions retain their prior order.
        let ghost found = gathered@;
        let order: Vec<u64> = sort_dedup(gathered);
        proof {
            assert forall|x: u64| #[trigger] order@.contains(x) <==> exists|k: int|
                0 <= k < queue.len() && (#[trigger] queue[k]).id == x && owned(queue[k], all) by {
                assert(order@.to_set().contains(x) <==> found.to_set().contains(x));
                assert(order@.contains(x) <==> found.contains(x));
            }
            assert forall|x: u64| order@.contains(x) implies request_ids(queue).contains(x) by {
                let k = choose|k: int|
                    0 <= k < queue.len() && (#[trigger] queue[k]).id == x && owned(queue[k], all);
                assert(request_ids(queue)[k] == x);
            }
        }
        let count: usize = order.len();
        let mut removed: VecDeque<Request<H>> = VecDeque::new();
        let mut n: usize = 0;
        proof {
            let none = Seq::<u64>::empty();
            assert(order@.take(0) =~= none);
            lemma_filter_all(
                queue,
                |e: Request<H>| !none.contains(e.id) || survives(e),
            );
            assert(kept_after(queue, none) =~= queue);
            lemma_filter_none(queue, |e: Request<H>| none.contains(e.id) && !survives(e));
        }
        while n < count
            invariant
                n <= count == order@.len(),
                increasing(order@),
                increasing(request_ids(queue)),
                forall|x: u64| order@.contains(x) ==> request_ids(queue).contains(x),
                self.values@ == kept_after(queue, order@.take(n as int)),
                removed@ == removed_after(queue, order@.take(n as int)),
                self.active == old(self).active,
                self.next_id == old(self).next_id,
                self.pending_by_instance@ == index.remove_keys(
                    Set::new(|i: u64| all.contains(i)),
                ),
            decreases count - n,
        {
            let id: u64 = order[n];
            let ghost done = order@.take(n as int);
            proof {
                assert(order@.contains(order@[n as int]));
                lemma_kept_ids(queue, done);
            }
            let ghost k = choose|k: int| 0 <= k < queue.len() && request_ids(queue)[k] == id;
            proof {
                assert(queue[k].id == id);
                assert forall|x: u64| done.contains(x) implies x < id by {
                    let m = choose|m: int| 0 <= m < done.len() && done[m] == x;
                    assert(order@[m] == x);
                }
                assert(order@.take(n + 1) =~= done.push(id));
                let f = |e: Request<H>| !done.contains(e.id) || survives(e);
                lemma_filter_target(queue, f, k);
                let j = choose|j: int|
                    0 <= j < queue.filter(f).len() && #[trigger] queue.filter(f)[j] == queue[k];
                assert(request_ids(queue.filter(f))[j] == id);
                assert(request_ids(self.values@).contains(id));
            }
            if let Some(position) = find_request(&self.values, id) {
                proof {
                    lemma_retire_step(queue, done, k, position as int);
                }
                let ghost current = self.values@;
                if let Some(entry) = self.values.remove(position) {
                    if entry.value.packet.survives_connection_end(&entry.value.key) {
                        let kept = Entry {
                            value: PendingPacket {
                                key: entry.value.key,
                                packet: entry.value.packet,
                                connection_instance_id: None,
                            },
                            id: entry.id,
                        };
                        self.values.insert(position, kept);
                        assert(self.values@ =~= current.update(
                            position as int,
                            detached(queue[k]),
                        ));
                    } else {
                        removed.push_back(entry);
                    }
                }
            }
            n = n + 1;
        }
        proof {
            assert(order@.take(count as int) =~= order@);
            self.lemma_retired(*old(self), order@, all, removed@);
        }
        removed
    }

    proof fn lemma_retired(
        self,
        before: IdCache<H>,
        order: Seq<u64>,
        all: Seq<u64>,
        removed: Seq<Request<H>>,
    )
        requires
            before.wf(),
            forall|x: u64|
                #![trigger order.contains(x)]
                order.contains(x) <==> exists|k: int|
                    0 <= k < before.values@.len() && (#[trigger] before.values@[k]).id == x
                        && owned(before.values@[k], all),
            self.values@ == kept_after(before.values@, order),
            removed == removed_after(before.values@, order),
            self.active == before.active,
            self.next_id == before.next_id,
            self.pending_by_instance@ == before.pending_by_instance@.remove_keys(
                Set::new(|i: u64| all.contains(i)),
            ),
        ensures
            self.wf(),
            self.values@ == after_retirement(before.values@, all),
            removed == retired(before.values@, all),
    {
        let queue = before.values@;
        assert forall|k: int| 0 <= k < queue.len() implies order.contains((#[trigger] queue[k]).id)
            == owned(queue[k], all) by {
            if order.contains(queue[k].id) {
                let j = choose|j: int|
                    0 <= j < queue.len() && (#[trigger] queue[j]).id == queue[k].id && owned(
                        queue[j],
                        all,
                    );
                assert(request_ids(queue)[j] == request_ids(queue)[k]);
                assert(j == k);
            }
        }
        let f = |e: Request<H>| !order.contains(e.id) || survives(e);
        let g = |e: Request<H>| !owned(e, all) || survives(e);
        lemma_filter_agree(queue, f, g);
        lemma_filter_agree(
            queue,
            |e: Request<H>| order.contains(e.id) && !survives(e),
            |e: Request<H>| owned(e, all) && !survives(e),
        );
        assert forall|j: int| 0 <= j < queue.filter(g).len() implies order.contains(
            (#[trigger] queue.filter(g)[j]).id,
        ) == owned(queue.filter(g)[j], all) by {
            lemma_filter_source(queue, g, j);
        }
        assert(self.values@ =~= after_retirement(queue, all));
        lemma_kept_ids(queue, order);
        assert forall|j: int| 0 <= j < self.values@.len() implies 1 <= (#[trigger] self.values@[j]).id
            < self.next_id && request_ids(queue).contains(self.values@[j].id) by {
            lemma_filter_source(queue, f, j);
            let k = choose|k: int|
                0 <= k < queue.len() && queue[k] == queue.filter(f)[j] && f(queue[k]);
            assert(request_ids(queue)[k] == self.values@[j].id);
        }
        assert forall|id: u64| #[trigger] self.active@.contains_key(id) implies !request_ids(
            self.values@,
        ).contains(id) by {
            if request_ids(self.values@).contains(id) {
                let j = choose|j: int|
                    0 <= j < self.values@.len() && request_ids(self.values@)[j] == id;
                assert(self.values@[j].id == id);
            }
        }
        assert forall|i: u64|
            {
                &&& #[trigger] self.pending_by_instance@.contains_key(i) <==> i != 0 && bound_ids(
                    self.values@,
                    i,
                ).len() > 0
                &&& self.pending_by_instance@.contains_key(i) ==> self.pending_by_instance@[i]@
                    == bound_ids(self.values@, i)
            } by {
            assert(before.pending_by_instance@.contains_key(i) <==> i != 0 && bound_ids(
                queue,
                i,
            ).len() > 0);
            if i != 0 {
                retirement_unbinds(queue, all, i);
            }
        }
    }

    /// Takes the reverse-index buckets of some connection generations and returns the
    /// request IDs in them.
    fn take_pending_ids(&mut self, instance_ids: &[u64]) -> (gathered: Vec<u64>)
        requires
            old(self).wf(),
        ensures
            final(self).values == old(self).values,
            final(self).active == old(self).active,
            final(self).next_id == old(self).next_id,
            final(self).pending_by_instance@ == old(self).pending_by_instance@.remove_keys(
                Set::new(|i: u64| instance_ids@.contains(i)),
            ),
            forall|x: u64|
                #![trigger gathered@.contains(x)]
                gathered@.contains(x) <==> exists|k: int|
                    0 <= k < old(self).values@.len() && (#[trigger] old(self).values@[k]).id == x
                        && owned(old(self).values@[k], instance_ids@),
    {
        proof {
            lemma_integer_keys();
        }
        let ghost queue = self.values@;
        let ghost index = self.pending_by_instance@;
        let mut gathered: Vec<u64> = Vec::new();
        let count: usize = instance_ids.len();
        let mut n: usize = 0;
        assert(index.remove_keys(Set::new(|i: u64| instance_ids@.take(0).contains(i))) =~= index);
        while n < count
            invariant
                n <= count == instance_ids@.len(),
                lawful_key::<u64>(),
                index_exact(queue, index),
                self.values@ == queue,
                self.values == old(self).values,
                self.active == old(self).active,
                self.next_id == old(self).next_id,
                self.pending_by_instance@ == index.remove_keys(
                    Set::new(|i: u64| instance_ids@.take(n as int).contains(i)),
                ),
                forall|x: u64|
                    #![trigger gathered@.contains(x)]
                    gathered@.contains(x) <==> exists|k: int|
                        0 <= k < queue.len() && (#[trigger] queue[k]).id == x && owned(
                            queue[k],
                            instance_ids@.take(n as int),
                        ),
            decreases count - n,
        {
            let id: u64 = instance_ids[n];
            let ghost seen = instance_ids@.take(n as int);
            let ghost more = instance_ids@.take(n + 1);
            let ghost gathered0 = gathered@;
            let ghost current = self.pending_by_instance@;
            let taken: Option<PendingIds> = self.pending_by_instance.remove(&id);
            if let Some(ids) = &taken {
                ids.extend(&mut gathered);
            }
            proof {
                assert(more =~= seen.push(id));
                assert forall|i: u64| more.contains(i) <==> seen.contains(i) || i == id by {
                    if seen.contains(i) {
                        let m = choose|m: int| 0 <= m < seen.len() && seen[m] == i;
                        assert(more[m] == i);
                    }
                    if i == id {
                        assert(more[n as int] == i);
                    }
                    if more.contains(i) && i != id {
                        let m = choose|m: int| 0 <= m < more.len() && more[m] == i;
                        assert(seen[m] == i);
                    }
                }
                assert(self.pending_by_instance@ =~= index.remove_keys(
                    Set::new(|i: u64| more.contains(i)),
                ));
                assert forall|x: u64|
                    #![trigger gathered@.contains(x)]
                    gathered@.contains(x) <==> exists|k: int|
                        0 <= k < queue.len() && (#[trigger] queue[k]).id == x && owned(
                            queue[k],
                            more,
                        ) by {
                    assert(index.contains_key(id) <==> id != 0 && bound_ids(queue, id).len() > 0);
                    lemma_bound_member(queue, id, x);
                    let fresh = taken is Some;
                    if fresh {
                        assert(gathered@ == gathered0 + bound_ids(queue, id));
                        assert(gathered@.contains(x) <==> gathered0.contains(x) || bound_ids(
                            queue,
                            id,
                        ).contains(x)) by {
                            lemma_add_contains(gathered0, bound_ids(queue, id), x);
                        }
                    } else {
                        assert(gathered@ == gathered0);
                        if id != 0 && !seen.contains(id) {
                            assert(!current.contains_key(id));
                            assert(!index.contains_key(id));
                        }
                    }
                    if gathered0.contains(x) {
                        let k = choose|k: int|
                            0 <= k < queue.len() && (#[trigger] queue[k]).id == x && owned(
                                queue[k],
                                seen,
                            );
                        assert(queue[k].id == x && owned(queue[k], more));
                    }
                    if bound_ids(queue, id).contains(x) && id != 0 {
                        let k = choose|k: int|
                            0 <= k < queue.len() && (#[trigger] queue[k]).id == x && bound_to(
                                queue[k],
                                id,
                            );
                        assert(queue[k].id == x && owned(queue[k], more));
                    }
                    if exists|k: int|
                        0 <= k < queue.len() && (#[trigger] queue[k]).id == x && owned(
                            queue[k],
                            more,
                        ) {
                        let k = choose|k: int|
                            0 <= k < queue.len() && (#[trigger] queue[k]).id == x && owned(
                                queue[k],
                                more,
                            );
                        if owned(queue[k], seen) {
                            assert(gathered0.contains(x));
                        } else {
                            assert(bound_to(queue[k], id));
                            assert(id != 0 && !seen.contains(id));
                            assert(bound_ids(queue, id).contains(x));
                            assert(index.contains_key(id));
                            assert(current.contains_key(id));
                        }
                    }
                }
            }
            n = n + 1;
        }
        assert(instance_ids@.take(count as int) =~= instance_ids@);
        gathered
    }
}

proof fn lemma_add_contains(a: Seq<u64>, b: Seq<u64>, x: u64)
    ensures
        (a + b).contains(x) <==> a.contains(x) || b.contains(x),
{
    if a.contains(x) {
        let i = choose|i: int| 0 <= i < a.len() && a[i] == x;
        assert((a + b)[i] == x);
    }
    if b.contains(x) {
        let i = choose|i: int| 0 <= i < b.len() && b[i] == x;
        assert((a + b)[a.len() + i] == x);
    }
    if (a + b).contains(x) {
        let i = choose|i: int| 0 <= i < (a + b).len() && (a + b)[i] == x;
        if i < a.len() {
            assert(a[i] == x);
        } else {
            assert(b[i - a.len()] == x);
        }
    }
}

proof fn lemma_bound_member<H>(queue: Seq<Request<H>>, i: u64, x: u64)
    ensures
        bound_ids(queue, i).contains(x) <==> exists|k: int|
            0 <= k < queue.len() && (#[trigger] queue[k]).id == x && bound_to(queue[k], i),
{
    let f = |e: Request<H>| bound_to(e, i);
    if bound_ids(queue, i).contains(x) {
        let j = choose|j: int| 0 <= j < bound_ids(queue, i).len() && bound_ids(queue, i)[j] == x;
        lemma_filter_source(queue, f, j);
        let k = choose|k: int| 0 <= k < queue.len() && queue[k] == queue.filter(f)[j] && f(queue[k]);
        assert(queue[k].id == x && bound_to(queue[k], i));
    }
    if exists|k: int| 0 <= k < queue.len() && (#[trigger] queue[k]).id == x && bound_to(queue[k], i) {
        let k = choose|k: int|
            0 <= k < queue.len() && (#[trigger] queue[k]).id == x && bound_to(queue[k], i);
        lemma_filter_target(queue, f, k);
        let j = choose|j: int| 0 <= j < queue.filter(f).len() && #[trigger] queue.filter(f)[j]
            == queue[k];
        assert(bound_ids(queue, i)[j] == x);
    }
}

/// A queued request has to complete before a TCP endpoint can close. Without an
/// instance only the reversed tuple of loopback-like traffic binds it to the endpoint.
pub open spec fn blocks_closure<H>(e: Request<H>, key: Key, instance_id: u64) -> bool {
    &&& spec_request_matches(key, instance_id, e.value.key, e.value.connection_instance_id)
    &&& key.spec_is_loopback_like() || instance_id != 0
}

/// A request whose verdict is being applied has to complete before a TCP endpoint can
/// close.
pub open spec fn applying_blocks_closure(
    identity: PendingIdentity,
    key: Key,
    instance_id: u64,
) -> bool {
    spec_request_matches(key, instance_id, identity.key, identity.connection_instance_id)
}

/// The request ID is queued, and a closing TCP endpoint waits for it.
pub open spec fn queued_awaited<H>(
    queue: Seq<Request<H>>,
    key: Key,
    instance_id: u64,
    id: u64,
) -> bool {
    exists|k: int|
        0 <= k < queue.len() && (#[trigger] queue[k]).spec_id() == id && blocks_closure(
            queue[k],
            key,
            instance_id,
        )
}

/// The request ID is among those that a closing TCP endpoint waits for.
pub open spec fn awaited<H>(cache: IdCache<H>, key: Key, instance_id: u64, id: u64) -> bool {
    ||| queued_awaited(cache.queue(), key, instance_id, id)
    ||| cache.in_progress().contains_key(id) && applying_blocks_closure(
        cache.in_progress()[id],
        key,
        instance_id,
    )
}

impl<H> IdCache<H> {
    /// Snapshots packet decisions already queued or being applied for one closing
    /// TCP endpoint. A loopback-like peer's packet-layer tuple is reversed, so
    /// include that side as well as requests bound directly to this connection
    /// generation.
    pub fn tcp_endpoint_request_ids(&self, key: &Key, instance_id: u64) -> (ids: Vec<u64>)
        requires
            self.wf(),
        ensures
            increasing(ids@),
            forall|id: u64| #[trigger] ids@.contains(id) <==> awaited(*self, *key, instance_id, id),
    {
        let mut ids: Vec<u64> = self.queued_closure_ids(key, instance_id);
        let ghost queued = ids@;
        self.append_applying(key, instance_id, &mut ids);
        let ghost found = ids@;
        let sorted_ids: Vec<u64> = sort_dedup(ids);
        proof {
            assert forall|id: u64| #[trigger] sorted_ids@.contains(id) <==> awaited(
                *self,
                *key,
                instance_id,
                id,
            ) by {
                assert(sorted_ids@.to_set().contains(id) <==> found.to_set().contains(id));
                assert(found.contains(id) <==> queued.contains(id) || (
                self.active@.contains_key(id) && applying_blocks_closure(
                    self.active@[id],
                    *key,
                    instance_id,
                )));
            }
        }
        sorted_ids
    }

    fn queued_closure_ids(&self, key: &Key, instance_id: u64) -> (ids: Vec<u64>)
        requires
            self.wf(),
        ensures
            forall|id: u64| #[trigger]
                ids@.contains(id) <==> queued_awaited(self.queue(), *key, instance_id, id),
    {
        proof {
            lemma_integer_keys();
        }
        let ghost queue = self.values@;
        let mut ids: Vec<u64> = Vec::new();
        if key.is_loopback_like() {
            // The server-side loopback-like request has a reversed tuple and a
            // distinct connection generation, so it still needs the complete
            // tuple scan.
            let count: usize = self.values.len();
            let mut n: usize = 0;
            while n < count
                invariant
                    n <= count == queue.len(),
                    queue == self.values@,
                    key.spec_is_loopback_like(),
                    forall|id: u64| #[trigger]
                        ids@.contains(id) <==> exists|k: int|
                            0 <= k < n && (#[trigger] queue[k]).id == id && blocks_closure(
                                queue[k],
                                *key,
                                instance_id,
                            ),
                decreases count - n,
            {
                let entry: &Request<H> = &self.values[n];
                let ghost before = ids@;
                let matches: bool = request_matches_tcp_endpoint(
                    key,
                    instance_id,
                    &entry.value.key,
                    entry.value.connection_instance_id,
                );
                if matches {
                    ids.push(entry.id);
                }
                proof {
                    assert forall|id: u64| #[trigger] ids@.contains(id) <==> exists|k: int|
                        0 <= k < n + 1 && (#[trigger] queue[k]).id == id && blocks_closure(
                            queue[k],
                            *key,
                            instance_id,
                        ) by {
                        if matches {
                            lemma_add_contains(before, seq![queue[n as int].id], id);
                            assert(ids@ =~= before + seq![queue[n as int].id]);
                            assert(seq![queue[n as int].id].contains(id) <==> id
                                == queue[n as int].id) by {
                                assert(seq![queue[n as int].id][0] == queue[n as int].id);
                            }
                        }
                        if before.contains(id) {
                            let k = choose|k: int|
                                0 <= k < n && (#[trigger] queue[k]).id == id && blocks_closure(
                                    queue[k],
                                    *key,
                                    instance_id,
                                );
                            assert(queue[k].id == id);
                        }
                    }
                }
                n = n + 1;
            }
            proof {
                assert forall|id: u64| #[trigger] ids@.contains(id) <==> queued_awaited(
                    queue,
                    *key,
                    instance_id,
                    id,
                ) by {
                    if ids@.contains(id) {
                        let k = choose|k: int|
                            0 <= k < n && (#[trigger] queue[k]).id == id && blocks_closure(
                                queue[k],
                                *key,
                                instance_id,
                            );
                        assert(queue[k].spec_id() == id);
                    }
                }
            }
        } else {
            proof {
                assert(self.pending_by_instance@.contains_key(instance_id) <==> instance_id != 0
                    && bound_ids(queue, instance_id).len() > 0);
            }
            if let Some(pending) = self.pending_by_instance.get(&instance_id) {
                pending.extend(&mut ids);
                assert(ids@ =~= bound_ids(queue, instance_id));
            }
            proof {
                assert forall|id: u64| #[trigger] ids@.contains(id) <==> queued_awaited(
                    queue,
                    *key,
                    instance_id,
                    id,
                ) by {
                    lemma_bound_member(queue, instance_id, id);
                    if ids@.contains(id) {
                        let k = choose|k: int|
                            0 <= k < queue.len() && (#[trigger] queue[k]).id == id && bound_to(
                                queue[k],
                                instance_id,
                            );
                        assert(blocks_closure(queue[k], *key, instance_id));
                        assert(queue[k].spec_id() == id);
                    }
                }
            }
        }
        ids
    }

    fn append_applying(&self, key: &Key, instance_id: u64, ids: &mut Vec<u64>)
        requires
            self.wf(),
        ensures
            forall|id: u64| #[trigger]
                final(ids)@.contains(id) <==> old(ids)@.contains(id) || (
                self.in_progress().contains_key(id) && applying_blocks_closure(
                    self.in_progress()[id],
                    *key,
                    instance_id,
                )),
    {
        proof {
            lemma_integer_keys();
        }
        let ghost start = ids@;
        let keys: Vec<u64> = sorted_keys(&self.active, copy_id);
        let count: usize = keys.len();
        let mut n: usize = 0;
        while n < count
            invariant
                n <= count == keys@.len(),
                lawful_key::<u64>(),
                keys@.to_set() == self.active@.dom(),
                forall|id: u64| #[trigger]
                    ids@.contains(id) <==> start.contains(id) || (keys@.take(n as int).contains(id)
                        && applying_blocks_closure(self.active@[id], *key, instance_id)),
            decreases count - n,
        {
            let id: u64 = keys[n];
            let ghost before = ids@;
            proof {
                assert(keys@.to_set().contains(keys@[n as int]));
                assert(keys@.take(n + 1) =~= keys@.take(n as int) + seq![id]);
            }
            let mut matches: bool = false;
            if let Some(identity) = self.active.get(&id) {
                matches = request_matches_tcp_endpoint(
                    key,
                    instance_id,
                    &identity.key,
                    identity.connection_instance_id,
                );
            }
            if matches {
                ids.push(id);
            }
            proof {
                assert forall|x: u64| #[trigger] ids@.contains(x) <==> start.contains(x) || (
                keys@.take(n + 1).contains(x) && applying_blocks_closure(
                    self.active@[x],
                    *key,
                    instance_id,
                )) by {
                    lemma_add_contains(keys@.take(n as int), seq![id], x);
                    lemma_add_contains(before, seq![id], x);
                    assert(seq![id].contains(x) <==> x == id) by {
                        assert(seq![id][0] == id);
                    }
                    if matches {
                        assert(ids@ =~= before + seq![id]);
                    }
                }
            }
            n = n + 1;
        }
        proof {
            assert(keys@.take(count as int) =~= keys@);
            assert forall|id: u64| self.active@.contains_key(id) <==> #[trigger] keys@.contains(
                id,
            ) by {
                assert(keys@.to_set().contains(id) <==> self.active@.dom().contains(id));
            }
        }
    }
}

pub(crate) fn copy_id(id: &u64) -> (copy: u64)
    ensures
        copy == *id,
{
    *id
}

/// A claimed request stays an entry of the cache until it is finished: claiming it takes it
/// out of the queue, where the others stay in order, and counts it as being applied, so that
/// the number of entries is what it was. It cannot be claimed twice, and finishing it leaves
/// what was being applied before. `before` and `after` are the cache around a claim.
pub proof fn claimed_request_is_counted_until_finished<H>(
    before: IdCache<H>,
    after: IdCache<H>,
    id: u64,
    pending: PendingPacket<H>,
)
    requires
        before.wf(),
        exists|k: int|
            0 <= k < before.queue().len() && #[trigger] before.queue()[k] == (Entry {
                value: pending,
                id,
            }),
        after.queue() == without(before.queue(), id),
        after.in_progress() == before.in_progress().insert(
            id,
            PendingIdentity {
                key: pending.key,
                connection_instance_id: pending.connection_instance_id,
            },
        ),
    ensures
        after.queue().len() + after.in_progress().dom().len() == before.queue().len()
            + before.in_progress().dom().len(),
        exists|k: int|
            #![trigger before.queue()[k]]
            0 <= k < before.queue().len() && before.queue()[k].spec_id() == id && after.queue()
                == before.queue().remove(k),
        !request_ids(after.queue()).contains(id),
        after.in_progress().remove(id) == before.in_progress(),
        after.in_progress().remove(id).dom().len() + 1 == after.in_progress().dom().len(),
{
    before.ids_are_unique();
    let queue = before.queue();
    let k = choose|k: int|
        0 <= k < queue.len() && #[trigger] queue[k] == (Entry { value: pending, id });
    lemma_without(queue, k);
    assert(request_ids(queue)[k] == id);
    assert(request_ids(queue).contains(id));
    assert(!before.in_progress().contains_key(id));
    assert(queue[k].spec_id() == id);
    let left = queue.remove(k);
    assert forall|j: int| 0 <= j < left.len() implies request_ids(left)[j] != id by {
        let from = if j < k {
            j
        } else {
            j + 1
        };
        assert(left[j] == queue[from]);
        assert(request_ids(queue)[from] == queue[from].id);
    }
    assert(after.in_progress().remove(id) =~= before.in_progress());
    assert(after.in_progress().dom() =~= before.in_progress().dom().insert(id));
}

} // verus!
