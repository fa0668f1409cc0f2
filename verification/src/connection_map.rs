//! Connections of one address family, indexed by tuple.

use crate::connection::{
    is_redirect_port, spec_is_redirect_port, AddressFamily, Connection, Direction,
};
use crate::ip::{IpAddress, IpProtocol};
use crate::ordered::{
    ascending, get_mut, lawful_key, lemma_integer_keys, lemma_ordered_keys, lemma_pair_key,
    lemma_precedes, ordered_keys, precedes, same_key, sorted_keys,
};
pub use crate::key::Key;
use std::collections::BTreeMap;
use vstd::prelude::*;

verus! {

/// How long an ended connection stays readable for packets already in flight.
pub const ENDED_GRACE_MS: u64 = 60_000;

/// How long an outbound connection without native lifecycle may stay silent.
pub const UNTRACKED_IDLE_TIMEOUT_MS: u64 = 60_000;

/// A remote endpoint as it is ordered within its group.
pub type EndpointKey<A> = (<A as AddressFamily>::RemoteAddressKey, u16);

/// A protocol rank and local port.
pub type GroupKey = (u16, u16);

/// The generations of each remote endpoint in one group, oldest first.
pub type GroupView<A> = Map<EndpointKey<A>, Seq<Connection<A>>>;

/// All groups of a connection map.
pub type MapView<A> = Map<GroupKey, GroupView<A>>;

/// Compact family-specific key for one remote endpoint.
///
/// IPv4 uses a `u32` address and IPv6 two `u64` words. The separate family maps
/// therefore avoid carrying a family discriminant through every comparison.
pub struct RemoteEndpoint<K> {
    pub address: K,
    pub port: u16,
}

impl<K> RemoteEndpoint<K> {
    /// The endpoint as a pair.
    pub open spec fn spec_pair(self) -> (K, u16) {
        (self.address, self.port)
    }

    /// The endpoint as a pair.
    pub fn into_pair(self) -> (pair: (K, u16))
        ensures
            pair == self.spec_pair(),
    {
        (self.address, self.port)
    }
}

/// The remote endpoint under which a connection is stored.
pub open spec fn endpoint_of<A: AddressFamily>(connection: Connection<A>) -> EndpointKey<A> {
    (connection.remote_address.spec_remote_key(), connection.remote_port)
}

/// The remote endpoint of a tuple, if it belongs to this address family.
pub open spec fn endpoint_of_key<A: AddressFamily>(key: Key) -> Option<EndpointKey<A>> {
    match A::spec_from_ip(key.remote_address) {
        Some(address) => Some((address.spec_remote_key(), key.remote_port)),
        None => None,
    }
}

/// The group of a protocol and local port.
pub open spec fn group_key(small: (IpProtocol, u16)) -> GroupKey {
    (small.0.spec_rank(), small.1)
}

/// Returns the remote endpoint under which a connection is stored.
pub fn remote_endpoint_from_connection<A: AddressFamily>(connection: &Connection<A>) -> (endpoint:
    RemoteEndpoint<A::RemoteAddressKey>)
    ensures
        endpoint.spec_pair() == endpoint_of(*connection),
{
    RemoteEndpoint {
        address: connection.remote_address.remote_key(),
        port: connection.remote_port,
    }
}

/// Returns the remote endpoint of a tuple, if it belongs to this address family.
pub fn remote_endpoint_from_key<A: AddressFamily>(key: &Key) -> (endpoint: Option<
    RemoteEndpoint<A::RemoteAddressKey>,
>)
    ensures
        match endpoint {
            Some(e) => endpoint_of_key::<A>(*key) == Some(e.spec_pair()),
            None => endpoint_of_key::<A>(*key) is None,
        },
{
    match A::from_ip(key.remote_address) {
        Some(address) => Some(
            RemoteEndpoint { address: address.remote_key(), port: key.remote_port },
        ),
        None => None,
    }
}

fn group_index(small: (IpProtocol, u16)) -> (key: GroupKey)
    ensures
        key == group_key(small),
{
    (small.0.rank(), small.1)
}

/// Which connections a lookup accepts.
#[derive(Clone, Copy)]
pub struct Query {
    pub key: Key,
    /// Match the tuple of the connection's redirect target instead of its own.
    pub redirect: bool,
    /// Accept ended connections only, instead of live ones only.
    pub ended: bool,
    /// Accept only the connection with this instance ID.
    pub instance_id: Option<u64>,
    /// Accept only connections without native lifecycle.
    pub untracked: bool,
}

impl Query {
    /// Live connections with exactly this tuple.
    pub open spec fn live(key: Key) -> Query {
        Query { key, redirect: false, ended: false, instance_id: None, untracked: false }
    }

    /// The live connection with exactly this tuple and instance ID.
    pub open spec fn instance(key: Key, instance_id: u64) -> Query {
        Query {
            key,
            redirect: false,
            ended: false,
            instance_id: Some(instance_id),
            untracked: false,
        }
    }

    /// The connection satisfies the query.
    pub open spec fn accepts<A: AddressFamily>(self, c: Connection<A>) -> bool {
        &&& if self.redirect {
            c.spec_redirect_equals(self.key)
        } else {
            c.spec_remote_equals(self.key)
        }
        &&& c.live() != self.ended
        &&& self.instance_id matches Some(id) ==> c.instance_id == id
        &&& self.untracked ==> !c.native_lifecycle
    }

    fn matches<A: AddressFamily>(&self, c: &Connection<A>) -> (r: bool)
        ensures
            r == self.accepts(*c),
    {
        let tuple_matches: bool = if self.redirect {
            c.redirect_equals(&self.key)
        } else {
            c.remote_equals(&self.key)
        };
        let instance_matches: bool = match self.instance_id {
            Some(id) => c.instance_id == id,
            None => true,
        };
        tuple_matches && c.has_ended() == self.ended && instance_matches && (!self.untracked
            || !c.native_lifecycle)
    }
}

/// Position `i` holds the first connection that the query accepts.
pub open spec fn is_first<A: AddressFamily>(s: Seq<Connection<A>>, q: Query, i: int) -> bool {
    &&& 0 <= i < s.len()
    &&& q.accepts(s[i])
    &&& forall|j: int| 0 <= j < i ==> !q.accepts(#[trigger] s[j])
}

/// Position of the first connection that the query accepts.
pub open spec fn first<A: AddressFamily>(s: Seq<Connection<A>>, q: Query) -> Option<int> {
    if exists|i: int| is_first(s, q, i) {
        Some(choose|i: int| is_first(s, q, i))
    } else {
        None
    }
}

/// Position `i` holds the last connection that the query accepts.
pub open spec fn is_last<A: AddressFamily>(s: Seq<Connection<A>>, q: Query, i: int) -> bool {
    &&& 0 <= i < s.len()
    &&& q.accepts(s[i])
    &&& forall|j: int| i < j < s.len() ==> !q.accepts(#[trigger] s[j])
}

/// Position of the last connection that the query accepts.
pub open spec fn last<A: AddressFamily>(s: Seq<Connection<A>>, q: Query) -> Option<int> {
    if exists|i: int| is_last(s, q, i) {
        Some(choose|i: int| is_last(s, q, i))
    } else {
        None
    }
}

/// `(endpoint, i)` is a place that holds a connection.
pub open spec fn occupied<A: AddressFamily>(g: GroupView<A>, endpoint: EndpointKey<A>, i: int) -> bool {
    g.contains_key(endpoint) && 0 <= i < g[endpoint].len()
}

/// The place holds the first connection of the group that the query accepts, in
/// endpoint order and oldest first within an endpoint.
pub open spec fn is_first_in_group<A: AddressFamily>(
    g: GroupView<A>,
    q: Query,
    place: (EndpointKey<A>, int),
) -> bool {
    &&& occupied(g, place.0, place.1)
    &&& q.accepts(g[place.0][place.1])
    &&& forall|e: EndpointKey<A>, i: int|
        occupied(g, e, i) && q.accepts(#[trigger] g[e][i]) ==> precedes(place.0, e) || (e
            == place.0 && place.1 <= i)
}

/// Place of the first connection of the group that the query accepts.
pub open spec fn first_in_group<A: AddressFamily>(g: GroupView<A>, q: Query) -> Option<
    (EndpointKey<A>, int),
> {
    if exists|place: (EndpointKey<A>, int)| is_first_in_group(g, q, place) {
        Some(choose|place: (EndpointKey<A>, int)| is_first_in_group(g, q, place))
    } else {
        None
    }
}

/// Every connection of the group is stored under its own endpoint.
pub open spec fn group_wf<A: AddressFamily>(g: GroupView<A>) -> bool {
    forall|e: EndpointKey<A>| #[trigger]
        g.contains_key(e) ==> g[e].len() > 0 && forall|i: int|
            0 <= i < g[e].len() ==> endpoint_of(#[trigger] g[e][i]) == e
}

/// One connection of the group replaced.
pub open spec fn group_set<A: AddressFamily>(
    g: GroupView<A>,
    place: (EndpointKey<A>, int),
    c: Connection<A>,
) -> GroupView<A> {
    g.insert(place.0, g[place.0].update(place.1, c))
}

/// A connection survives cleanup: it is live, or it ended at or after `cutoff`.
pub open spec fn retained<A>(c: Connection<A>, cutoff: u64) -> bool {
    c.end_time matches Some(time) ==> time >= cutoff
}

/// The group without the connections that cleanup removes.
pub open spec fn group_retained<A: AddressFamily>(g: GroupView<A>, cutoff: u64) -> GroupView<A> {
    Map::new(
        |e: EndpointKey<A>|
            g.contains_key(e) && g[e].filter(|c: Connection<A>| retained(c, cutoff)).len() > 0,
        |e: EndpointKey<A>| g[e].filter(|c: Connection<A>| retained(c, cutoff)),
    )
}

/// The group with one more, newest, generation.
pub open spec fn group_push<A: AddressFamily>(g: GroupView<A>, c: Connection<A>) -> GroupView<A> {
    let e = endpoint_of(c);
    g.insert(
        e,
        if g.contains_key(e) {
            g[e].push(c)
        } else {
            seq![c]
        },
    )
}

/// The sequences stored under `keys`, one after the other.
pub open spec fn concat<K, T>(keys: Seq<K>, m: Map<K, Seq<T>>) -> Seq<T>
    decreases keys.len(),
{
    if keys.len() == 0 {
        Seq::empty()
    } else {
        concat(keys.drop_last(), m) + m[keys.last()]
    }
}

/// All connections of a group, in endpoint order and oldest first within an endpoint.
pub open spec fn group_sequence<A: AddressFamily>(g: GroupView<A>) -> Seq<Connection<A>> {
    concat(ordered_keys(g.dom()), g)
}

/// All connections of a map, in group order and in sequence within a group.
pub open spec fn map_sequence<A: AddressFamily>(m: MapView<A>) -> Seq<Connection<A>> {
    concat(ordered_keys(m.dom()), m.map_values(|g: GroupView<A>| group_sequence(g)))
}

/// Which live connections a bulk operation ends.
#[derive(Clone, Copy)]
pub enum Selection {
    /// Those of one local endpoint.
    ///
    /// A missing address stands for all local addresses, and a missing process for
    /// all processes. A connection with PID 0 has an unknown owner and is eligible
    /// whatever the process.
    Endpoint {
        local_address: Option<IpAddress>,
        process_id: Option<u64>,
        untracked_only: bool,
    },
    /// Outbound ones without native lifecycle that were last active before `cutoff`.
    Idle { cutoff: u64 },
}

impl Selection {
    /// The connection is among those to end.
    pub open spec fn selects<A: AddressFamily>(self, c: Connection<A>) -> bool {
        match self {
            Selection::Endpoint { local_address, process_id, untracked_only } => {
                &&& c.live()
                &&& local_address matches Some(address) ==> c.local_address.spec_ip() == address
                &&& process_id matches Some(pid) ==> c.process_id == 0 || c.process_id == pid
                &&& untracked_only ==> !c.native_lifecycle
            },
            Selection::Idle { cutoff } => c.activity_bound() && c.last_accessed_time < cutoff,
        }
    }

    /// The connection after the bulk operation.
    pub open spec fn applied<A: AddressFamily>(self, c: Connection<A>, now: u64) -> Connection<A> {
        if self.selects(c) {
            c.spec_ended(now)
        } else {
            c
        }
    }

    /// The connections that end, as they are reported.
    pub open spec fn reported<A: AddressFamily>(
        self,
        s: Seq<Connection<A>>,
        now: u64,
    ) -> Seq<Connection<A>> {
        s.filter(|c: Connection<A>| self.selects(c)).map_values(
            |c: Connection<A>| c.spec_ended(now),
        )
    }

    fn matches<A: AddressFamily>(&self, c: &Connection<A>) -> (r: bool)
        ensures
            r == self.selects(*c),
    {
        match self {
            Selection::Endpoint { local_address, process_id, untracked_only } => {
                let address_matches: bool = match local_address {
                    Some(address) => c.local_address.ip() == *address,
                    None => true,
                };
                let process_matches: bool = match process_id {
                    Some(pid) => c.process_id == 0 || c.process_id == *pid,
                    None => true,
                };
                let lifecycle_matches: bool = !*untracked_only || !c.native_lifecycle;
                !c.has_ended() && address_matches && process_matches && lifecycle_matches
            },
            Selection::Idle { cutoff } => !c.has_ended() && !c.native_lifecycle && c.direction
                == Direction::Outbound && c.last_accessed_time < *cutoff,
        }
    }
}

/// The group after a bulk operation.
pub open spec fn group_applied<A: AddressFamily>(
    g: GroupView<A>,
    selection: Selection,
    now: u64,
) -> GroupView<A> {
    g.map_values(
        |s: Seq<Connection<A>>| s.map_values(|c: Connection<A>| selection.applied(c, now)),
    )
}

/// A count as far as a machine word holds it.
pub open spec fn capped(n: int) -> int {
    if n <= usize::MAX {
        n
    } else {
        usize::MAX as int
    }
}

/// A live UDP connection.
pub open spec fn live_udp<A>(c: Connection<A>) -> bool {
    c.protocol is Udp && c.end_time is None
}

/// A live connection without native lifecycle.
pub open spec fn live_untracked<A>(c: Connection<A>) -> bool {
    c.end_time is None && !c.native_lifecycle
}

/// What a walk reports grows by what the next stretch reports.
proof fn lemma_reported_add<A: AddressFamily>(
    selection: Selection,
    a: Seq<Connection<A>>,
    b: Seq<Connection<A>>,
    now: u64,
)
    ensures
        selection.reported(a + b, now) == selection.reported(a, now) + selection.reported(b, now),
{
    let p = |c: Connection<A>| selection.selects(c);
    Seq::filter_distributes_over_add(a, b, p);
    assert(selection.reported(a + b, now) =~= selection.reported(a, now) + selection.reported(
        b,
        now,
    ));
}

proof fn lemma_concat_step<K, T>(keys: Seq<K>, m: Map<K, Seq<T>>, k: int)
    requires
        0 <= k < keys.len(),
    ensures
        concat(keys.take(k + 1), m) == concat(keys.take(k), m) + m[keys[k]],
{
    assert(keys.take(k + 1).drop_last() =~= keys.take(k));
}

/// What is stored under one of the keys stands in their concatenation.
pub proof fn lemma_concat_holds<K, T>(keys: Seq<K>, m: Map<K, Seq<T>>, i: int, n: int) -> (j: int)
    requires
        0 <= i < keys.len(),
        0 <= n < m[keys[i]].len(),
    ensures
        0 <= j < concat(keys, m).len(),
        concat(keys, m)[j] == m[keys[i]][n],
    decreases keys.len(),
{
    let rest = concat(keys.drop_last(), m);
    if i == keys.len() - 1 {
        rest.len() + n
    } else {
        assert(keys.drop_last()[i] == keys[i]);
        lemma_concat_holds(keys.drop_last(), m, i, n)
    }
}

proof fn lemma_first<A: AddressFamily>(s: Seq<Connection<A>>, q: Query, i: int)
    requires
        is_first(s, q, i),
    ensures
        first(s, q) == Some(i),
{
    let k = choose|k: int| is_first(s, q, k);
    assert(is_first(s, q, k));
    if k < i {
        assert(!q.accepts(s[k]));
    }
    if i < k {
        assert(!q.accepts(s[i]));
    }
}

proof fn lemma_last<A: AddressFamily>(s: Seq<Connection<A>>, q: Query, i: int)
    requires
        is_last(s, q, i),
    ensures
        last(s, q) == Some(i),
{
    let k = choose|k: int| is_last(s, q, k);
    assert(is_last(s, q, k));
    if k < i {
        assert(!q.accepts(s[i]));
    }
    if i < k {
        assert(!q.accepts(s[k]));
    }
}

proof fn lemma_first_in_group<A: AddressFamily>(
    g: GroupView<A>,
    q: Query,
    place: (EndpointKey<A>, int),
)
    requires
        is_first_in_group(g, q, place),
    ensures
        first_in_group(g, q) == Some(place),
{
    A::lemma_family();
    lemma_precedes::<EndpointKey<A>>();
    let other = choose|other: (EndpointKey<A>, int)| is_first_in_group(g, q, other);
    assert(is_first_in_group(g, q, other));
    assert(q.accepts(g[place.0][place.1]));
    assert(q.accepts(g[other.0][other.1]));
}

proof fn lemma_group_set_wf<A: AddressFamily>(
    g: GroupView<A>,
    place: (EndpointKey<A>, int),
    c: Connection<A>,
)
    requires
        group_wf(g),
        occupied(g, place.0, place.1),
    ensures
        c.spec_key() == g[place.0][place.1].spec_key() ==> group_wf(group_set(g, place, c)),
{
    A::lemma_family();
}

/// Usually one connection generation, with allocation reserved for tuple reuse.
///
/// Ended generations remain addressable for late packets for one minute. Keeping
/// the common case inline avoids one allocation per active remote endpoint. A small
/// vector is created only when the same remote endpoint has retained generations or
/// is shared by connections on different local addresses.
pub enum ConnectionBucket<T> {
    One(T),
    Multiple(Vec<T>),
}

impl<T> ConnectionBucket<T> {
    /// The generations, oldest first.
    pub open spec fn view(&self) -> Seq<T> {
        match self {
            ConnectionBucket::One(connection) => seq![*connection],
            ConnectionBucket::Multiple(connections) => connections@,
        }
    }

    /// A vector is used for two or more generations only.
    pub open spec fn wf(&self) -> bool {
        self is Multiple ==> self@.len() >= 2
    }

    /// Number of generations.
    pub fn len(&self) -> (n: usize)
        ensures
            n == self@.len(),
    {
        match self {
            ConnectionBucket::One(_) => 1,
            ConnectionBucket::Multiple(connections) => connections.len(),
        }
    }

    /// The generation at a position.
    pub fn at(&self, i: usize) -> (connection: &T)
        requires
            i < self@.len(),
        ensures
            *connection == self@[i as int],
    {
        match self {
            ConnectionBucket::One(connection) => connection,
            ConnectionBucket::Multiple(connections) => &connections[i],
        }
    }

    /// The generation at a position, for mutation.
    pub fn at_mut(&mut self, i: usize) -> (connection: &mut T)
        requires
            i < old(self)@.len(),
        ensures
            *connection == old(self)@[i as int],
            final(self)@ == old(self)@.update(i as int, *final(connection)),
            final(self).wf() == old(self).wf(),
    {
        match self {
            ConnectionBucket::One(connection) => connection,
            ConnectionBucket::Multiple(connections) => &mut connections[i],
        }
    }

    /// Appends the newest generation.
    pub fn push(&mut self, connection: T)
        requires
            old(self).wf(),
        ensures
            final(self)@ == old(self)@.push(connection),
            final(self).wf(),
    {
        match self {
            ConnectionBucket::One(_) => {
                let mut previous: ConnectionBucket<T> = ConnectionBucket::Multiple(Vec::new());
                core::mem::swap(self, &mut previous);
                if let ConnectionBucket::One(first) = previous {
                    let mut connections: Vec<T> = Vec::with_capacity(2);
                    connections.push(first);
                    connections.push(connection);
                    *self = ConnectionBucket::Multiple(connections);
                }
            },
            ConnectionBucket::Multiple(connections) => connections.push(connection),
        }
    }
}

impl<A: AddressFamily> ConnectionBucket<Connection<A>> {
    /// Returns the remote endpoint shared by every generation in this bucket.
    ///
    /// A bucket only ever groups connections that compare equal as endpoints, so
    /// the first generation carries the key. Deriving it here keeps the inline
    /// `RemoteConnections::One` representation from storing a second copy.
    pub fn endpoint(&self) -> (endpoint: EndpointKey<A>)
        requires
            self@.len() > 0,
        ensures
            endpoint == endpoint_of(self@[0]),
    {
        remote_endpoint_from_connection(self.at(0)).into_pair()
    }

    /// Position of the first generation that the query accepts.
    pub fn find(&self, q: &Query) -> (position: Option<usize>)
        ensures
            match position {
                Some(i) => is_first(self@, *q, i as int) && first(self@, *q) == Some(i as int),
                None => first(self@, *q) is None && forall|i: int|
                    0 <= i < self@.len() ==> !q.accepts(#[trigger] self@[i]),
            },
    {
        let count: usize = self.len();
        let mut i: usize = 0;
        while i < count
            invariant
                i <= count == self@.len(),
                forall|j: int| 0 <= j < i ==> !q.accepts(#[trigger] self@[j]),
            decreases count - i,
        {
            if q.matches(self.at(i)) {
                proof {
                    lemma_first(self@, *q, i as int);
                }
                return Some(i);
            }
            i = i + 1;
        }
        None
    }

    /// Position of the last generation that the query accepts.
    pub fn find_last(&self, q: &Query) -> (position: Option<usize>)
        ensures
            match position {
                Some(i) => is_last(self@, *q, i as int) && last(self@, *q) == Some(i as int),
                None => last(self@, *q) is None && forall|i: int|
                    0 <= i < self@.len() ==> !q.accepts(#[trigger] self@[i]),
            },
    {
        let mut i: usize = self.len();
        while i > 0
            invariant
                i <= self@.len(),
                forall|j: int| i <= j < self@.len() ==> !q.accepts(#[trigger] self@[j]),
            decreases i,
        {
            i = i - 1;
            if q.matches(self.at(i)) {
                proof {
                    lemma_last(self@, *q, i as int);
                }
                return Some(i);
            }
        }
        None
    }

    /// Drops the generations that ended before `cutoff`. When none would remain, returns
    /// false and leaves the bucket to its owner.
    pub fn retain(&mut self, cutoff: u64) -> (remains: bool)
        requires
            old(self).wf(),
        ensures
            remains == (old(self)@.filter(|c: Connection<A>| retained(c, cutoff)).len() > 0),
            remains ==> final(self)@ == old(self)@.filter(|c: Connection<A>| retained(c, cutoff))
                && final(self).wf(),
            !remains ==> *final(self) == *old(self),
    {
        let ghost keep = |c: Connection<A>| retained(c, cutoff);
        let ghost all = self@;
        let count: usize = self.len();
        let mut kept: Vec<Connection<A>> = Vec::new();
        let mut i: usize = 0;
        while i < count
            invariant
                i <= count == all.len(),
                *self == *old(self),
                self@ == all,
                keep == (|c: Connection<A>| retained(c, cutoff)),
                kept@ == all.take(i as int).filter(keep),
            decreases count - i,
        {
            let connection: Connection<A> = *self.at(i);
            proof {
                assert(all.take(i + 1) =~= all.take(i as int).push(all[i as int]));
                lemma_filter_push(all.take(i as int), keep, all[i as int]);
            }
            let keeps: bool = match connection.end_time {
                Some(time) => time >= cutoff,
                None => true,
            };
            if keeps {
                kept.push(connection);
            }
            i = i + 1;
        }
        assert(all.take(count as int) =~= all);
        let remaining: usize = kept.len();
        if remaining == 0 {
            return false;
        }
        if remaining == 1 {
            *self = ConnectionBucket::One(kept[0]);
            assert(self@ =~= kept@);
        } else {
            *self = ConnectionBucket::Multiple(kept);
        }
        true
    }
}

/// Filtering commutes with appending one element.
pub proof fn lemma_filter_push<T>(s: Seq<T>, p: spec_fn(T) -> bool, x: T)
    ensures
        s.push(x).filter(p) == if p(x) {
            s.filter(p).push(x)
        } else {
            s.filter(p)
        },
{
    reveal(Seq::filter);
    assert(s.push(x).drop_last() =~= s);
}

/// A remote endpoint map is allocated only after one local endpoint has more
/// than one distinct remote endpoint. Most ephemeral connections have one remote
/// endpoint per `(protocol, local port)` group, so keeping that case inline avoids
/// a B-tree allocation for every such group.
pub enum RemoteConnections<A: AddressFamily> {
    Empty,
    One(ConnectionBucket<Connection<A>>),
    Many(BTreeMap<EndpointKey<A>, ConnectionBucket<Connection<A>>>),
}

impl<A: AddressFamily> RemoteConnections<A> {
    /// The generations of each remote endpoint.
    pub open spec fn view(&self) -> GroupView<A> {
        match self {
            RemoteConnections::Empty => Map::empty(),
            RemoteConnections::One(bucket) => map![endpoint_of(bucket@[0]) => bucket@],
            RemoteConnections::Many(map) => map@.map_values(
                |bucket: ConnectionBucket<Connection<A>>| bucket@,
            ),
        }
    }

    /// Buckets are non-empty and stored under their endpoint; a tree holds at least
    /// two of them.
    pub open spec fn wf(&self) -> bool {
        &&& group_wf(self@)
        &&& match self {
            RemoteConnections::Empty => true,
            RemoteConnections::One(bucket) => bucket.wf() && bucket@.len() > 0,
            RemoteConnections::Many(map) => map@.dom().len() >= 2 && forall|e: EndpointKey<A>|
                #[trigger] map@.contains_key(e) ==> map@[e].wf(),
        }
    }

    fn empty() -> (r: Self)
        ensures
            r.wf(),
            r is Empty,
            r@ == GroupView::<A>::empty(),
    {
        RemoteConnections::Empty
    }

    fn is_empty(&self) -> (r: bool)
        ensures
            r == (*self is Empty),
    {
        match self {
            RemoteConnections::Empty => true,
            _ => false,
        }
    }

    /// Number of distinct remote endpoints.
    pub fn endpoint_count(&self) -> (n: usize)
        requires
            self.wf(),
        ensures
            n == self@.dom().len(),
    {
        proof {
            A::lemma_family();
        }
        match self {
            RemoteConnections::Empty => {
                assert(self@.dom() =~= Set::empty());
                0
            },
            RemoteConnections::One(bucket) => {
                assert(self@.dom() =~= Set::empty().insert(endpoint_of(bucket@[0])));
                1
            },
            RemoteConnections::Many(map) => {
                assert(self@.dom() =~= map@.dom());
                map.len()
            },
        }
    }

    /// The bucket of one remote endpoint.
    pub fn get(&self, endpoint: &EndpointKey<A>) -> (bucket: Option<
        &ConnectionBucket<Connection<A>>,
    >)
        requires
            self.wf(),
        ensures
            match bucket {
                Some(b) => self@.contains_key(*endpoint) && b@ == self@[*endpoint] && b.wf(),
                None => !self@.contains_key(*endpoint),
            },
    {
        proof {
            A::lemma_family();
        }
        match self {
            RemoteConnections::Empty => None,
            RemoteConnections::One(bucket) => {
                if same_key(&bucket.endpoint(), endpoint) {
                    Some(bucket)
                } else {
                    None
                }
            },
            RemoteConnections::Many(map) => map.get(endpoint),
        }
    }

    /// One connection, for mutation. Its tuple has to stay as it is.
    fn at_mut(&mut self, endpoint: &EndpointKey<A>, i: usize) -> (connection: Option<
        &mut Connection<A>,
    >)
        requires
            old(self).wf(),
            occupied(old(self)@, *endpoint, i as int),
        ensures
            connection is Some,
            connection matches Some(c) ==> *c == old(self)@[*endpoint][i as int],
            connection matches Some(c) ==> (final(c).spec_key() == c.spec_key() ==> final(self)@
                =~= group_set(old(self)@, (*endpoint, i as int), *final(c))),
            connection matches Some(c) ==> (final(c).spec_key() == c.spec_key()
                ==> final(self).wf() && !((*final(self)) is Empty)),
    {
        proof {
            A::lemma_family();
        }
        match self {
            RemoteConnections::Empty => None,
            RemoteConnections::One(bucket) => {
                let connection = bucket.at_mut(i);
                proof {
                    lemma_group_set_wf(old(self)@, (*endpoint, i as int), *final(connection));
                }
                Some(connection)
            },
            RemoteConnections::Many(map) => {
                let ghost dom = map@.dom();
                match get_mut(map, endpoint) {
                    Some(bucket) => {
                        let connection = bucket.at_mut(i);
                        proof {
                            assert(dom.insert(*endpoint) =~= dom);
                            lemma_group_set_wf(
                                old(self)@,
                                (*endpoint, i as int),
                                *final(connection),
                            );
                        }
                        Some(connection)
                    },
                    None => None,
                }
            },
        }
    }
}

impl<A: AddressFamily> ConnectionBucket<Connection<A>> {
    /// Ends the selected generations and appends copies of them to `out`.
    fn end_selected(
        &mut self,
        selection: &Selection,
        now: u64,
        out: &mut Vec<Connection<A>>,
    )
        ensures
            final(self)@ == old(self)@.map_values(
                |c: Connection<A>| selection.applied(c, now),
            ),
            final(self).wf() == old(self).wf(),
            final(out)@ == old(out)@ + selection.reported(old(self)@, now),
    {
        let ghost all = self@;
        let ghost sent = out@;
        let count: usize = self.len();
        let mut i: usize = 0;
        while i < count
            invariant
                i <= count == all.len(),
                self@.len() == all.len(),
                self.wf() == old(self).wf(),
                forall|j: int|
                    0 <= j < i ==> #[trigger] self@[j] == selection.applied(all[j], now),
                forall|j: int| i <= j < count ==> #[trigger] self@[j] == all[j],
                out@ == sent + selection.reported(all.take(i as int), now),
            decreases count - i,
        {
            let ghost next = all[i as int];
            proof {
                assert(all.take(i + 1) =~= all.take(i as int) + seq![next]);
                lemma_reported_add(*selection, all.take(i as int), seq![next], now);
                reveal_with_fuel(Seq::filter, 2);
            }
            if selection.matches(self.at(i)) {
                let connection = self.at_mut(i);
                connection.end(now);
                let copy: Connection<A> = *connection;
                out.push(copy);
                assert(selection.reported(seq![next], now) =~= seq![copy]);
            } else {
                assert(selection.reported(seq![next], now) =~= Seq::empty());
            }
            i = i + 1;
        }
        assert(all.take(count as int) =~= all);
    }
}

impl<A: AddressFamily> RemoteConnections<A> {
    fn copy_endpoint(key: &EndpointKey<A>) -> (copy: EndpointKey<A>)
        ensures
            copy == *key,
    {
        (A::copy_key(&key.0), key.1)
    }

    /// The remote endpoints in ascending order.
    fn endpoints(&self) -> (keys: Vec<EndpointKey<A>>)
        requires
            self.wf(),
        ensures
            keys@ == ordered_keys(self@.dom()),
            ascending(keys@),
            keys@.no_duplicates(),
            keys@.to_set() == self@.dom(),
    {
        proof {
            A::lemma_family();
        }
        match self {
            RemoteConnections::Empty => {
                let keys: Vec<EndpointKey<A>> = Vec::new();
                proof {
                    lemma_ordered_keys(keys@);
                    assert(keys@.to_set() =~= self@.dom());
                }
                keys
            },
            RemoteConnections::One(bucket) => {
                let mut keys: Vec<EndpointKey<A>> = Vec::with_capacity(1);
                keys.push(bucket.endpoint());
                proof {
                    lemma_ordered_keys(keys@);
                    assert(keys@[0] == endpoint_of(bucket@[0]));
                    assert(keys@.to_set() =~= self@.dom());
                }
                keys
            },
            RemoteConnections::Many(map) => {
                assert(self@.dom() =~= map@.dom());
                sorted_keys(map, Self::copy_endpoint)
            },
        }
    }

    /// Place of the first connection that the query accepts.
    fn find(&self, q: &Query) -> (place: Option<(EndpointKey<A>, usize)>)
        requires
            self.wf(),
        ensures
            match place {
                Some((e, i)) => is_first_in_group(self@, *q, (e, i as int)) && first_in_group(
                    self@,
                    *q,
                ) == Some((e, i as int)),
                None => first_in_group(self@, *q) is None && forall|e: EndpointKey<A>, i: int|
                    occupied(self@, e, i) ==> !q.accepts(#[trigger] self@[e][i]),
            },
    {
        let mut keys: Vec<EndpointKey<A>> = self.endpoints();
        let ghost all = keys@;
        let count: usize = keys.len();
        let mut k: usize = 0;
        while k < count
            invariant
                k <= count == keys@.len(),
                keys@ == all,
                ascending(all),
                all.to_set() == self@.dom(),
                self.wf(),
                forall|n: int, i: int|
                    0 <= n < k && 0 <= i < self@[all[n]].len() ==> !q.accepts(
                        #[trigger] self@[all[n]][i],
                    ),
            decreases count - k,
        {
            proof {
                assert(all.to_set().contains(all[k as int]));
            }
            if let Some(bucket) = self.get(&keys[k]) {
                if let Some(i) = bucket.find(q) {
                    let endpoint: EndpointKey<A> = keys.swap_remove(k);
                    proof {
                        let place = (endpoint, i as int);
                        assert forall|e: EndpointKey<A>, j: int|
                            occupied(self@, e, j) && q.accepts(#[trigger] self@[e][j]) implies precedes(
                            endpoint,
                            e,
                        ) || (e == endpoint && i <= j) by {
                            assert(all.to_set().contains(e));
                            let n = choose|n: int| 0 <= n < all.len() && all[n] == e;
                            assert(!(n < k));
                        }
                        lemma_first_in_group(self@, *q, place);
                    }
                    return Some((endpoint, i));
                }
            }
            k = k + 1;
        }
        proof {
            assert forall|e: EndpointKey<A>, i: int| occupied(self@, e, i) implies !q.accepts(
                #[trigger] self@[e][i],
            ) by {
                assert(all.to_set().contains(e));
                let n = choose|n: int| 0 <= n < all.len() && all[n] == e;
            }
        }
        None
    }

    fn insert_into_map(
        map: &mut BTreeMap<EndpointKey<A>, ConnectionBucket<Connection<A>>>,
        endpoint: EndpointKey<A>,
        connection: Connection<A>,
    )
        requires
            lawful_key::<EndpointKey<A>>(),
            forall|e: EndpointKey<A>| #[trigger] old(map)@.contains_key(e) ==> old(map)@[e].wf(),
        ensures
            final(map)@.dom() == old(map)@.dom().insert(endpoint),
            forall|e: EndpointKey<A>| #[trigger]
                final(map)@.contains_key(e) ==> final(map)@[e].wf(),
            final(map)@[endpoint]@ == if old(map)@.contains_key(endpoint) {
                old(map)@[endpoint]@.push(connection)
            } else {
                seq![connection]
            },
            forall|e: EndpointKey<A>| #[trigger]
                old(map)@.contains_key(e) && e != endpoint ==> final(map)@[e] == old(map)@[e],
    {
        match get_mut(map, &endpoint) {
            Some(bucket) => {
                bucket.push(connection);
                return;
            },
            None => {},
        }
        map.insert(endpoint, ConnectionBucket::One(connection));
    }
}

impl<A: AddressFamily> RemoteConnections<A> {
    /// Stores the newest generation of a remote endpoint.
    fn insert(&mut self, connection: Connection<A>)
        requires
            old(self).wf(),
        ensures
            final(self).wf(),
            !((*final(self)) is Empty),
            final(self)@ == group_push(old(self)@, connection),
    {
        proof {
            A::lemma_family();
        }
        let endpoint: EndpointKey<A> = remote_endpoint_from_connection(&connection).into_pair();
        // Keep tuple-reuse generations in the existing inline bucket. Only a
        // second distinct remote endpoint needs the map representation.
        if let RemoteConnections::One(bucket) = self {
            if same_key(&bucket.endpoint(), &endpoint) {
                bucket.push(connection);
                assert(self@ =~= group_push(old(self)@, connection));
                return;
            }
        }
        let mut current: RemoteConnections<A> = RemoteConnections::Empty;
        core::mem::swap(self, &mut current);
        match current {
            RemoteConnections::Empty => {
                *self = RemoteConnections::One(ConnectionBucket::One(connection));
                assert(self@ =~= group_push(old(self)@, connection));
            },
            RemoteConnections::One(stored) => {
                let ghost first = stored@;
                let mut map: BTreeMap<EndpointKey<A>, ConnectionBucket<Connection<A>>> =
                    BTreeMap::new();
                let stored_endpoint: EndpointKey<A> = stored.endpoint();
                let ghost e0 = stored_endpoint;
                map.insert(stored_endpoint, stored);
                Self::insert_into_map(&mut map, endpoint, connection);
                proof {
                    assert(map@.dom() =~= Set::empty().insert(e0).insert(endpoint_of(connection)));
                }
                *self = RemoteConnections::Many(map);
                assert(self@ =~= group_push(old(self)@, connection));
            },
            RemoteConnections::Many(map) => {
                let mut map = map;
                let ghost before = map@.dom();
                Self::insert_into_map(&mut map, endpoint, connection);
                proof {
                    vstd::set_lib::lemma_len_subset(before, map@.dom());
                }
                *self = RemoteConnections::Many(map);
                assert(self@ =~= group_push(old(self)@, connection));
            },
        }
    }

    /// Ends the selected connections and appends copies of them to `out`.
    fn end_selected(&mut self, selection: &Selection, now: u64, out: &mut Vec<Connection<A>>)
        requires
            old(self).wf(),
        ensures
            final(self).wf(),
            ((*final(self)) is Empty) == ((*old(self)) is Empty),
            final(self)@ == group_applied(old(self)@, *selection, now),
            final(out)@ == old(out)@ + selection.reported(group_sequence(old(self)@), now),
    {
        proof {
            A::lemma_family();
        }
        let ghost g = self@;
        let ghost sent = out@;
        let keys: Vec<EndpointKey<A>> = self.endpoints();
        match self {
            RemoteConnections::Empty => {
                proof {
                    if keys@.len() > 0 {
                        assert(keys@.to_set().contains(keys@[0]));
                    }
                    reveal(Seq::filter);
                    assert(group_sequence(g) =~= Seq::empty());
                    assert(selection.reported(group_sequence(g), now) =~= Seq::empty());
                }
                assert(self@ =~= group_applied(g, *selection, now));
            },
            RemoteConnections::One(bucket) => {
                proof {
                    assert(keys@.to_set().contains(endpoint_of(bucket@[0])));
                    assert(keys@.to_set().contains(keys@[0]));
                    assert(keys@.len() == 1) by {
                        if keys@.len() > 1 {
                            assert(keys@.to_set().contains(keys@[1]));
                        }
                    }
                    lemma_concat_step(keys@, g, 0);
                    assert(keys@.take(1) =~= keys@);
                    assert(concat(keys@.take(0), g) =~= Seq::empty());
                    assert(group_sequence(g) =~= bucket@);
                }
                bucket.end_selected(selection, now, out);
                assert(self@ =~= group_applied(g, *selection, now));
            },
            RemoteConnections::Many(map) => {
                let ghost before = map@;
                let count: usize = keys.len();
                let mut k: usize = 0;
                while k < count
                    invariant
                        k <= count == keys@.len(),
                        lawful_key::<EndpointKey<A>>(),
                        keys@.no_duplicates(),
                        keys@.to_set() == before.dom(),
                        map@.dom() == before.dom(),
                        g == before.map_values(|b: ConnectionBucket<Connection<A>>| b@),
                        forall|e: EndpointKey<A>| #[trigger]
                            before.contains_key(e) ==> before[e].wf(),
                        forall|e: EndpointKey<A>| #[trigger]
                            map@.contains_key(e) ==> map@[e].wf(),
                        forall|n: int|
                            0 <= n < k ==> (#[trigger] map@[keys@[n]])@
                                == before[keys@[n]]@.map_values(
                                |c: Connection<A>| selection.applied(c, now),
                            ),
                        forall|n: int|
                            k <= n < count ==> #[trigger] map@[keys@[n]] == before[keys@[n]],
                        out@ == sent + selection.reported(concat(keys@.take(k as int), g), now),
                    decreases count - k,
                {
                    proof {
                        assert(keys@.to_set().contains(keys@[k as int]));
                        lemma_concat_step(keys@, g, k as int);
                        lemma_reported_add(
                            *selection,
                            concat(keys@.take(k as int), g),
                            g[keys@[k as int]],
                            now,
                        );
                    }
                    if let Some(bucket) = get_mut(map, &keys[k]) {
                        bucket.end_selected(selection, now, out);
                    }
                    proof {
                        assert(map@.dom() =~= before.dom());
                        assert(out@ =~= sent + selection.reported(
                            concat(keys@.take(k + 1), g),
                            now,
                        ));
                    }
                    k = k + 1;
                }
                proof {
                    assert(keys@.take(count as int) =~= keys@);
                    assert forall|e: EndpointKey<A>| #[trigger]
                        before.contains_key(e) implies map@[e]@ == before[e]@.map_values(
                        |c: Connection<A>| selection.applied(c, now),
                    ) by {
                        assert(keys@.to_set().contains(e));
                        let n = choose|n: int| 0 <= n && n < keys@.len() && keys@[n] == e;
                        assert(map@[keys@[n]]@ == before[keys@[n]]@.map_values(
                            |c: Connection<A>| selection.applied(c, now),
                        ));
                    }
                }
                assert(self@ =~= group_applied(g, *selection, now));
            },
        }
        proof {
            lemma_group_applied_wf(g, *selection, now);
        }
    }
}

proof fn lemma_group_applied_wf<A: AddressFamily>(
    g: GroupView<A>,
    selection: Selection,
    now: u64,
)
    requires
        group_wf(g),
    ensures
        group_wf(group_applied(g, selection, now)),
{
    let h = group_applied(g, selection, now);
    assert forall|e: EndpointKey<A>| #[trigger] h.contains_key(e) implies h[e].len() > 0 && forall|
        i: int,
    |
        0 <= i < h[e].len() ==> endpoint_of(#[trigger] h[e][i]) == e by {
        assert(g.contains_key(e));
        assert forall|i: int| 0 <= i < h[e].len() implies endpoint_of(#[trigger] h[e][i]) == e by {
            assert(endpoint_of(g[e][i]) == e);
        }
    }
}

impl<A: AddressFamily> RemoteConnections<A> {
    /// Drops the connections that ended before `cutoff`, compacting the
    /// representation to what remains.
    fn retain(&mut self, cutoff: u64)
        requires
            old(self).wf(),
        ensures
            final(self).wf(),
            final(self)@ == group_retained(old(self)@, cutoff),
    {
        proof {
            A::lemma_family();
        }
        let ghost g = self@;
        let ghost keep = |c: Connection<A>| retained(c, cutoff);
        let mut current: RemoteConnections<A> = RemoteConnections::Empty;
        core::mem::swap(self, &mut current);
        match current {
            RemoteConnections::Empty => {
                assert(self@ =~= group_retained(g, cutoff));
            },
            RemoteConnections::One(bucket) => {
                let mut bucket = bucket;
                let ghost all = bucket@;
                if bucket.retain(cutoff) {
                    proof {
                        assert(g.contains_key(endpoint_of(all[0])));
                        lemma_filter_endpoint(all, keep, endpoint_of(all[0]));
                    }
                    *self = RemoteConnections::One(bucket);
                }
                assert(self@ =~= group_retained(g, cutoff));
            },
            RemoteConnections::Many(map) => {
                let mut map = map;
                let ghost before = map@;
                let keys: Vec<EndpointKey<A>> = sorted_keys(&map, Self::copy_endpoint);
                let count: usize = keys.len();
                let mut k: usize = 0;
                while k < count
                    invariant
                        k <= count == keys@.len(),
                        lawful_key::<EndpointKey<A>>(),
                        keys@.no_duplicates(),
                        keys@.to_set() == before.dom(),
                        keep == (|c: Connection<A>| retained(c, cutoff)),
                        map@.dom().subset_of(before.dom()),
                        forall|e: EndpointKey<A>| #[trigger]
                            map@.contains_key(e) ==> map@[e].wf(),
                        forall|n: int|
                            0 <= n < k ==> (#[trigger] map@.contains_key(keys@[n]) == (
                            before[keys@[n]]@.filter(keep).len() > 0)),
                        forall|n: int|
                            0 <= n < k && map@.contains_key(keys@[n]) ==> (
                            #[trigger] map@[keys@[n]])@ == before[keys@[n]]@.filter(keep),
                        forall|n: int|
                            k <= n < count ==> #[trigger] map@.contains_key(keys@[n])
                                && map@[keys@[n]] == before[keys@[n]],
                    decreases count - k,
                {
                    proof {
                        assert(keys@.to_set().contains(keys@[k as int]));
                        assert(map@.contains_key(keys@[k as int]));
                    }
                    let ghost entry = map@;
                    let remains: bool = match get_mut(&mut map, &keys[k]) {
                        Some(bucket) => bucket.retain(cutoff),
                        None => true,
                    };
                    if !remains {
                        map.remove(&keys[k]);
                    }
                    k = k + 1;
                    proof {
                        assert forall|n: int| k <= n < count implies #[trigger] map@.contains_key(
                            keys@[n],
                        ) && map@[keys@[n]] == before[keys@[n]] by {
                            assert(keys@[n] != keys@[k - 1]);
                            assert(entry.contains_key(keys@[n]));
                        }
                    }
                }
                proof {
                    assert forall|e: EndpointKey<A>| #[trigger]
                        before.contains_key(e) implies map@.contains_key(e) == (before[e]@.filter(
                        keep,
                    ).len() > 0) && (map@.contains_key(e) ==> map@[e]@ == before[e]@.filter(
                        keep,
                    )) by {
                        assert(keys@.to_set().contains(e));
                        let n = choose|n: int| 0 <= n && n < keys@.len() && keys@[n] == e;
                        assert(map@.contains_key(keys@[n]) == (before[keys@[n]]@.filter(keep).len()
                            > 0));
                    }
                    assert forall|e: EndpointKey<A>, i: int|
                        before.contains_key(e) && 0 <= i < before[e]@.filter(
                            keep,
                        ).len() implies endpoint_of(#[trigger] before[e]@.filter(keep)[i]) == e by {
                        assert(g.contains_key(e));
                        lemma_filter_endpoint(before[e]@, keep, e);
                    }
                }
                let rest: Vec<EndpointKey<A>> = sorted_keys(&map, Self::copy_endpoint);
                proof {
                    rest@.unique_seq_to_set();
                }
                if rest.len() == 0 {
                    proof {
                        assert forall|e: EndpointKey<A>| !map@.contains_key(e) by {
                            if map@.contains_key(e) {
                                assert(rest@.to_set().contains(e));
                            }
                        }
                    }
                    assert(self@ =~= group_retained(g, cutoff));
                } else if rest.len() == 1 {
                    proof {
                        assert(rest@.to_set().contains(rest@[0]));
                        assert forall|e: EndpointKey<A>| map@.contains_key(e) implies e
                            == rest@[0] by {
                            assert(rest@.to_set().contains(e));
                        }
                    }
                    if let Some(bucket) = map.remove(&rest[0]) {
                        proof {
                            assert(before.contains_key(rest@[0]));
                            assert(bucket@ == before[rest@[0]]@.filter(keep));
                            assert(endpoint_of(before[rest@[0]]@.filter(keep)[0]) == rest@[0]);
                        }
                        *self = RemoteConnections::One(bucket);
                    }
                    assert(self@ =~= group_retained(g, cutoff));
                } else {
                    *self = RemoteConnections::Many(map);
                    assert(self@ =~= group_retained(g, cutoff));
                }
            },
        }
        proof {
            lemma_group_retained_wf(g, cutoff);
        }
    }

    /// Adds the number of connections to a running total.
    fn add_count(&self, total: usize, untracked_only: bool) -> (n: usize)
        requires
            self.wf(),
        ensures
            n == capped(
                total + if untracked_only {
                    group_sequence(self@).filter(|c: Connection<A>| live_untracked(c)).len()
                } else {
                    group_sequence(self@).len()
                },
            ),
    {
        let ghost p = |c: Connection<A>| live_untracked(c);
        let keys: Vec<EndpointKey<A>> = self.endpoints();
        let count: usize = keys.len();
        let mut n: usize = total;
        let mut k: usize = 0;
        proof {
            reveal(Seq::filter);
            assert(concat(keys@.take(0), self@) =~= Seq::empty());
        }
        while k < count
            invariant
                k <= count == keys@.len(),
                self.wf(),
                keys@.to_set() == self@.dom(),
                p == (|c: Connection<A>| live_untracked(c)),
                n == capped(
                    total + if untracked_only {
                        concat(keys@.take(k as int), self@).filter(p).len()
                    } else {
                        concat(keys@.take(k as int), self@).len()
                    },
                ),
            decreases count - k,
        {
            let ghost done = concat(keys@.take(k as int), self@);
            let ghost next = self@[keys@[k as int]];
            proof {
                assert(keys@.to_set().contains(keys@[k as int]));
                lemma_concat_step(keys@, self@, k as int);
                Seq::filter_distributes_over_add(done, next, p);
            }
            if let Some(bucket) = self.get(&keys[k]) {
                if untracked_only {
                    let size: usize = bucket.len();
                    let mut i: usize = 0;
                    proof {
                        reveal(Seq::filter);
                        assert(next.take(0) =~= Seq::empty());
                    }
                    while i < size
                        invariant
                            i <= size == next.len(),
                            bucket@ == next,
                            p == (|c: Connection<A>| live_untracked(c)),
                            n == capped(
                                total + done.filter(p).len() + next.take(i as int).filter(p).len(),
                            ),
                        decreases size - i,
                    {
                        proof {
                            assert(next.take(i + 1) =~= next.take(i as int).push(next[i as int]));
                            lemma_filter_push(next.take(i as int), p, next[i as int]);
                        }
                        let connection: &Connection<A> = bucket.at(i);
                        if !connection.has_ended() && !connection.native_lifecycle {
                            n = n.saturating_add(1);
                        }
                        i = i + 1;
                    }
                    assert(next.take(size as int) =~= next);
                } else {
                    n = n.saturating_add(bucket.len());
                }
            }
            k = k + 1;
        }
        assert(keys@.take(count as int) =~= keys@);
        n
    }

    /// Appends the instance IDs of the live UDP connections.
    fn append_live_udp_instance_ids(&self, instance_ids: &mut Vec<u64>)
        requires
            self.wf(),
        ensures
            final(instance_ids)@ == old(instance_ids)@ + live_udp_ids(group_sequence(self@)),
    {
        let keys: Vec<EndpointKey<A>> = self.endpoints();
        let count: usize = keys.len();
        let mut k: usize = 0;
        let ghost sent = instance_ids@;
        proof {
            reveal(Seq::filter);
            assert(live_udp_ids(concat(keys@.take(0), self@)) =~= Seq::empty());
        }
        while k < count
            invariant
                k <= count == keys@.len(),
                self.wf(),
                keys@.to_set() == self@.dom(),
                instance_ids@ == sent + live_udp_ids(concat(keys@.take(k as int), self@)),
            decreases count - k,
        {
            let ghost done = concat(keys@.take(k as int), self@);
            let ghost next = self@[keys@[k as int]];
            let ghost before = instance_ids@;
            proof {
                assert(keys@.to_set().contains(keys@[k as int]));
                lemma_concat_step(keys@, self@, k as int);
                lemma_live_udp_ids_add(done, next);
            }
            if let Some(bucket) = self.get(&keys[k]) {
                let total: usize = bucket.len();
                let mut i: usize = 0;
                proof {
                    reveal(Seq::filter);
                    assert(live_udp_ids(next.take(0)) =~= Seq::empty());
                }
                while i < total
                    invariant
                        i <= total == next.len(),
                        bucket@ == next,
                        instance_ids@ == before + live_udp_ids(next.take(i as int)),
                    decreases total - i,
                {
                    proof {
                        assert(next.take(i + 1) =~= next.take(i as int) + seq![next[i as int]]);
                        lemma_live_udp_ids_add(next.take(i as int), seq![next[i as int]]);
                        reveal_with_fuel(Seq::filter, 2);
                        assert(live_udp_ids(seq![next[i as int]]) =~= if live_udp(next[i as int]) {
                            seq![next[i as int].instance_id]
                        } else {
                            Seq::empty()
                        });
                    }
                    let connection: &Connection<A> = bucket.at(i);
                    if connection.protocol == IpProtocol::Udp && !connection.has_ended() {
                        instance_ids.push(connection.instance_id);
                    }
                    i = i + 1;
                }
                assert(next.take(total as int) =~= next);
            }
            k = k + 1;
        }
        assert(keys@.take(count as int) =~= keys@);
    }
}

/// The instance IDs of the live UDP connections in a sequence.
pub open spec fn live_udp_ids<A>(s: Seq<Connection<A>>) -> Seq<u64> {
    s.filter(|c: Connection<A>| live_udp(c)).map_values(|c: Connection<A>| c.instance_id)
}

proof fn lemma_live_udp_ids_add<A>(a: Seq<Connection<A>>, b: Seq<Connection<A>>)
    ensures
        live_udp_ids(a + b) == live_udp_ids(a) + live_udp_ids(b),
{
    Seq::filter_distributes_over_add(a, b, |c: Connection<A>| live_udp(c));
    assert(live_udp_ids(a + b) =~= live_udp_ids(a) + live_udp_ids(b));
}

proof fn lemma_filter_endpoint<A: AddressFamily>(
    s: Seq<Connection<A>>,
    p: spec_fn(Connection<A>) -> bool,
    e: EndpointKey<A>,
)
    requires
        forall|i: int| 0 <= i < s.len() ==> endpoint_of(#[trigger] s[i]) == e,
    ensures
        forall|i: int| 0 <= i < s.filter(p).len() ==> endpoint_of(#[trigger] s.filter(p)[i]) == e,
    decreases s.len(),
{
    reveal(Seq::filter);
    if s.len() > 0 {
        let rest = s.drop_last();
        assert forall|i: int| 0 <= i < rest.len() implies endpoint_of(#[trigger] rest[i]) == e by {
            assert(endpoint_of(s[i]) == e);
        }
        lemma_filter_endpoint(rest, p, e);
        assert(endpoint_of(s[s.len() - 1]) == e);
        assert(s =~= rest.push(s.last()));
        lemma_filter_push(rest, p, s.last());
        assert forall|i: int| 0 <= i < s.filter(p).len() implies endpoint_of(
            #[trigger] s.filter(p)[i],
        ) == e by {
            if i < rest.filter(p).len() {
                assert(endpoint_of(rest.filter(p)[i]) == e);
            }
        }
    }
}

proof fn lemma_group_retained_wf<A: AddressFamily>(g: GroupView<A>, cutoff: u64)
    requires
        group_wf(g),
    ensures
        group_wf(group_retained(g, cutoff)),
{
    let keep = |c: Connection<A>| retained(c, cutoff);
    let h = group_retained(g, cutoff);
    assert forall|e: EndpointKey<A>| #[trigger] h.contains_key(e) implies h[e].len() > 0 && forall|
        i: int,
    |
        0 <= i < h[e].len() ==> endpoint_of(#[trigger] h[e][i]) == e by {
        assert(g.contains_key(e));
        lemma_filter_endpoint(g[e], keep, e);
    }
}

/// Where a connection is stored: its group, its remote endpoint, and its position
/// among the generations of that endpoint.
pub type Place<A> = (GroupKey, EndpointKey<A>, int);

/// The place holds a connection.
pub open spec fn holds<A: AddressFamily>(m: MapView<A>, place: Place<A>) -> bool {
    m.contains_key(place.0) && occupied(m[place.0], place.1, place.2)
}

/// The connection at a place.
pub open spec fn at<A: AddressFamily>(m: MapView<A>, place: Place<A>) -> Connection<A> {
    m[place.0][place.1][place.2]
}

/// The map with one connection replaced.
pub open spec fn map_set<A: AddressFamily>(
    m: MapView<A>,
    place: Place<A>,
    c: Connection<A>,
) -> MapView<A> {
    m.insert(place.0, group_set(m[place.0], (place.1, place.2), c))
}

/// The map with one more connection, the newest of its remote endpoint.
pub open spec fn map_push<A: AddressFamily>(m: MapView<A>, c: Connection<A>) -> MapView<A> {
    let group = group_key(c.spec_key().spec_small());
    m.insert(
        group,
        group_push(
            if m.contains_key(group) {
                m[group]
            } else {
                Map::empty()
            },
            c,
        ),
    )
}

/// The generations that share a tuple's group and remote endpoint, oldest first.
pub open spec fn generations<A: AddressFamily>(m: MapView<A>, key: Key) -> Seq<Connection<A>> {
    let group = group_key(key.spec_small());
    match endpoint_of_key::<A>(key) {
        Some(e) => if m.contains_key(group) && m[group].contains_key(e) {
            m[group][e]
        } else {
            Seq::empty()
        },
        None => Seq::empty(),
    }
}

/// Place of the oldest connection of the query's own tuple that it accepts.
pub open spec fn exact_match<A: AddressFamily>(m: MapView<A>, q: Query) -> Option<Place<A>> {
    match first(generations(m, q.key), q) {
        Some(i) => Some(
            (group_key(q.key.spec_small()), endpoint_of_key::<A>(q.key)->Some_0, i),
        ),
        None => None,
    }
}

/// Place of the first connection of the query's group that it accepts, if the tuple
/// carries a redirect port.
pub open spec fn redirect_match<A: AddressFamily>(m: MapView<A>, q: Query) -> Option<Place<A>> {
    let group = group_key(q.key.spec_small());
    if spec_is_redirect_port(q.key.remote_port) && m.contains_key(group) {
        match first_in_group(m[group], q) {
            Some((e, i)) => Some((group, e, i)),
            None => None,
        }
    } else {
        None
    }
}

/// The live connection that a mutation through an exact instance reaches: the one with
/// the tuple itself, else the one whose redirect target has it. Zero is no instance.
pub open spec fn instance_match<A: AddressFamily>(
    m: MapView<A>,
    key: Key,
    instance_id: u64,
) -> Option<Place<A>> {
    if instance_id == 0 || endpoint_of_key::<A>(key) is None {
        None
    } else {
        let q = Query::instance(key, instance_id);
        match exact_match(m, q) {
            Some(place) => Some(place),
            None => redirect_match(m, Query { redirect: true, ..q }),
        }
    }
}

/// The connection that a read of `key` selects: a live one with the tuple, else a live
/// one whose redirect target has the tuple, else, where history counts, an ended one
/// with the tuple, else an ended one whose redirect target has it.
pub open spec fn best_match<A: AddressFamily>(
    m: MapView<A>,
    key: Key,
    use_ended_fallback: bool,
) -> Option<Place<A>> {
    let live = Query::live(key);
    match exact_match(m, live) {
        Some(place) => Some(place),
        None => match redirect_match(m, Query { redirect: true, ..live }) {
            Some(place) => Some(place),
            None => if use_ended_fallback {
                match exact_match(m, Query { ended: true, ..live }) {
                    Some(place) => Some(place),
                    None => redirect_match(m, Query { redirect: true, ended: true, ..live }),
                }
            } else {
                None
            },
        },
    }
}

/// Every connection is stored in the group of its protocol and local port and under
/// its remote endpoint, and no group is empty.
pub open spec fn map_wf<A: AddressFamily>(m: MapView<A>) -> bool {
    forall|group: GroupKey| #[trigger]
        m.contains_key(group) ==> {
            &&& group_wf(m[group])
            &&& m[group].dom() != Set::<EndpointKey<A>>::empty()
            &&& forall|e: EndpointKey<A>, i: int|
                occupied(m[group], e, i) ==> group_key(
                    (#[trigger] m[group][e][i]).spec_key().spec_small(),
                ) == group
        }
}

/// Connections grouped by `(protocol, local port)`, then by remote endpoint.
///
/// The first remote endpoint in each local-port group is stored inline. A B-tree
/// is allocated only when that group acquires a second distinct remote endpoint.
/// Busy listeners still get ordered O(log n) endpoint lookup, while the common
/// one-endpoint case avoids a fixed-size B-tree leaf allocation entirely.
///
/// Ended generations remain retained for late packets and are kept in insertion
/// order inside their endpoint bucket. The remote endpoint is deliberately not
/// the complete tuple: two local addresses can use the same port and remote
/// endpoint, so exact operations still validate `Connection::remote_equals`.
pub struct ConnectionMap<A: AddressFamily> {
    groups: BTreeMap<GroupKey, RemoteConnections<A>>,
}

impl<A: AddressFamily> ConnectionMap<A> {
    /// The generations of each remote endpoint of each group.
    pub closed spec fn view(&self) -> MapView<A> {
        self.groups@.map_values(|g: RemoteConnections<A>| g@)
    }

    /// The representation and its contents are well formed.
    pub closed spec fn wf(&self) -> bool {
        &&& map_wf(self@)
        &&& forall|group: GroupKey| #[trigger]
            self.groups@.contains_key(group) ==> self.groups@[group].wf()
    }

    /// There are finitely many groups with finitely many remote endpoints each, and every
    /// connection is stored where it belongs.
    pub proof fn groups_are_finite(&self)
        requires
            self.wf(),
        ensures
            map_wf(self@),
            self@.dom().finite(),
            forall|group: GroupKey| #[trigger]
                self@.contains_key(group) ==> self@[group].dom().finite(),
    {
        assert(self@.dom() =~= self.groups@.dom());
        assert forall|group: GroupKey| #[trigger] self@.contains_key(
            group,
        ) implies self@[group].dom().finite() by {
            match self.groups@[group] {
                RemoteConnections::Many(map) => {
                    assert(self@[group].dom() =~= map@.dom());
                },
                RemoteConnections::One(bucket) => {
                    assert(self@[group].dom() =~= Set::empty().insert(endpoint_of(bucket@[0])));
                },
                RemoteConnections::Empty => {
                    assert(self@[group].dom() =~= Set::empty());
                },
            }
        }
    }

    /// Creates an empty map.
    pub fn new() -> (map: Self)
        ensures
            map.wf(),
            map@ == MapView::<A>::empty(),
    {
        let map = ConnectionMap { groups: BTreeMap::new() };
        assert(map@ =~= MapView::<A>::empty());
        map
    }

    /// The remote endpoints of one protocol and local port.
    pub fn group(&self, small: (IpProtocol, u16)) -> (connections: Option<&RemoteConnections<A>>)
        requires
            self.wf(),
        ensures
            match connections {
                Some(g) => self@.contains_key(group_key(small)) && g@ == self@[group_key(small)]
                    && g.wf(),
                None => !self@.contains_key(group_key(small)),
            },
    {
        proof {
            lemma_integer_keys();
            lemma_pair_key::<u16, u16>();
        }
        self.groups.get(&group_index(small))
    }

    fn locate_exact(&self, q: &Query) -> (place: Option<(GroupKey, EndpointKey<A>, usize)>)
        requires
            self.wf(),
        ensures
            match place {
                Some((g, e, i)) => exact_match(self@, *q) == Some((g, e, i as int)) && holds(
                    self@,
                    (g, e, i as int),
                ) && is_first(generations(self@, q.key), *q, i as int),
                None => exact_match(self@, *q) is None,
            },
    {
        let small: (IpProtocol, u16) = q.key.small();
        let endpoint: EndpointKey<A> = match remote_endpoint_from_key::<A>(&q.key) {
            Some(endpoint) => endpoint.into_pair(),
            None => {
                return None;
            },
        };
        match self.group(small) {
            Some(connections) => match connections.get(&endpoint) {
                Some(bucket) => match bucket.find(q) {
                    Some(i) => Some((group_index(small), endpoint, i)),
                    None => None,
                },
                None => None,
            },
            None => None,
        }
    }

    fn locate_redirect(&self, q: &Query) -> (place: Option<(GroupKey, EndpointKey<A>, usize)>)
        requires
            self.wf(),
        ensures
            match place {
                Some((g, e, i)) => redirect_match(self@, *q) == Some((g, e, i as int)) && holds(
                    self@,
                    (g, e, i as int),
                ) && q.accepts(at(self@, (g, e, i as int))),
                None => redirect_match(self@, *q) is None,
            },
    {
        if !is_redirect_port(q.key.remote_port) {
            return None;
        }
        let small: (IpProtocol, u16) = q.key.small();
        match self.group(small) {
            Some(connections) => match connections.find(q) {
                Some((e, i)) => Some((group_index(small), e, i)),
                None => None,
            },
            None => None,
        }
    }

    fn locate_instance(&self, key: &Key, instance_id: u64) -> (place: Option<
        (GroupKey, EndpointKey<A>, usize),
    >)
        requires
            self.wf(),
        ensures
            match place {
                Some((g, e, i)) => instance_match(self@, *key, instance_id) == Some(
                    (g, e, i as int),
                ) && holds(self@, (g, e, i as int)),
                None => instance_match(self@, *key, instance_id) is None,
            },
    {
        if instance_id == 0 {
            return None;
        }
        if A::from_ip(key.remote_address).is_none() {
            return None;
        }
        let q = Query {
            key: *key,
            redirect: false,
            ended: false,
            instance_id: Some(instance_id),
            untracked: false,
        };
        match self.locate_exact(&q) {
            Some(place) => Some(place),
            None => self.locate_redirect(&Query { redirect: true, ..q }),
        }
    }

    /// The connection at a place, for mutation. Its tuple has to stay as it is.
    fn connection_mut(&mut self, place: (GroupKey, EndpointKey<A>, usize)) -> (connection: Option<
        &mut Connection<A>,
    >)
        requires
            old(self).wf(),
            holds(old(self)@, (place.0, place.1, place.2 as int)),
        ensures
            connection is Some,
            connection matches Some(c) ==> *c == at(
                old(self)@,
                (place.0, place.1, place.2 as int),
            ),
            connection matches Some(c) ==> (final(c).spec_key() == c.spec_key() ==> final(self)@
                == map_set(old(self)@, (place.0, place.1, place.2 as int), *final(c))),
            connection matches Some(c) ==> (final(c).spec_key() == c.spec_key()
                ==> final(self).wf()),
    {
        proof {
            lemma_integer_keys();
            lemma_pair_key::<u16, u16>();
            A::lemma_family();
        }
        match get_mut(&mut self.groups, &place.0) {
            Some(connections) => {
                match connections.at_mut(&place.1, place.2) {
                    Some(c) => {
                        proof {
                            lemma_map_set_wf(
                                old(self)@,
                                (place.0, place.1, place.2 as int),
                                *final(c),
                            );
                        }
                        Some(c)
                    },
                    None => None,
                }
            },
            None => None,
        }
    }
}

proof fn lemma_map_set_wf<A: AddressFamily>(m: MapView<A>, place: Place<A>, c: Connection<A>)
    requires
        map_wf(m),
        holds(m, place),
    ensures
        c.spec_key() == at(m, place).spec_key() ==> forall|n: MapView<A>|
            n =~= map_set(m, place, c) ==> #[trigger] map_wf(n),
{
    if c.spec_key() == at(m, place).spec_key() {
        let n = map_set(m, place, c);
        lemma_group_set_wf(m[place.0], (place.1, place.2), c);
        assert forall|group: GroupKey| #[trigger] n.contains_key(group) implies {
            &&& group_wf(n[group])
            &&& n[group].dom() != Set::<EndpointKey<A>>::empty()
            &&& forall|e: EndpointKey<A>, i: int|
                occupied(n[group], e, i) ==> group_key(
                    (#[trigger] n[group][e][i]).spec_key().spec_small(),
                ) == group
        } by {
            assert(m.contains_key(group));
            if group == place.0 {
                assert(n[group].dom().contains(place.1));
                assert forall|e: EndpointKey<A>, i: int| occupied(n[group], e, i) implies group_key(
                    (#[trigger] n[group][e][i]).spec_key().spec_small(),
                ) == group by {
                    assert(occupied(m[group], e, i));
                    assert(group_key(m[group][e][i].spec_key().spec_small()) == group);
                }
            }
        }
    }
}

/// The map after a bulk operation on every group.
pub open spec fn map_applied<A: AddressFamily>(
    m: MapView<A>,
    selection: Selection,
    now: u64,
) -> MapView<A> {
    m.map_values(|g: GroupView<A>| group_applied(g, selection, now))
}

/// The map without the connections that cleanup removes, and without the groups that
/// this leaves empty.
pub open spec fn map_retained<A: AddressFamily>(m: MapView<A>, cutoff: u64) -> MapView<A> {
    Map::new(
        |group: GroupKey|
            m.contains_key(group) && group_retained(m[group], cutoff).dom() != Set::<
                EndpointKey<A>,
            >::empty(),
        |group: GroupKey| group_retained(m[group], cutoff),
    )
}

/// A time some milliseconds ago, or the clock's start.
pub open spec fn earlier(now: u64, ms: u64) -> u64 {
    if now >= ms {
        (now - ms) as u64
    } else {
        0
    }
}

/// What inserting a connection for a tuple without a live entry leaves and returns.
pub open spec fn inserted<A: AddressFamily>(
    before: MapView<A>,
    after: MapView<A>,
    conn: Connection<A>,
    result: Result<u64, (Connection<A>, u64)>,
) -> bool {
    result == Ok::<u64, (Connection<A>, u64)>(conn.instance_id) && after == map_push(before, conn)
}

impl<A: AddressFamily> ConnectionMap<A> {
    /// Stores a connection whatever is stored for its tuple.
    pub fn add(&mut self, conn: Connection<A>)
        requires
            old(self).wf(),
        ensures
            final(self).wf(),
            final(self)@ == map_push(old(self)@, conn),
    {
        proof {
            lemma_integer_keys();
            lemma_pair_key::<u16, u16>();
        }
        let group: GroupKey = group_index(conn.get_key().small());
        let ghost m = self@;
        match get_mut(&mut self.groups, &group) {
            Some(connections) => {
                connections.insert(conn);
                proof {
                    lemma_map_push_wf(m, conn);
                }
                assert(self@ =~= map_push(m, conn));
                return;
            },
            None => {},
        }
        let mut connections: RemoteConnections<A> = RemoteConnections::empty();
        connections.insert(conn);
        self.groups.insert(group, connections);
        proof {
            lemma_map_push_wf(m, conn);
            assert(self@ =~= map_push(m, conn));
        }
    }

    fn unchanged(connection: Connection<A>) -> (same: Connection<A>)
        ensures
            same == connection,
    {
        connection
    }

    /// Inserts `conn` only when its exact tuple has no live cache entry.
    pub fn insert_if_absent(&mut self, conn: Connection<A>) -> (result: Result<
        u64,
        (Connection<A>, u64),
    >)
        requires
            old(self).wf(),
        ensures
            final(self).wf(),
            match exact_match(old(self)@, Query::live(conn.spec_key())) {
                Some(place) => result == Err::<u64, (Connection<A>, u64)>(
                    (conn, at(old(self)@, place).instance_id),
                ) && final(self)@ == old(self)@,
                None => inserted(old(self)@, final(self)@, conn, result),
            },
    {
        let ghost m = self@;
        let result = self.insert_if_absent_with(conn, Self::unchanged);
        proof {
            if let Some(place) = exact_match(m, Query::live(conn.spec_key())) {
                lemma_exact_holds(m, Query::live(conn.spec_key()));
                assert(map_set(m, place, at(m, place)) =~= m) by {
                    assert(group_set(m[place.0], (place.1, place.2), at(m, place)) =~= m[place.0])
                        by {
                        assert(m[place.0][place.1].update(place.2, at(m, place))
                            =~= m[place.0][place.1]);
                    }
                }
            }
        }
        result
    }

    /// Inserts `conn` only when its exact tuple has no live cache entry.
    ///
    /// The caller owns the map exclusively for this entire check-and-insert, so
    /// two classify callbacks cannot both observe absence and create duplicate
    /// live entries. Retained ended history deliberately does not block tuple
    /// reuse. When a live entry exists, `update_existing` replaces that already
    /// located entry, avoiding a second endpoint lookup for process or lifecycle
    /// updates. The selected instance ID is returned on both paths.
    pub fn insert_if_absent_with(
        &mut self,
        conn: Connection<A>,
        update_existing: impl FnOnce(Connection<A>) -> Connection<A>,
    ) -> (result: Result<u64, (Connection<A>, u64)>)
        requires
            old(self).wf(),
            forall|c: Connection<A>| call_requires(update_existing, (c,)),
            forall|c: Connection<A>, d: Connection<A>|
                call_ensures(update_existing, (c,), d) ==> d.spec_key() == c.spec_key(),
        ensures
            final(self).wf(),
            match exact_match(old(self)@, Query::live(conn.spec_key())) {
                Some(place) => {
                    &&& result == Err::<u64, (Connection<A>, u64)>(
                        (conn, at(old(self)@, place).instance_id),
                    )
                    &&& exists|d: Connection<A>|
                        call_ensures(update_existing, (at(old(self)@, place),), d) && final(self)@
                            == map_set(old(self)@, place, d)
                },
                None => inserted(old(self)@, final(self)@, conn, result),
            },
    {
        let q = Query {
            key: conn.get_key(),
            redirect: false,
            ended: false,
            instance_id: None,
            untracked: false,
        };
        if let Some(place) = self.locate_exact(&q) {
            if let Some(existing) = self.connection_mut(place) {
                let existing_id: u64 = existing.get_instance_id();
                let updated: Connection<A> = update_existing(*existing);
                *existing = updated;
                return Err((conn, existing_id));
            }
        }
        let instance_id: u64 = conn.get_instance_id();
        self.add(conn);
        Ok(instance_id)
    }

    /// Returns the live connection matching `key` for mutation.
    ///
    /// Ended entries are deliberately not a fallback here. A delayed verdict or
    /// PID update belongs either to a live replacement or to no current
    /// connection; mutating retained history would make a stale verdict visible
    /// to late packets without changing the active flow.
    pub fn get_mut(&mut self, key: &Key, now: u64) -> (connection: Option<&mut Connection<A>>)
        requires
            old(self).wf(),
        ensures
            match connection {
                Some(c) => {
                    &&& exact_match(old(self)@, Query::live(*key)) matches Some(place) && *c == at(
                        old(self)@,
                        place,
                    ).spec_refreshed(now)
                    &&& final(c).spec_key() == c.spec_key() ==> final(self).wf()
                    &&& final(c).spec_key() == c.spec_key() ==> final(self)@ == map_set(
                        old(self)@,
                        exact_match(old(self)@, Query::live(*key))->Some_0,
                        *final(c),
                    )
                },
                None => exact_match(old(self)@, Query::live(*key)) is None && *final(self) == *old(
                    self,
                ),
            },
    {
        let q = Query {
            key: *key,
            redirect: false,
            ended: false,
            instance_id: None,
            untracked: false,
        };
        match self.locate_exact(&q) {
            Some(place) => match self.connection_mut(place) {
                Some(connection) => {
                    connection.refresh_activity(now);
                    Some(connection)
                },
                None => None,
            },
            None => None,
        }
    }

    /// Returns the live fallback instance for an exact tuple, if one exists.
    /// This does not refresh activity; a caller that successfully binds native
    /// lifecycle state performs the exact-instance update separately.
    pub fn untracked_instance_id(&self, key: &Key) -> (id: Option<u64>)
        requires
            self.wf(),
        ensures
            match exact_match(self@, Query { untracked: true, ..Query::live(*key) }) {
                Some(place) => id == Some(at(self@, place).instance_id),
                None => id is None,
            },
    {
        let q = Query {
            key: *key,
            redirect: false,
            ended: false,
            instance_id: None,
            untracked: true,
        };
        match self.read_at(self.locate_exact(&q)) {
            Some(connection) => Some(connection.instance_id),
            None => None,
        }
    }

    /// Returns the instance ID of an exact tuple's live connection without refreshing it.
    pub fn live_instance_id(&self, key: &Key) -> (id: Option<u64>)
        requires
            self.wf(),
        ensures
            match exact_match(self@, Query::live(*key)) {
                Some(place) => id == Some(at(self@, place).instance_id),
                None => id is None,
            },
    {
        let q = Query {
            key: *key,
            redirect: false,
            ended: false,
            instance_id: None,
            untracked: false,
        };
        match self.read_at(self.locate_exact(&q)) {
            Some(connection) => Some(connection.instance_id),
            None => None,
        }
    }

    fn read_at(&self, place: Option<(GroupKey, EndpointKey<A>, usize)>) -> (connection: Option<
        &Connection<A>,
    >)
        requires
            self.wf(),
            place matches Some((g, e, i)) ==> holds(self@, (g, e, i as int)),
        ensures
            match place {
                Some((g, e, i)) => connection matches Some(c) && *c == at(self@, (g, e, i as int)),
                None => connection is None,
            },
    {
        proof {
            lemma_integer_keys();
            lemma_pair_key::<u16, u16>();
        }
        match place {
            Some((g, e, i)) => match self.groups.get(&g) {
                Some(connections) => match connections.get(&e) {
                    Some(bucket) => Some(bucket.at(i)),
                    None => None,
                },
                None => None,
            },
            None => None,
        }
    }

    /// Returns whether one exact connection-cache instance is still live.
    ///
    /// Unlike `read`, this check does not refresh activity and never falls back to
    /// redirected or ended state. It is used to validate endpoint-owned identity.
    pub fn has_live_instance(&self, key: &Key, instance_id: u64) -> (r: bool)
        requires
            self.wf(),
        ensures
            r == live_instance(self@, *key, instance_id),
    {
        if instance_id == 0 {
            return false;
        }
        let q = Query {
            key: *key,
            redirect: false,
            ended: false,
            instance_id: Some(instance_id),
            untracked: false,
        };
        self.locate_exact(&q).is_some()
    }

    /// Returns whether one exact live instance matches either its original tuple or
    /// its current reverse-redirect tuple.
    ///
    /// Pending packet publication uses the packet's observed key. A response from a
    /// local redirect target no longer carries the original remote endpoint, but its
    /// instance ID still identifies exactly one cached generation. The instance
    /// check makes the otherwise ambiguous redirect scan safe for this operation.
    pub fn has_live_instance_matching(&self, key: &Key, instance_id: u64) -> (r: bool)
        requires
            self.wf(),
        ensures
            r == live_instance_matching(self@, *key, instance_id),
    {
        if self.has_live_instance(key, instance_id) {
            return true;
        }
        if instance_id == 0 {
            return false;
        }
        let q = Query {
            key: *key,
            redirect: true,
            ended: false,
            instance_id: Some(instance_id),
            untracked: false,
        };
        self.locate_redirect(&q).is_some()
    }

    /// Returns the exact live cache instance for mutation.
    ///
    /// Pending verdicts carry the instance that existed when their packet was
    /// queued. Requiring both identities prevents a delayed verdict from mutating
    /// a replacement connection that reused the same tuple. Redirected packet keys
    /// are supported for the packet-layer path in the same way as `read_matching`.
    pub fn get_mut_instance(&mut self, key: &Key, instance_id: u64, now: u64) -> (connection:
        Option<&mut Connection<A>>)
        requires
            old(self).wf(),
        ensures
            match connection {
                Some(c) => {
                    &&& instance_match(old(self)@, *key, instance_id) matches Some(place) && *c
                        == at(old(self)@, place).spec_refreshed(now)
                    &&& final(c).spec_key() == c.spec_key() ==> final(self).wf()
                    &&& final(c).spec_key() == c.spec_key() ==> final(self)@ == map_set(
                        old(self)@,
                        instance_match(old(self)@, *key, instance_id)->Some_0,
                        *final(c),
                    )
                },
                None => instance_match(old(self)@, *key, instance_id) is None && *final(self)
                    == *old(self),
            },
    {
        match self.locate_instance(key, instance_id) {
            Some(place) => match self.connection_mut(place) {
                Some(connection) => {
                    connection.refresh_activity(now);
                    Some(connection)
                },
                None => None,
            },
            None => None,
        }
    }

    /// Refreshes one exact live cache instance.
    pub fn touch_instance(&mut self, key: &Key, instance_id: u64, now: u64) -> (touched: bool)
        requires
            old(self).wf(),
        ensures
            final(self).wf(),
            match instance_match(old(self)@, *key, instance_id) {
                Some(place) => touched && final(self)@ == map_set(
                    old(self)@,
                    place,
                    at(old(self)@, place).spec_refreshed(now),
                ),
                None => !touched && final(self)@ == old(self)@,
            },
    {
        match self.get_mut_instance(key, instance_id, now) {
            Some(_) => true,
            None => false,
        }
    }

    /// Reads the best live connection matching `key`.
    ///
    /// Live exact matches take precedence over live redirect matches. Ended
    /// entries are deliberately ignored so connection-establishment and update
    /// paths cannot mistake retained history for a current flow.
    pub fn read<C>(
        &mut self,
        key: &Key,
        read_connection: impl Fn(&Connection<A>) -> Option<C>,
        now: u64,
    ) -> (result: Option<C>)
        requires
            old(self).wf(),
            forall|c: Connection<A>| #[trigger] call_requires(read_connection, (&c,)),
        ensures
            final(self).wf(),
            match best_match(old(self)@, *key, false) {
                Some(place) => {
                    let c = at(old(self)@, place).spec_refreshed(now);
                    final(self)@ == map_set(old(self)@, place, c) && call_ensures(
                        read_connection,
                        (&c,),
                        result,
                    )
                },
                None => result is None && final(self)@ == old(self)@,
            },
    {
        self.read_matching(key, read_connection, false, now)
    }

    /// Reads the best connection matching `key`, including retained history.
    ///
    /// Live exact and redirect matches still take precedence. An ended match is
    /// returned only when no live candidate exists, preserving policy for a
    /// packet already in flight after its connection closed.
    pub fn read_with_ended_fallback<C>(
        &mut self,
        key: &Key,
        read_connection: impl Fn(&Connection<A>) -> Option<C>,
        now: u64,
    ) -> (result: Option<C>)
        requires
            old(self).wf(),
            forall|c: Connection<A>| #[trigger] call_requires(read_connection, (&c,)),
        ensures
            final(self).wf(),
            match best_match(old(self)@, *key, true) {
                Some(place) => {
                    let c = at(old(self)@, place).spec_refreshed(now);
                    final(self)@ == map_set(old(self)@, place, c) && call_ensures(
                        read_connection,
                        (&c,),
                        result,
                    )
                },
                None => result is None && final(self)@ == old(self)@,
            },
    {
        self.read_matching(key, read_connection, true, now)
    }

    /// Reads the most recently inserted ended generation for one exact tuple.
    ///
    /// This is used only to recognize a late ALE reauthorization after endpoint
    /// closure. It deliberately ignores live and redirected entries and does not
    /// refresh activity, so it cannot turn retained history into current state.
    pub fn read_ended_exact<C>(
        &self,
        key: &Key,
        read_connection: impl Fn(&Connection<A>) -> Option<C>,
    ) -> (result: Option<C>)
        requires
            self.wf(),
            forall|c: Connection<A>| #[trigger] call_requires(read_connection, (&c,)),
        ensures
            match last(generations(self@, *key), Query { ended: true, ..Query::live(*key) }) {
                Some(i) => call_ensures(
                    read_connection,
                    (&generations(self@, *key)[i],),
                    result,
                ),
                None => result is None,
            },
    {
        let q = Query {
            key: *key,
            redirect: false,
            ended: true,
            instance_id: None,
            untracked: false,
        };
        let endpoint: EndpointKey<A> = match remote_endpoint_from_key::<A>(key) {
            Some(endpoint) => endpoint.into_pair(),
            None => {
                return None;
            },
        };
        match self.group(key.small()) {
            Some(connections) => match connections.get(&endpoint) {
                Some(bucket) => match bucket.find_last(&q) {
                    Some(i) => read_connection(bucket.at(i)),
                    None => None,
                },
                None => None,
            },
            None => None,
        }
    }

    /// Reads connection policy for one packet indication.
    ///
    /// An inbound packet can be the first packet of a new flow that reused an
    /// ended tuple before ALE registered its replacement, so it must use live
    /// state only. Outbound TCP/UDP reaches ALE before the packet layer; when no
    /// live entry exists there, retained state can still classify a packet that
    /// was already in flight when its connection closed.
    pub fn read_for_packet<C>(
        &mut self,
        key: &Key,
        packet_direction: Direction,
        read_connection: impl Fn(&Connection<A>) -> Option<C>,
        now: u64,
    ) -> (result: Option<C>)
        requires
            old(self).wf(),
            forall|c: Connection<A>| #[trigger] call_requires(read_connection, (&c,)),
        ensures
            final(self).wf(),
            match best_match(old(self)@, *key, packet_direction is Outbound) {
                Some(place) => {
                    let c = at(old(self)@, place).spec_refreshed(now);
                    final(self)@ == map_set(old(self)@, place, c) && call_ensures(
                        read_connection,
                        (&c,),
                        result,
                    )
                },
                None => result is None && final(self)@ == old(self)@,
            },
    {
        match packet_direction {
            Direction::Inbound => self.read(key, read_connection, now),
            Direction::Outbound => self.read_with_ended_fallback(key, read_connection, now),
        }
    }

    fn read_matching<C>(
        &mut self,
        key: &Key,
        read_connection: impl Fn(&Connection<A>) -> Option<C>,
        use_ended_fallback: bool,
        now: u64,
    ) -> (result: Option<C>)
        requires
            old(self).wf(),
            forall|c: Connection<A>| #[trigger] call_requires(read_connection, (&c,)),
        ensures
            final(self).wf(),
            match best_match(old(self)@, *key, use_ended_fallback) {
                Some(place) => {
                    let c = at(old(self)@, place).spec_refreshed(now);
                    final(self)@ == map_set(old(self)@, place, c) && call_ensures(
                        read_connection,
                        (&c,),
                        result,
                    )
                },
                None => result is None && final(self)@ == old(self)@,
            },
    {
        let live = Query {
            key: *key,
            redirect: false,
            ended: false,
            instance_id: None,
            untracked: false,
        };
        // Exact remote match first, using one direct endpoint lookup. The
        // normally single-element bucket still validates the local address.
        //
        // A redirected connection cannot be found by that search: it is stored
        // under its real remote endpoint, while the packet that comes back carries
        // the redirect target instead. Those are found by scanning, guarded by the
        // port test so that a miss on any other port never scans.
        //
        // Any live redirect is newer connection state than retained ended history,
        // even if that history happens to be an exact match for the redirect
        // endpoint. Exact matching still wins when both are live.
        let place: Option<(GroupKey, EndpointKey<A>, usize)> = match self.locate_exact(&live) {
            Some(place) => Some(place),
            None => match self.locate_redirect(&Query { redirect: true, ..live }) {
                Some(place) => Some(place),
                None => if use_ended_fallback {
                    match self.locate_exact(&Query { ended: true, ..live }) {
                        Some(place) => Some(place),
                        None => self.locate_redirect(
                            &Query { redirect: true, ended: true, ..live },
                        ),
                    }
                } else {
                    None
                },
            },
        };
        match place {
            Some(place) => match self.connection_mut(place) {
                Some(connection) => {
                    connection.refresh_activity(now);
                    read_connection(&*connection)
                },
                None => None,
            },
            None => None,
        }
    }

    /// Binds native endpoint/flow lifetime to one exact live fallback instance.
    pub fn mark_native_lifecycle_instance(&mut self, key: &Key, instance_id: u64) -> (marked: bool)
        requires
            old(self).wf(),
        ensures
            final(self).wf(),
            marked == live_instance(old(self)@, *key, instance_id),
            final(self)@ == if marked {
                let place = exact_match(old(self)@, Query::instance(*key, instance_id))->Some_0;
                map_set(
                    old(self)@,
                    place,
                    Connection { native_lifecycle: true, ..at(old(self)@, place) },
                )
            } else {
                old(self)@
            },
    {
        if instance_id == 0 {
            return false;
        }
        let q = Query {
            key: *key,
            redirect: false,
            ended: false,
            instance_id: Some(instance_id),
            untracked: false,
        };
        match self.locate_exact(&q) {
            Some(place) => {
                if let Some(connection) = self.connection_mut(place) {
                    connection.mark_native_lifecycle();
                }
                true
            },
            None => false,
        }
    }

    /// Ends the live connection matching both its tuple and cache-instance ID.
    ///
    /// WFP flow deletion can race with tuple reuse. Binding the callback to the
    /// instance that existed when its context was associated prevents an old flow
    /// from ending a newer connection with the same five-tuple.
    pub fn end_instance(&mut self, key: Key, instance_id: u64, now: u64) -> (ended: Option<
        Connection<A>,
    >)
        requires
            old(self).wf(),
        ensures
            final(self).wf(),
            ended is Some == live_instance(old(self)@, key, instance_id),
            match ended {
                Some(c) => {
                    let place = exact_match(old(self)@, Query::instance(key, instance_id))->Some_0;
                    c == at(old(self)@, place).spec_ended(now) && final(self)@ == map_set(
                        old(self)@,
                        place,
                        c,
                    )
                },
                None => final(self)@ == old(self)@,
            },
    {
        if instance_id == 0 {
            return None;
        }
        let q = Query {
            key,
            redirect: false,
            ended: false,
            instance_id: Some(instance_id),
            untracked: false,
        };
        match self.locate_exact(&q) {
            Some(place) => match self.connection_mut(place) {
                Some(connection) => {
                    connection.end(now);
                    Some(*connection)
                },
                None => None,
            },
            None => None,
        }
    }

    /// Forgets every connection.
    pub fn clear(&mut self)
        requires
            old(self).wf(),
        ensures
            final(self).wf(),
            final(self)@ == MapView::<A>::empty(),
    {
        self.groups.clear();
        assert(self@ =~= MapView::<A>::empty());
    }
}

/// The exact tuple has a live connection with this instance ID. Zero is no instance.
pub open spec fn live_instance<A: AddressFamily>(m: MapView<A>, key: Key, instance_id: u64) -> bool {
    instance_id != 0 && exact_match(m, Query::instance(key, instance_id)) is Some
}

/// A live connection with this instance ID has the tuple, or its redirect target has.
pub open spec fn live_instance_matching<A: AddressFamily>(
    m: MapView<A>,
    key: Key,
    instance_id: u64,
) -> bool {
    live_instance(m, key, instance_id) || (instance_id != 0 && redirect_match(
        m,
        Query { redirect: true, ..Query::instance(key, instance_id) },
    ) is Some)
}

/// What `exact_match` finds is there and satisfies the query.
pub proof fn lemma_exact_holds<A: AddressFamily>(m: MapView<A>, q: Query)
    ensures
        exact_match(m, q) matches Some(place) ==> holds(m, place) && q.accepts(at(m, place)),
{
    if let Some(i) = first(generations(m, q.key), q) {
        assert(is_first(generations(m, q.key), q, i));
    }
}

/// What `redirect_match` finds is there and satisfies the query.
pub proof fn lemma_redirect_holds<A: AddressFamily>(m: MapView<A>, q: Query)
    ensures
        redirect_match(m, q) matches Some(place) ==> holds(m, place) && q.accepts(at(m, place)),
{
    let group = group_key(q.key.spec_small());
    if let Some(place) = first_in_group(m[group], q) {
        assert(is_first_in_group(m[group], q, place));
    }
}

proof fn lemma_map_push_wf<A: AddressFamily>(m: MapView<A>, c: Connection<A>)
    requires
        map_wf(m),
    ensures
        forall|n: MapView<A>| n =~= map_push(m, c) ==> #[trigger] map_wf(n),
{
    let n = map_push(m, c);
    let mine = group_key(c.spec_key().spec_small());
    let old_group = if m.contains_key(mine) {
        m[mine]
    } else {
        Map::empty()
    };
    let e0 = endpoint_of(c);
    assert forall|group: GroupKey| #[trigger] n.contains_key(group) implies {
        &&& group_wf(n[group])
        &&& n[group].dom() != Set::<EndpointKey<A>>::empty()
        &&& forall|e: EndpointKey<A>, i: int|
            occupied(n[group], e, i) ==> group_key(
                (#[trigger] n[group][e][i]).spec_key().spec_small(),
            ) == group
    } by {
        if group == mine {
            let g = n[group];
            assert(g.dom().contains(e0));
            assert forall|e: EndpointKey<A>| #[trigger] g.contains_key(e) implies g[e].len() > 0
                && forall|i: int| 0 <= i < g[e].len() ==> endpoint_of(#[trigger] g[e][i]) == e by {
                if old_group.contains_key(e) {
                    assert(m.contains_key(mine));
                    assert(old_group[e].len() > 0);
                    assert forall|i: int| 0 <= i < g[e].len() implies endpoint_of(
                        #[trigger] g[e][i],
                    ) == e by {
                        if i < old_group[e].len() {
                            assert(endpoint_of(old_group[e][i]) == e);
                        }
                    }
                }
            }
            assert forall|e: EndpointKey<A>, i: int| occupied(g, e, i) implies group_key(
                (#[trigger] g[e][i]).spec_key().spec_small(),
            ) == group by {
                if old_group.contains_key(e) && i < old_group[e].len() {
                    assert(m.contains_key(mine));
                    assert(occupied(m[mine], e, i));
                    assert(group_key(m[mine][e][i].spec_key().spec_small()) == mine);
                }
            }
        } else {
            assert(m.contains_key(group));
        }
    }
}

impl<A: AddressFamily> ConnectionMap<A> {
    /// Ends live connections for one local endpoint and returns copies of them.
    ///
    /// The map is grouped by protocol and local port, but that grouping is not a
    /// sufficient identity: two local addresses can listen on the same port, and
    /// multiple processes can share an endpoint with `SO_REUSEADDR`. The optional
    /// address and PID filters are supplied by the ALE endpoint-closure indication.
    ///
    /// A connection with PID 0 is treated as an unknown owner and is eligible when
    /// a closure carries a PID. Otherwise a PID-0 connection would remain stale
    /// forever when it was created before attribution became available. A missing
    /// local address (WFP `FWP_EMPTY` for a wildcard bind) deliberately means
    /// "all local addresses", leaving the PID as the disambiguating field.
    pub fn end_all_on_endpoint(
        &mut self,
        key: (IpProtocol, u16),
        local_address: Option<IpAddress>,
        process_id: Option<u64>,
        now: u64,
    ) -> (ended: Option<Vec<Connection<A>>>)
        requires
            old(self).wf(),
        ensures
            final(self).wf(),
            endpoint_ended(
                old(self)@,
                final(self)@,
                group_key(key),
                (Selection::Endpoint { local_address, process_id, untracked_only: false }),
                now,
                ended,
            ),
    {
        self.end_matching_on_endpoint(key, local_address, process_id, false, now)
    }

    /// Ends only fallback entries that lack native endpoint/flow identity.
    ///
    /// A closure carrying an unknown endpoint handle cannot safely end tracked
    /// generations by tuple, because that handle may belong to an older socket.
    /// Untracked entries have no stronger identity available, so the closure's
    /// local endpoint is their authoritative best-effort lifetime signal.
    pub fn end_untracked_on_endpoint(
        &mut self,
        key: (IpProtocol, u16),
        local_address: Option<IpAddress>,
        process_id: Option<u64>,
        now: u64,
    ) -> (ended: Option<Vec<Connection<A>>>)
        requires
            old(self).wf(),
        ensures
            final(self).wf(),
            endpoint_ended(
                old(self)@,
                final(self)@,
                group_key(key),
                (Selection::Endpoint { local_address, process_id, untracked_only: true }),
                now,
                ended,
            ),
    {
        self.end_matching_on_endpoint(key, local_address, process_id, true, now)
    }

    fn end_matching_on_endpoint(
        &mut self,
        key: (IpProtocol, u16),
        local_address: Option<IpAddress>,
        process_id: Option<u64>,
        untracked_only: bool,
        now: u64,
    ) -> (ended: Option<Vec<Connection<A>>>)
        requires
            old(self).wf(),
        ensures
            final(self).wf(),
            endpoint_ended(
                old(self)@,
                final(self)@,
                group_key(key),
                (Selection::Endpoint { local_address, process_id, untracked_only }),
                now,
                ended,
            ),
    {
        proof {
            lemma_integer_keys();
            lemma_pair_key::<u16, u16>();
        }
        let ghost m = self@;
        let selection = Selection::Endpoint { local_address, process_id, untracked_only };
        let group: GroupKey = group_index(key);
        match get_mut(&mut self.groups, &group) {
            Some(connections) => {
                let mut ended: Vec<Connection<A>> = Vec::new();
                connections.end_selected(&selection, now, &mut ended);
                proof {
                    lemma_group_applied_keeps(m, group, selection, now);
                    assert(self@ =~= m.insert(group, group_applied(m[group], selection, now)));
                    assert(ended@ =~= selection.reported(group_sequence(m[group]), now));
                }
                Some(ended)
            },
            None => None,
        }
    }

    /// Ends outbound fallback entries not observed for one minute.
    ///
    /// Native endpoint and flow callbacks remain authoritative for tracked state.
    /// Inbound fallbacks are not idle-expired: after ALE authorizes their flow, a
    /// later packet might not revisit ALE and must continue to find cached policy.
    pub fn end_inactive_untracked_connections(&mut self, now: u64) -> (ended: Vec<Connection<A>>)
        requires
            old(self).wf(),
        ensures
            final(self).wf(),
            ({
                let selection = Selection::Idle { cutoff: earlier(now, UNTRACKED_IDLE_TIMEOUT_MS) };
                &&& final(self)@ == map_applied(old(self)@, selection, now)
                &&& ended@ == selection.reported(map_sequence(old(self)@), now)
            }),
    {
        proof {
            lemma_integer_keys();
            lemma_pair_key::<u16, u16>();
        }
        let selection = Selection::Idle { cutoff: now.saturating_sub(UNTRACKED_IDLE_TIMEOUT_MS) };
        let ghost m = self@;
        let ghost before = self.groups@;
        let ghost walks = m.map_values(|g: GroupView<A>| group_sequence(g));
        let mut ended: Vec<Connection<A>> = Vec::new();
        let keys: Vec<GroupKey> = sorted_keys(&self.groups, copy_group);
        let count: usize = keys.len();
        let mut k: usize = 0;
        proof {
            assert(before.dom() =~= m.dom());
            reveal(Seq::filter);
            assert(selection.reported(concat(keys@.take(0), walks), now) =~= Seq::empty());
        }
        while k < count
            invariant
                k <= count == keys@.len(),
                lawful_key::<GroupKey>(),
                keys@.no_duplicates(),
                keys@.to_set() == before.dom(),
                before.dom() == self.groups@.dom(),
                m == before.map_values(|g: RemoteConnections<A>| g@),
                walks == m.map_values(|g: GroupView<A>| group_sequence(g)),
                forall|group: GroupKey| #[trigger]
                    self.groups@.contains_key(group) ==> self.groups@[group].wf(),
                forall|n: int|
                    0 <= n < k ==> (#[trigger] self.groups@[keys@[n]])@ == group_applied(
                        before[keys@[n]]@,
                        selection,
                        now,
                    ),
                forall|n: int|
                    k <= n < count ==> #[trigger] self.groups@[keys@[n]] == before[keys@[n]],
                ended@ == selection.reported(concat(keys@.take(k as int), walks), now),
            decreases count - k,
        {
            let ghost entry = self.groups@;
            proof {
                assert(keys@.to_set().contains(keys@[k as int]));
                assert(entry.contains_key(keys@[k as int]));
                lemma_concat_step(keys@, walks, k as int);
                lemma_reported_add(
                    selection,
                    concat(keys@.take(k as int), walks),
                    walks[keys@[k as int]],
                    now,
                );
            }
            if let Some(connections) = get_mut(&mut self.groups, &keys[k]) {
                connections.end_selected(&selection, now, &mut ended);
            }
            k = k + 1;
            proof {
                assert(self.groups@.dom() =~= before.dom());
                assert forall|n: int| k <= n < count implies #[trigger] self.groups@[keys@[n]]
                    == before[keys@[n]] by {
                    assert(keys@[n] != keys@[k - 1]);
                    assert(entry[keys@[n]] == before[keys@[n]]);
                }
                assert forall|n: int| 0 <= n < k implies (#[trigger] self.groups@[keys@[n]])@
                    == group_applied(before[keys@[n]]@, selection, now) by {
                    if n < k - 1 {
                        assert(keys@[n] != keys@[k - 1]);
                        assert(entry[keys@[n]]@ == group_applied(
                            before[keys@[n]]@,
                            selection,
                            now,
                        ));
                    }
                }
            }
        }
        proof {
            assert(keys@.take(count as int) =~= keys@);
            let after = map_applied(m, selection, now);
            assert forall|group: GroupKey| #[trigger] before.contains_key(group) implies self.groups@[
            group]@ == group_applied(before[group]@, selection, now) by {
                assert(keys@.to_set().contains(group));
                let n = choose|n: int| 0 <= n && n < keys@.len() && keys@[n] == group;
                assert(self.groups@[keys@[n]]@ == group_applied(
                    before[keys@[n]]@,
                    selection,
                    now,
                ));
            }
            assert(self@ =~= after);
            assert forall|group: GroupKey| #[trigger] after.contains_key(group) implies {
                &&& group_wf(after[group])
                &&& after[group].dom() != Set::<EndpointKey<A>>::empty()
                &&& forall|e: EndpointKey<A>, i: int|
                    occupied(after[group], e, i) ==> group_key(
                        (#[trigger] after[group][e][i]).spec_key().spec_small(),
                    ) == group
            } by {
                lemma_group_applied_keeps(m, group, selection, now);
                assert(m.insert(group, group_applied(m[group], selection, now)).contains_key(group));
            }
        }
        ended
    }

    /// Removes ended history after its one-minute late-packet grace period.
    /// Live TCP and UDP entries are retained regardless of inactivity until a
    /// native lifecycle indication ends them, the cache is cleared, or the driver
    /// unloads.
    pub fn clean_ended_connections(&mut self, now: u64)
        requires
            old(self).wf(),
        ensures
            final(self).wf(),
            final(self)@ == map_retained(old(self)@, earlier(now, ENDED_GRACE_MS)),
    {
        proof {
            lemma_integer_keys();
            lemma_pair_key::<u16, u16>();
        }
        let cutoff: u64 = now.saturating_sub(ENDED_GRACE_MS);
        let ghost m = self@;
        let ghost before = self.groups@;
        let keys: Vec<GroupKey> = sorted_keys(&self.groups, copy_group);
        let count: usize = keys.len();
        let mut k: usize = 0;
        while k < count
            invariant
                k <= count == keys@.len(),
                lawful_key::<GroupKey>(),
                keys@.no_duplicates(),
                keys@.to_set() == before.dom(),
                self.groups@.dom().subset_of(before.dom()),
                forall|group: GroupKey| #[trigger]
                    self.groups@.contains_key(group) ==> self.groups@[group].wf(),
                forall|n: int|
                    0 <= n < k ==> cleaned(before, self.groups@, #[trigger] keys@[n], cutoff),
                forall|n: int|
                    k <= n < count ==> untouched(before, self.groups@, #[trigger] keys@[n]),
            decreases count - k,
        {
            let ghost entry = self.groups@;
            proof {
                assert(keys@.to_set().contains(keys@[k as int]));
                assert(untouched(before, entry, keys@[k as int]));
            }
            let mut emptied: bool = false;
            if let Some(connections) = get_mut(&mut self.groups, &keys[k]) {
                connections.retain(cutoff);
                proof {
                    connections.lemma_empty_view();
                }
                emptied = connections.is_empty();
            }
            if emptied {
                self.groups.remove(&keys[k]);
            }
            k = k + 1;
            proof {
                assert forall|n: int| k <= n < count implies untouched(
                    before,
                    self.groups@,
                    #[trigger] keys@[n],
                ) by {
                    assert(keys@[n] != keys@[k - 1]);
                    assert(untouched(before, entry, keys@[n]));
                }
                assert forall|n: int| 0 <= n < k implies cleaned(
                    before,
                    self.groups@,
                    #[trigger] keys@[n],
                    cutoff,
                ) by {
                    if n < k - 1 {
                        assert(keys@[n] != keys@[k - 1]);
                        assert(cleaned(before, entry, keys@[n], cutoff));
                    }
                }
            }
        }
        proof {
            let after = map_retained(m, cutoff);
            assert forall|group: GroupKey| #[trigger] before.contains_key(group) implies cleaned(
                before,
                self.groups@,
                group,
                cutoff,
            ) by {
                assert(keys@.to_set().contains(group));
                let n = choose|n: int| 0 <= n && n < keys@.len() && keys@[n] == group;
                assert(cleaned(before, self.groups@, keys@[n], cutoff));
            }
            assert(self@ =~= after);
            assert forall|group: GroupKey| #[trigger] after.contains_key(group) implies {
                &&& group_wf(after[group])
                &&& after[group].dom() != Set::<EndpointKey<A>>::empty()
                &&& forall|e: EndpointKey<A>, i: int|
                    occupied(after[group], e, i) ==> group_key(
                        (#[trigger] after[group][e][i]).spec_key().spec_small(),
                    ) == group
            } by {
                assert(m.contains_key(group));
                lemma_group_retained_wf(m[group], cutoff);
                assert forall|e: EndpointKey<A>, i: int| occupied(
                    after[group],
                    e,
                    i,
                ) implies group_key((#[trigger] after[group][e][i]).spec_key().spec_small())
                    == group by {
                    let keep = |c: Connection<A>| retained(c, cutoff);
                    let s = m[group][e];
                    lemma_filter_member(s, keep, i);
                    let j = choose|j: int| 0 <= j < s.len() && s[j] == s.filter(keep)[i];
                    assert(occupied(m[group], e, j));
                    assert(group_key(m[group][e][j].spec_key().spec_small()) == group);
                }
            }
        }
    }

    /// Appends the IDs of every live UDP cache instance without refreshing activity.
    ///
    /// Periodic UDP lifecycle cleanup uses this snapshot after taking its endpoint
    /// and flow snapshots. A newly created association therefore cannot be mistaken
    /// for stale state, and inspecting an instance does not postpone its timeout.
    pub fn append_live_udp_instance_ids(&self, instance_ids: &mut Vec<u64>)
        requires
            self.wf(),
        ensures
            final(instance_ids)@ == old(instance_ids)@ + live_udp_ids(map_sequence(self@)),
    {
        proof {
            lemma_integer_keys();
            lemma_pair_key::<u16, u16>();
        }
        let ghost sent = instance_ids@;
        let ghost walks = self@.map_values(|g: GroupView<A>| group_sequence(g));
        let keys: Vec<GroupKey> = sorted_keys(&self.groups, copy_group);
        let count: usize = keys.len();
        let mut k: usize = 0;
        proof {
            assert(self.groups@.dom() =~= self@.dom());
            reveal(Seq::filter);
            assert(live_udp_ids(concat(keys@.take(0), walks)) =~= Seq::empty());
        }
        while k < count
            invariant
                k <= count == keys@.len(),
                self.wf(),
                lawful_key::<GroupKey>(),
                keys@.to_set() == self.groups@.dom(),
                walks == self@.map_values(|g: GroupView<A>| group_sequence(g)),
                instance_ids@ == sent + live_udp_ids(concat(keys@.take(k as int), walks)),
            decreases count - k,
        {
            proof {
                assert(keys@.to_set().contains(keys@[k as int]));
                lemma_concat_step(keys@, walks, k as int);
                lemma_live_udp_ids_add(
                    concat(keys@.take(k as int), walks),
                    walks[keys@[k as int]],
                );
            }
            if let Some(connections) = self.groups.get(&keys[k]) {
                connections.append_live_udp_instance_ids(instance_ids);
            }
            k = k + 1;
        }
        assert(keys@.take(count as int) =~= keys@);
    }

    /// Number of retained connections, live and ended.
    pub fn get_count(&self) -> (n: usize)
        requires
            self.wf(),
        ensures
            n == capped(map_sequence(self@).len() as int),
    {
        self.count(false)
    }

    /// Number of live connections without native lifecycle.
    pub fn get_untracked_count(&self) -> (n: usize)
        requires
            self.wf(),
        ensures
            n == capped(
                map_sequence(self@).filter(|c: Connection<A>| live_untracked(c)).len() as int,
            ),
    {
        self.count(true)
    }

    fn count(&self, untracked_only: bool) -> (n: usize)
        requires
            self.wf(),
        ensures
            n == capped(
                if untracked_only {
                    map_sequence(self@).filter(|c: Connection<A>| live_untracked(c)).len() as int
                } else {
                    map_sequence(self@).len() as int
                },
            ),
    {
        proof {
            lemma_integer_keys();
            lemma_pair_key::<u16, u16>();
        }
        let ghost p = |c: Connection<A>| live_untracked(c);
        let ghost walks = self@.map_values(|g: GroupView<A>| group_sequence(g));
        let keys: Vec<GroupKey> = sorted_keys(&self.groups, copy_group);
        let count: usize = keys.len();
        let mut n: usize = 0;
        let mut k: usize = 0;
        proof {
            assert(self.groups@.dom() =~= self@.dom());
            reveal(Seq::filter);
            assert(concat(keys@.take(0), walks) =~= Seq::empty());
        }
        while k < count
            invariant
                k <= count == keys@.len(),
                self.wf(),
                lawful_key::<GroupKey>(),
                keys@.to_set() == self.groups@.dom(),
                p == (|c: Connection<A>| live_untracked(c)),
                walks == self@.map_values(|g: GroupView<A>| group_sequence(g)),
                n == capped(
                    if untracked_only {
                        concat(keys@.take(k as int), walks).filter(p).len() as int
                    } else {
                        concat(keys@.take(k as int), walks).len() as int
                    },
                ),
            decreases count - k,
        {
            proof {
                assert(keys@.to_set().contains(keys@[k as int]));
                lemma_concat_step(keys@, walks, k as int);
                Seq::filter_distributes_over_add(
                    concat(keys@.take(k as int), walks),
                    walks[keys@[k as int]],
                    p,
                );
            }
            if let Some(connections) = self.groups.get(&keys[k]) {
                n = connections.add_count(n, untracked_only);
            }
            k = k + 1;
        }
        assert(keys@.take(count as int) =~= keys@);
        n
    }
}

fn copy_group(key: &GroupKey) -> (copy: GroupKey)
    ensures
        copy == *key,
{
    (key.0, key.1)
}

/// What ending the selected connections of one group leaves and returns. Without the
/// group there is nothing to return.
pub open spec fn endpoint_ended<A: AddressFamily>(
    before: MapView<A>,
    after: MapView<A>,
    group: GroupKey,
    selection: Selection,
    now: u64,
    ended: Option<Vec<Connection<A>>>,
) -> bool {
    match ended {
        Some(connections) => {
            &&& before.contains_key(group)
            &&& after == before.insert(group, group_applied(before[group], selection, now))
            &&& connections@ == selection.reported(group_sequence(before[group]), now)
        },
        None => !before.contains_key(group) && after == before,
    }
}

spec fn cleaned<A: AddressFamily>(
    before: Map<GroupKey, RemoteConnections<A>>,
    after: Map<GroupKey, RemoteConnections<A>>,
    group: GroupKey,
    cutoff: u64,
) -> bool {
    let kept = group_retained(before[group]@, cutoff);
    &&& after.contains_key(group) == (kept.dom() != Set::<EndpointKey<A>>::empty())
    &&& after.contains_key(group) ==> after[group]@ == kept
}

spec fn untouched<A: AddressFamily>(
    before: Map<GroupKey, RemoteConnections<A>>,
    after: Map<GroupKey, RemoteConnections<A>>,
    group: GroupKey,
) -> bool {
    after.contains_key(group) && after[group] == before[group]
}

impl<A: AddressFamily> RemoteConnections<A> {
    proof fn lemma_empty_view(&self)
        requires
            self.wf(),
        ensures
            (*self is Empty) == (self@.dom() == Set::<EndpointKey<A>>::empty()),
    {
        match self {
            RemoteConnections::Empty => {
                assert(self@.dom() =~= Set::<EndpointKey<A>>::empty());
            },
            RemoteConnections::One(bucket) => {
                assert(self@.dom().contains(endpoint_of(bucket@[0])));
            },
            RemoteConnections::Many(map) => {
                assert(self@.dom() =~= map@.dom());
            },
        }
    }
}

pub proof fn lemma_filter_member<T>(s: Seq<T>, p: spec_fn(T) -> bool, i: int)
    requires
        0 <= i < s.filter(p).len(),
    ensures
        exists|j: int| 0 <= j < s.len() && s[j] == s.filter(p)[i],
        p(s.filter(p)[i]),
    decreases s.len(),
{
    reveal(Seq::filter);
    if s.len() > 0 {
        let rest = s.drop_last();
        if i < rest.filter(p).len() {
            lemma_filter_member(rest, p, i);
            let j = choose|j: int| 0 <= j < rest.len() && rest[j] == rest.filter(p)[i];
            assert(s[j] == s.filter(p)[i]);
        } else {
            assert(s[s.len() - 1] == s.filter(p)[i]);
        }
    }
}

proof fn lemma_group_applied_keeps<A: AddressFamily>(
    m: MapView<A>,
    group: GroupKey,
    selection: Selection,
    now: u64,
)
    requires
        map_wf(m),
        m.contains_key(group),
    ensures
        forall|n: MapView<A>|
            n =~= m.insert(group, group_applied(m[group], selection, now)) ==> #[trigger] map_wf(
                n,
            ),
        map_wf(m.insert(group, group_applied(m[group], selection, now))),
{
    let n = m.insert(group, group_applied(m[group], selection, now));
    lemma_group_applied_wf(m[group], selection, now);
    assert forall|other: GroupKey| #[trigger] n.contains_key(other) implies {
        &&& group_wf(n[other])
        &&& n[other].dom() != Set::<EndpointKey<A>>::empty()
        &&& forall|e: EndpointKey<A>, i: int|
            occupied(n[other], e, i) ==> group_key(
                (#[trigger] n[other][e][i]).spec_key().spec_small(),
            ) == other
    } by {
        assert(m.contains_key(other));
        if other == group {
            assert(n[other].dom() =~= m[other].dom());
            assert forall|e: EndpointKey<A>, i: int| occupied(n[other], e, i) implies group_key(
                (#[trigger] n[other][e][i]).spec_key().spec_small(),
            ) == other by {
                assert(occupied(m[other], e, i));
                assert(group_key(m[other][e][i].spec_key().spec_small()) == other);
            }
        }
    }
}

} // verus!
