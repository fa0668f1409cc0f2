//! Associates one cached TCP connection generation with its WFP endpoint.
//!
//! For an accepted inbound connection, WFP can report a provisional transport
//! endpoint handle at `ALE_AUTH_RECV_ACCEPT` and a different child endpoint handle
//! at `ALE_FLOW_ESTABLISHED`. The parent endpoint and tuple correlate those stages;
//! endpoint closure then consumes the established handle and exact instance ID.

use crate::id_cache::copy_id;
use crate::key::Key;
use crate::key_index::{
    handle_index, index_handle, index_key, indexes_are_injective, key_index, lemma_index_order,
    HandleIndex, KeyIndex,
};
use crate::lists::increasing;
use crate::ordered::{ascending, get_mut, lawful_key, lemma_integer_keys, same_key, sorted_keys};
use crate::lists;
use std::collections::BTreeMap;
use vstd::prelude::*;

verus! {

/// One connection generation and the listener that accepted it.
#[derive(Clone, Copy, Debug, PartialEq, Eq, Structural)]
pub struct TcpEndpointConnection {
    pub key: Key,
    pub parent_endpoint_handle: Option<u64>,
    pub instance_id: u64,
}

/// What an endpoint handle stands for.
#[derive(Clone, Copy, Debug, PartialEq, Eq, Structural)]
pub struct TcpEndpointRecord {
    pub endpoint: TcpEndpointConnection,
    pub established: bool,
    /// When the authorization identity appeared; zero exempts from the timeout.
    pub associated_at_ms: u64,
}

/// An authorization tuple and parent listener, in order.
pub type LookupIndex = (KeyIndex, HandleIndex);

/// The endpoint records by handle.
pub type Endpoints = Map<u64, TcpEndpointRecord>;

/// The index of a tuple and parent listener.
pub open spec fn lookup_index(key: Key, parent: Option<u64>) -> LookupIndex {
    (key_index(key), handle_index(parent))
}

/// The index under which an endpoint's handles are found.
pub open spec fn endpoint_index(endpoint: TcpEndpointConnection) -> LookupIndex {
    lookup_index(endpoint.key, endpoint.parent_endpoint_handle)
}

fn lookup_key(key: &Key, parent: Option<u64>) -> (index: LookupIndex)
    ensures
        index == lookup_index(*key, parent),
{
    (index_key(key), index_handle(parent))
}

/// Most authorization tuples have only one endpoint handle. Keep it inline so
/// indexing a new TCP connection does not also allocate a vector.
pub enum TcpEndpointHandles {
    One(u64),
    Multiple(Vec<u64>),
}

impl TcpEndpointHandles {
    /// The handles in increasing order.
    pub open spec fn view(&self) -> Seq<u64> {
        match self {
            TcpEndpointHandles::One(handle) => seq![*handle],
            TcpEndpointHandles::Multiple(handles) => handles@,
        }
    }

    /// Handles are distinct and in order, and there is at least one.
    pub open spec fn wf(&self) -> bool {
        increasing(self@) && self@.len() > 0
    }

    fn to_vec(&self) -> (handles: Vec<u64>)
        ensures
            handles@ == self@,
    {
        let mut copy: Vec<u64> = Vec::new();
        match self {
            TcpEndpointHandles::One(handle) => {
                copy.push(*handle);
            },
            TcpEndpointHandles::Multiple(handles) => {
                copy.extend_from_slice(handles.as_slice());
            },
        }
        assert(copy@ =~= self@);
        copy
    }

    fn insert(&mut self, handle: u64)
        requires
            old(self).wf(),
        ensures
            final(self).wf(),
            forall|h: u64| #[trigger]
                final(self)@.contains(h) <==> old(self)@.contains(h) || h == handle,
    {
        let ghost before = self@;
        match self {
            TcpEndpointHandles::One(existing) => {
                let previous: u64 = *existing;
                if previous != handle {
                    let mut handles: Vec<u64> = Vec::with_capacity(2);
                    if previous < handle {
                        handles.push(previous);
                        handles.push(handle);
                    } else {
                        handles.push(handle);
                        handles.push(previous);
                    }
                    proof {
                        assert(handles@[0] == previous || handles@[0] == handle);
                        assert(handles@[1] == previous || handles@[1] == handle);
                        assert(before[0] == previous);
                    }
                    *self = TcpEndpointHandles::Multiple(handles);
                    assert forall|h: u64| #[trigger] self@.contains(h) <==> before.contains(h) || h
                        == handle by {
                        assert(self@.len() == 2);
                        if h == previous || h == handle {
                            if previous < handle {
                                assert(self@[if h == previous {
                                    0
                                } else {
                                    1
                                }] == h);
                            } else {
                                assert(self@[if h == previous {
                                    1
                                } else {
                                    0
                                }] == h);
                            }
                        }
                    }
                } else {
                    assert(before[0] == handle);
                }
            },
            TcpEndpointHandles::Multiple(handles) => {
                lists::insert(handles, handle);
                proof {
                    let after = handles@;
                    assert(after.to_set().contains(handle));
                    assert forall|h: u64| #[trigger] after.contains(h) <==> before.contains(h) || h
                        == handle by {
                        assert(after.to_set().contains(h) <==> before.to_set().insert(
                            handle,
                        ).contains(h));
                    }
                }
            },
        }
    }

    /// Removes a handle and returns whether the bucket became empty; a sole inline
    /// handle stays in place.
    fn remove(&mut self, handle: u64) -> (empty: bool)
        requires
            old(self).wf(),
        ensures
            empty == forall|h: u64| #[trigger] old(self)@.contains(h) ==> h == handle,
            !empty ==> final(self).wf(),
            !empty ==> forall|h: u64| #[trigger]
                final(self)@.contains(h) <==> old(self)@.contains(h) && h != handle,
    {
        let ghost before = self@;
        match self {
            TcpEndpointHandles::One(existing) => {
                assert(before[0] == *existing);
                assert(before.contains(*existing));
                *existing == handle
            },
            TcpEndpointHandles::Multiple(handles) => {
                lists::remove(handles, handle);
                proof {
                    let after = handles@;
                    assert forall|h: u64| #[trigger] after.contains(h) <==> before.contains(h) && h
                        != handle by {
                        assert(after.to_set().contains(h) <==> before.to_set().remove(
                            handle,
                        ).contains(h));
                    }
                    if after.len() > 0 {
                        assert(after.contains(after[0]));
                        assert(before.contains(after[0]));
                    } else {
                        assert forall|h: u64| #[trigger] before.contains(h) implies h == handle by {
                            assert(after.contains(h) <==> before.contains(h) && h != handle);
                        }
                    }
                }
                if handles.len() == 0 {
                    return true;
                }
                if handles.len() == 1 {
                    let remaining: u64 = handles[0];
                    let ghost after = handles@;
                    *self = TcpEndpointHandles::One(remaining);
                    assert(self@ =~= after);
                }
                false
            },
        }
    }
}

spec fn indexed(lookup: Map<LookupIndex, TcpEndpointHandles>, index: LookupIndex, h: u64) -> bool {
    lookup.contains_key(index) && lookup[index]@.contains(h)
}

spec fn buckets_wf(lookup: Map<LookupIndex, TcpEndpointHandles>) -> bool {
    forall|index: LookupIndex| #[trigger] lookup.contains_key(index) ==> lookup[index].wf()
}

spec fn lookup_exact(
    endpoints: Endpoints,
    lookup: Map<LookupIndex, TcpEndpointHandles>,
) -> bool {
    forall|index: LookupIndex, h: u64| #[trigger]
        indexed(lookup, index, h) <==> endpoints.contains_key(h) && endpoint_index(
            endpoints[h].endpoint,
        ) == index
}

fn add_lookup_handle(
    lookup: &mut BTreeMap<LookupIndex, TcpEndpointHandles>,
    index: LookupIndex,
    endpoint_handle: u64,
)
    requires
        buckets_wf(old(lookup)@),
    ensures
        buckets_wf(final(lookup)@),
        forall|i: LookupIndex, h: u64| #[trigger]
            indexed(final(lookup)@, i, h) <==> indexed(old(lookup)@, i, h) || (i == index && h
                == endpoint_handle),
{
    proof {
        lemma_index_order();
    }
    let ghost before = lookup@;
    match get_mut(lookup, &index) {
        Some(handles) => {
            handles.insert(endpoint_handle);
            proof {
                let after = lookup@;
                assert forall|i: LookupIndex, h: u64| #[trigger] indexed(after, i, h) <==> indexed(
                    before,
                    i,
                    h,
                ) || (i == index && h == endpoint_handle) by {
                    if i == index {
                        assert(after[i]@.contains(h) <==> before[i]@.contains(h) || h
                            == endpoint_handle);
                    }
                }
            }
            return;
        },
        None => {},
    }
    lookup.insert(index, TcpEndpointHandles::One(endpoint_handle));
    proof {
        let after = lookup@;
        assert forall|i: LookupIndex, h: u64| #[trigger] indexed(after, i, h) <==> indexed(
            before,
            i,
            h,
        ) || (i == index && h == endpoint_handle) by {
            if i == index {
                assert(after[i]@[0] == endpoint_handle);
                assert(after[i]@.len() == 1);
            }
        }
    }
}

fn remove_lookup_handle(
    lookup: &mut BTreeMap<LookupIndex, TcpEndpointHandles>,
    index: LookupIndex,
    endpoint_handle: u64,
)
    requires
        buckets_wf(old(lookup)@),
    ensures
        buckets_wf(final(lookup)@),
        forall|i: LookupIndex, h: u64| #[trigger]
            indexed(final(lookup)@, i, h) <==> indexed(old(lookup)@, i, h) && !(i == index && h
                == endpoint_handle),
{
    proof {
        lemma_index_order();
    }
    let ghost before = lookup@;
    let mut emptied: bool = false;
    if let Some(handles) = get_mut(lookup, &index) {
        emptied = handles.remove(endpoint_handle);
    }
    if emptied {
        lookup.remove(&index);
    }
    proof {
        let after = lookup@;
        assert forall|i: LookupIndex, h: u64| #[trigger] indexed(after, i, h) <==> indexed(
            before,
            i,
            h,
        ) && !(i == index && h == endpoint_handle) by {
            if i == index && before.contains_key(i) {
                if emptied {
                    if before[i]@.contains(h) {
                        assert(h == endpoint_handle);
                    }
                } else {
                    assert(after[i]@.contains(h) <==> before[i]@.contains(h) && h
                        != endpoint_handle);
                }
            }
        }
    }
}

/// Endpoint identities by handle.
pub struct TcpEndpointCache {
    endpoints: BTreeMap<u64, TcpEndpointRecord>,
    /// Endpoint handles ordered by authorization tuple and parent listener.
    ///
    /// FLOW_ESTABLISHED normally resolves one of these small buckets. Keeping
    /// this reverse index avoids walking every endpoint belonging to unrelated
    /// connections.
    lookup: BTreeMap<LookupIndex, TcpEndpointHandles>,
}

/// The records without those of one connection generation.
pub open spec fn without_aliases(endpoints: Endpoints, endpoint: TcpEndpointConnection) -> Endpoints {
    Map::new(
        |h: u64| endpoints.contains_key(h) && endpoints[h].endpoint != endpoint,
        |h: u64| endpoints[h],
    )
}

/// Some handle of the connection generation stands for its established flow.
pub open spec fn is_established(endpoints: Endpoints, endpoint: TcpEndpointConnection) -> bool {
    exists|h: u64| #[trigger]
        endpoints.contains_key(h) && endpoints[h].endpoint == endpoint && endpoints[h].established
}

/// What associating a handle leaves and returns.
pub open spec fn associated(
    before: Endpoints,
    after: Endpoints,
    handle: u64,
    endpoint: TcpEndpointConnection,
    at: u64,
    accepted: bool,
) -> bool {
    if handle == 0 || endpoint.instance_id == 0 {
        !accepted && after == before
    } else if before.contains_key(handle) {
        let existing = before[handle].endpoint;
        if existing.key != endpoint.key || existing.instance_id != endpoint.instance_id {
            !accepted && after == before
        } else {
            match (existing.parent_endpoint_handle, endpoint.parent_endpoint_handle) {
                (Some(a), Some(b)) => accepted == (a == b) && after == before,
                (None, Some(_)) => accepted && after == before.insert(
                    handle,
                    TcpEndpointRecord { endpoint, ..before[handle] },
                ),
                _ => accepted && after == before,
            }
        }
    } else {
        accepted && after == before.insert(
            handle,
            TcpEndpointRecord {
                endpoint,
                established: is_established(before, endpoint),
                associated_at_ms: at,
            },
        )
    }
}

/// What binding a handle to an established flow leaves and returns.
pub open spec fn rebound(
    before: Endpoints,
    after: Endpoints,
    handle: u64,
    endpoint: TcpEndpointConnection,
    accepted: bool,
) -> bool {
    &&& accepted == (handle != 0 && endpoint.instance_id != 0 && (before.contains_key(handle)
        ==> before[handle].endpoint == endpoint))
    &&& after == if accepted {
        without_aliases(before, endpoint).insert(
            handle,
            TcpEndpointRecord { endpoint, established: true, associated_at_ms: 0 },
        )
    } else {
        before
    }
}

/// The record's authorization was not followed by an established flow in time.
pub open spec fn overdue(record: TcpEndpointRecord, cutoff_ms: u64) -> bool {
    !record.established && record.associated_at_ms != 0 && record.associated_at_ms <= cutoff_ms
}

/// The position of a connection generation in the order of expiry reports.
pub open spec fn generation_index(endpoint: TcpEndpointConnection) -> (LookupIndex, u64) {
    (endpoint_index(endpoint), endpoint.instance_id)
}

impl TcpEndpointCache {
    /// The records by handle.
    pub closed spec fn view(&self) -> Endpoints {
        self.endpoints@
    }

    /// The reverse index holds exactly the handles in use, each under its tuple and
    /// parent listener.
    pub closed spec fn wf(&self) -> bool {
        buckets_wf(self.lookup@) && lookup_exact(self.endpoints@, self.lookup@)
    }

    /// Creates an empty cache.
    pub fn new() -> (cache: Self)
        ensures
            cache.wf(),
            cache@ == Endpoints::empty(),
    {
        TcpEndpointCache { endpoints: BTreeMap::new(), lookup: BTreeMap::new() }
    }

    fn handles(&self, key: &Key, parent: Option<u64>) -> (handles: Vec<u64>)
        requires
            self.wf(),
        ensures
            increasing(handles@),
            forall|h: u64| #[trigger]
                handles@.contains(h) <==> self@.contains_key(h) && self@[h].endpoint.key == *key
                    && self@[h].endpoint.parent_endpoint_handle == parent,
    {
        proof {
            lemma_index_order();
        }
        let index: LookupIndex = lookup_key(key, parent);
        let handles: Vec<u64> = match self.lookup.get(&index) {
            Some(handles) => handles.to_vec(),
            None => Vec::new(),
        };
        proof {
            assert forall|h: u64| #[trigger] handles@.contains(h) <==> self@.contains_key(h)
                && self@[h].endpoint.key == *key && self@[h].endpoint.parent_endpoint_handle
                == parent by {
                assert(indexed(self.lookup@, index, h) <==> handles@.contains(h));
                if self@.contains_key(h) {
                    indexes_are_injective(
                        self@[h].endpoint.key,
                        *key,
                        self@[h].endpoint.parent_endpoint_handle,
                        parent,
                    );
                }
            }
        }
        handles
    }

    /// Removes every alias for one exact connection generation without scanning
    /// endpoint handles belonging to other tuples.
    fn remove_endpoint_aliases(&mut self, endpoint: TcpEndpointConnection)
        requires
            old(self).wf(),
        ensures
            final(self).wf(),
            final(self)@ == without_aliases(old(self)@, endpoint),
    {
        proof {
            lemma_integer_keys();
        }
        let ghost before = self.endpoints@;
        let handles: Vec<u64> = self.handles(&endpoint.key, endpoint.parent_endpoint_handle);
        let index: LookupIndex = lookup_key(&endpoint.key, endpoint.parent_endpoint_handle);
        let count: usize = handles.len();
        let mut n: usize = 0;
        while n < count
            invariant
                n <= count == handles@.len(),
                lawful_key::<u64>(),
                index == endpoint_index(endpoint),
                buckets_wf(self.lookup@),
                lookup_exact(self.endpoints@, self.lookup@),
                increasing(handles@),
                forall|h: u64| #[trigger]
                    self.endpoints@.contains_key(h) <==> before.contains_key(h) && !(
                    handles@.take(n as int).contains(h) && before[h].endpoint == endpoint),
                forall|h: u64| #[trigger]
                    self.endpoints@.contains_key(h) ==> self.endpoints@[h] == before[h],
            decreases count - n,
        {
            let handle: u64 = handles[n];
            let ghost current = self.endpoints@;
            let remove: bool = match self.endpoints.get(&handle) {
                Some(record) => record.endpoint == endpoint,
                None => false,
            };
            if remove {
                self.endpoints.remove(&handle);
                remove_lookup_handle(
                    &mut self.lookup,
                    lookup_key(&endpoint.key, endpoint.parent_endpoint_handle),
                    handle,
                );
            }
            proof {
                assert(handles@.take(n + 1) =~= handles@.take(n as int).push(handle));
                assert forall|h: u64| handles@.take(n + 1).contains(h) <==> handles@.take(
                    n as int,
                ).contains(h) || h == handle by {
                    let prior = handles@.take(n as int);
                    if prior.contains(h) {
                        let m = choose|m: int| 0 <= m < prior.len() && prior[m] == h;
                        assert(prior.push(handle)[m] == h);
                    }
                    if h == handle {
                        assert(prior.push(handle)[n as int] == h);
                    }
                }
            }
            n = n + 1;
        }
        proof {
            assert(handles@.take(count as int) =~= handles@);
            assert(self.endpoints@ =~= without_aliases(before, endpoint));
        }
    }

    /// Associates an endpoint without a timeout timestamp. This is retained for
    /// callers and tests that do not need stale-unestablished cleanup metadata.
    pub fn associate_instance(
        &mut self,
        endpoint_handle: u64,
        key: Key,
        parent_endpoint_handle: Option<u64>,
        instance_id: u64,
    ) -> (accepted: bool)
        requires
            old(self).wf(),
        ensures
            final(self).wf(),
            associated(
                old(self)@,
                final(self)@,
                endpoint_handle,
                TcpEndpointConnection { key, parent_endpoint_handle, instance_id },
                0,
                accepted,
            ),
    {
        self.associate_instance_at(endpoint_handle, key, parent_endpoint_handle, instance_id, 0)
    }

    /// Associates one exact live connection-cache generation with its WFP endpoint
    /// and records when its authorization identity appeared.
    ///
    /// Reauthorization can repeat the same association while omitting optional
    /// parent-endpoint metadata. A different connection for an already tracked
    /// handle is rejected: replacing it could let an old closure consume a newer
    /// connection generation.
    ///
    /// An `associated_at_ms` of zero exempts the entry from timeout-based cleanup;
    /// such entries are retained until explicitly removed via `take()` or `clear()`.
    pub fn associate_instance_at(
        &mut self,
        endpoint_handle: u64,
        key: Key,
        parent_endpoint_handle: Option<u64>,
        instance_id: u64,
        associated_at_ms: u64,
    ) -> (accepted: bool)
        requires
            old(self).wf(),
        ensures
            final(self).wf(),
            associated(
                old(self)@,
                final(self)@,
                endpoint_handle,
                TcpEndpointConnection { key, parent_endpoint_handle, instance_id },
                associated_at_ms,
                accepted,
            ),
    {
        proof {
            lemma_integer_keys();
        }
        if endpoint_handle == 0 || instance_id == 0 {
            return false;
        }
        let endpoint = TcpEndpointConnection { key, parent_endpoint_handle, instance_id };
        let existing: Option<TcpEndpointRecord> = match self.endpoints.get(&endpoint_handle) {
            Some(record) => Some(*record),
            None => None,
        };
        if let Some(record) = existing {
            if record.endpoint.key != key || record.endpoint.instance_id != instance_id {
                return false;
            }
            match (record.endpoint.parent_endpoint_handle, parent_endpoint_handle) {
                (Some(existing_parent), Some(parent)) => {
                    return existing_parent == parent;
                },
                (None, Some(_)) => {
                    self.endpoints.insert(
                        endpoint_handle,
                        TcpEndpointRecord {
                            endpoint,
                            established: record.established,
                            associated_at_ms: record.associated_at_ms,
                        },
                    );
                    remove_lookup_handle(
                        &mut self.lookup,
                        lookup_key(&key, None),
                        endpoint_handle,
                    );
                    add_lookup_handle(
                        &mut self.lookup,
                        lookup_key(&key, parent_endpoint_handle),
                        endpoint_handle,
                    );
                },
                _ => {},
            }
            return true;
        }
        // A post-establishment reauthorization may expose a new alias. If any
        // existing alias already represents the established flow, preserve that
        // state so cleanup cannot mistake the alias for a pending connection.
        let established: bool = self.alias_established(endpoint);
        self.endpoints.insert(
            endpoint_handle,
            TcpEndpointRecord { endpoint, established, associated_at_ms },
        );
        add_lookup_handle(
            &mut self.lookup,
            lookup_key(&key, parent_endpoint_handle),
            endpoint_handle,
        );
        true
    }

    fn alias_established(&self, endpoint: TcpEndpointConnection) -> (r: bool)
        requires
            self.wf(),
        ensures
            r == is_established(self@, endpoint),
    {
        proof {
            lemma_integer_keys();
        }
        let handles: Vec<u64> = self.handles(&endpoint.key, endpoint.parent_endpoint_handle);
        let count: usize = handles.len();
        let mut n: usize = 0;
        while n < count
            invariant
                n <= count == handles@.len(),
                lawful_key::<u64>(),
                forall|h: u64| #[trigger]
                    handles@.contains(h) <==> self@.contains_key(h) && self@[h].endpoint.key
                        == endpoint.key && self@[h].endpoint.parent_endpoint_handle
                        == endpoint.parent_endpoint_handle,
                forall|m: int|
                    0 <= m < n ==> !(self@.contains_key(#[trigger] handles@[m])
                        && self@[handles@[m]].endpoint == endpoint
                        && self@[handles@[m]].established),
            decreases count - n,
        {
            if let Some(record) = self.endpoints.get(&handles[n]) {
                if record.endpoint == endpoint && record.established {
                    assert(self@.contains_key(handles@[n as int]));
                    return true;
                }
            }
            n = n + 1;
        }
        proof {
            assert forall|h: u64| #[trigger] self@.contains_key(h) implies !(self@[h].endpoint
                == endpoint && self@[h].established) by {
                if self@[h].endpoint == endpoint {
                    assert(handles@.contains(h));
                    let m = choose|m: int| 0 <= m < handles@.len() && handles@[m] == h;
                    assert(self@.contains_key(handles@[m]));
                }
            }
        }
        false
    }

    /// Resolves the live authorization generation corresponding to an established
    /// flow. Matching the parent endpoint as well as the tuple prevents connections
    /// accepted by different listeners from sharing the transition.
    pub fn resolve_live_instance(
        &self,
        key: &Key,
        parent_endpoint_handle: Option<u64>,
        is_live: impl Fn(u64) -> bool,
    ) -> (endpoint: Option<TcpEndpointConnection>)
        requires
            self.wf(),
            forall|id: u64| #[trigger] call_requires(is_live, (id,)),
        ensures
            match endpoint {
                Some(e) => exists|h: u64| #[trigger]
                    self@.contains_key(h) && self@[h].endpoint == e && e.key == *key
                        && e.parent_endpoint_handle == parent_endpoint_handle && call_ensures(
                        is_live,
                        (e.instance_id,),
                        true,
                    ) && forall|lower: u64| #[trigger]
                        self@.contains_key(lower) && lower < h && self@[lower].endpoint.key == *key
                            && self@[lower].endpoint.parent_endpoint_handle
                            == parent_endpoint_handle ==> call_ensures(
                            is_live,
                            (self@[lower].endpoint.instance_id,),
                            false,
                        ),
                None => forall|h: u64| #[trigger]
                    self@.contains_key(h) && self@[h].endpoint.key == *key
                        && self@[h].endpoint.parent_endpoint_handle == parent_endpoint_handle
                        ==> call_ensures(is_live, (self@[h].endpoint.instance_id,), false),
            },
    {
        proof {
            lemma_integer_keys();
        }
        let handles: Vec<u64> = self.handles(key, parent_endpoint_handle);
        let count: usize = handles.len();
        let mut n: usize = 0;
        while n < count
            invariant
                n <= count == handles@.len(),
                lawful_key::<u64>(),
                increasing(handles@),
                forall|id: u64| #[trigger] call_requires(is_live, (id,)),
                forall|h: u64| #[trigger]
                    handles@.contains(h) <==> self@.contains_key(h) && self@[h].endpoint.key == *key
                        && self@[h].endpoint.parent_endpoint_handle == parent_endpoint_handle,
                forall|m: int|
                    0 <= m < n ==> call_ensures(
                        is_live,
                        (self@[#[trigger] handles@[m]].endpoint.instance_id,),
                        false,
                    ),
            decreases count - n,
        {
            assert(handles@.contains(handles@[n as int]));
            if let Some(record) = self.endpoints.get(&handles[n]) {
                if is_live(record.endpoint.instance_id) {
                    proof {
                        let h = handles@[n as int];
                        assert(self@.contains_key(h));
                        assert forall|lower: u64| #[trigger]
                            self@.contains_key(lower) && lower < h && self@[lower].endpoint.key
                                == *key && self@[lower].endpoint.parent_endpoint_handle
                                == parent_endpoint_handle implies call_ensures(
                            is_live,
                            (self@[lower].endpoint.instance_id,),
                            false,
                        ) by {
                            assert(handles@.contains(lower));
                            let m = choose|m: int| 0 <= m < handles@.len() && handles@[m] == lower;
                            assert(m < n);
                            assert(self@[handles@[m]] == self@[lower]);
                        }
                    }
                    return Some(record.endpoint);
                }
            }
            n = n + 1;
        }
        proof {
            assert forall|h: u64| #[trigger]
                self@.contains_key(h) && self@[h].endpoint.key == *key
                    && self@[h].endpoint.parent_endpoint_handle
                    == parent_endpoint_handle implies call_ensures(
                is_live,
                (self@[h].endpoint.instance_id,),
                false,
            ) by {
                assert(handles@.contains(h));
                let m = choose|m: int| 0 <= m < handles@.len() && handles@[m] == h;
                assert(self@[handles@[m]] == self@[h]);
            }
        }
        None
    }

    /// Replaces every provisional/alias handle for a connection generation with
    /// the endpoint handle reported for its established flow.
    pub fn rebind_established(&mut self, endpoint_handle: u64, endpoint: TcpEndpointConnection) -> (
    accepted: bool)
        requires
            old(self).wf(),
        ensures
            final(self).wf(),
            rebound(old(self)@, final(self)@, endpoint_handle, endpoint, accepted),
    {
        proof {
            lemma_integer_keys();
        }
        if endpoint_handle == 0 || endpoint.instance_id == 0 {
            return false;
        }
        if let Some(existing) = self.endpoints.get(&endpoint_handle) {
            if existing.endpoint != endpoint {
                return false;
            }
        }
        self.remove_endpoint_aliases(endpoint);
        self.endpoints.insert(
            endpoint_handle,
            TcpEndpointRecord { endpoint, established: true, associated_at_ms: 0 },
        );
        add_lookup_handle(
            &mut self.lookup,
            lookup_key(&endpoint.key, endpoint.parent_endpoint_handle),
            endpoint_handle,
        );
        true
    }

    /// Consumes the exact connection identity assigned to the closing endpoint.
    /// Every alias of the same generation is removed defensively as well.
    pub fn take(&mut self, endpoint_handle: u64) -> (endpoint: Option<TcpEndpointConnection>)
        requires
            old(self).wf(),
        ensures
            final(self).wf(),
            match endpoint {
                Some(e) => {
                    &&& endpoint_handle != 0
                    &&& old(self)@.contains_key(endpoint_handle)
                    &&& e == old(self)@[endpoint_handle].endpoint
                    &&& final(self)@ == without_aliases(old(self)@, e)
                },
                None => (endpoint_handle == 0 || !old(self)@.contains_key(endpoint_handle))
                    && final(self)@ == old(self)@,
            },
    {
        proof {
            lemma_integer_keys();
        }
        if endpoint_handle == 0 {
            return None;
        }
        let endpoint: TcpEndpointConnection = match self.endpoints.get(&endpoint_handle) {
            Some(record) => record.endpoint,
            None => {
                return None;
            },
        };
        self.remove_endpoint_aliases(endpoint);
        Some(endpoint)
    }

    /// Number of endpoint handles.
    pub fn get_entries_count(&self) -> (n: usize)
        ensures
            n == self@.dom().len(),
    {
        proof {
            lemma_integer_keys();
        }
        self.endpoints.len()
    }

    /// Forgets every endpoint.
    pub fn clear(&mut self)
        requires
            old(self).wf(),
        ensures
            final(self).wf(),
            final(self)@ == Endpoints::empty(),
    {
        self.endpoints.clear();
        self.lookup.clear();
    }
}

/// Connection generations in report order, each once.
pub open spec fn in_report_order(expired: Seq<TcpEndpointConnection>) -> bool {
    ascending(expired.map_values(|e: TcpEndpointConnection| generation_index(e)))
}

fn index_generation(endpoint: &TcpEndpointConnection) -> (index: (LookupIndex, u64))
    ensures
        index == generation_index(*endpoint),
{
    (lookup_key(&endpoint.key, endpoint.parent_endpoint_handle), endpoint.instance_id)
}

fn copy_generation(index: &(LookupIndex, u64)) -> (copy: (LookupIndex, u64))
    ensures
        copy == *index,
{
    *index
}

proof fn lemma_generation_injective(a: TcpEndpointConnection, b: TcpEndpointConnection)
    ensures
        generation_index(a) == generation_index(b) ==> a == b,
{
    indexes_are_injective(a.key, b.key, a.parent_endpoint_handle, b.parent_endpoint_handle);
}

impl TcpEndpointCache {
    fn rebuild_lookup(&mut self)
        ensures
            final(self).wf(),
            final(self)@ == old(self)@,
    {
        proof {
            lemma_integer_keys();
        }
        self.lookup.clear();
        let keys: Vec<u64> = sorted_keys(&self.endpoints, copy_id);
        let count: usize = keys.len();
        let mut n: usize = 0;
        while n < count
            invariant
                n <= count == keys@.len(),
                lawful_key::<u64>(),
                self.endpoints@ == old(self)@,
                keys@.to_set() == self.endpoints@.dom(),
                buckets_wf(self.lookup@),
                forall|index: LookupIndex, h: u64| #[trigger]
                    indexed(self.lookup@, index, h) <==> keys@.take(n as int).contains(h)
                        && endpoint_index(self.endpoints@[h].endpoint) == index,
            decreases count - n,
        {
            let handle: u64 = keys[n];
            proof {
                assert(keys@.to_set().contains(keys@[n as int]));
                let prior = keys@.take(n as int);
                assert(keys@.take(n + 1) =~= prior.push(handle));
                assert forall|h: u64| keys@.take(n + 1).contains(h) <==> prior.contains(h) || h
                    == handle by {
                    if prior.contains(h) {
                        let m = choose|m: int| 0 <= m < prior.len() && prior[m] == h;
                        assert(prior.push(handle)[m] == h);
                    }
                    if h == handle {
                        assert(prior.push(handle)[n as int] == h);
                    }
                }
            }
            let index: Option<LookupIndex> = match self.endpoints.get(&handle) {
                Some(record) => Some(
                    lookup_key(&record.endpoint.key, record.endpoint.parent_endpoint_handle),
                ),
                None => None,
            };
            if let Some(index) = index {
                add_lookup_handle(&mut self.lookup, index, handle);
            }
            n = n + 1;
        }
        proof {
            assert(keys@.take(count as int) =~= keys@);
            assert forall|h: u64| #[trigger] keys@.contains(h) <==> self.endpoints@.contains_key(
                h,
            ) by {
                assert(keys@.to_set().contains(h) <==> self.endpoints@.dom().contains(h));
            }
        }
    }

    /// Removes unestablished endpoint generations that have exceeded `cutoff_ms`.
    /// All aliases of an expired generation are removed together, so a later
    /// closure cannot retain a provisional handle after the connection is retired.
    pub fn take_unestablished_before(
        &mut self,
        cutoff_ms: u64,
        should_expire: impl Fn(&TcpEndpointConnection) -> bool,
    ) -> (expired: Vec<TcpEndpointConnection>)
        requires
            old(self).wf(),
            forall|e: TcpEndpointConnection| #[trigger] call_requires(should_expire, (&e,)),
        ensures
            final(self).wf(),
            in_report_order(expired@),
            forall|e: TcpEndpointConnection| #[trigger]
                expired@.contains(e) ==> call_ensures(should_expire, (&e,), true) && exists|h: u64|
                    #[trigger]
                    old(self)@.contains_key(h) && old(self)@[h].endpoint == e && overdue(
                        old(self)@[h],
                        cutoff_ms,
                    ),
            forall|h: u64| #[trigger]
                old(self)@.contains_key(h) && overdue(old(self)@[h], cutoff_ms)
                    && !expired@.contains(old(self)@[h].endpoint) ==> call_ensures(
                    should_expire,
                    (&old(self)@[h].endpoint,),
                    false,
                ),
            final(self)@ == Map::new(
                |h: u64| old(self)@.contains_key(h) && !expired@.contains(old(self)@[h].endpoint),
                |h: u64| old(self)@[h],
            ),
    {
        proof {
            lemma_integer_keys();
            lemma_index_order();
        }
        let ghost before = self.endpoints@;
        let mut found: BTreeMap<(LookupIndex, u64), TcpEndpointConnection> = BTreeMap::new();
        let keys: Vec<u64> = sorted_keys(&self.endpoints, copy_id);
        let count: usize = keys.len();
        let mut n: usize = 0;
        while n < count
            invariant
                n <= count == keys@.len(),
                lawful_key::<u64>(),
                lawful_key::<(LookupIndex, u64)>(),
                self.endpoints@ == before,
                buckets_wf(self.lookup@),
                lookup_exact(self.endpoints@, self.lookup@),
                keys@.to_set() == before.dom(),
                forall|e: TcpEndpointConnection| #[trigger] call_requires(should_expire, (&e,)),
                forall|i: (LookupIndex, u64)| #[trigger]
                    found@.contains_key(i) ==> generation_index(found@[i]) == i && call_ensures(
                        should_expire,
                        (&found@[i],),
                        true,
                    ) && exists|h: u64| #[trigger]
                        before.contains_key(h) && before[h].endpoint == found@[i] && overdue(
                            before[h],
                            cutoff_ms,
                        ),
                forall|m: int|
                    0 <= m < n && overdue(before[#[trigger] keys@[m]], cutoff_ms)
                        && !found@.contains_key(generation_index(before[keys@[m]].endpoint))
                        ==> call_ensures(should_expire, (&before[keys@[m]].endpoint,), false),
            decreases count - n,
        {
            proof {
                assert(keys@.to_set().contains(keys@[n as int]));
                assert(before.contains_key(keys@[n as int]));
            }
            if let Some(record) = self.endpoints.get(&keys[n]) {
                if !record.established && record.associated_at_ms != 0 && record.associated_at_ms
                    <= cutoff_ms {
                    let ghost prior = found@;
                    if should_expire(&record.endpoint) {
                        found.insert(index_generation(&record.endpoint), record.endpoint);
                        proof {
                            assert forall|i: (LookupIndex, u64)| #[trigger]
                                found@.contains_key(i) implies generation_index(found@[i]) == i
                                && call_ensures(should_expire, (&found@[i],), true) && exists|h: u64|
                                #[trigger]
                                before.contains_key(h) && before[h].endpoint == found@[i]
                                    && overdue(before[h], cutoff_ms) by {
                                if i != generation_index(record.endpoint) {
                                    assert(prior.contains_key(i));
                                } else {
                                    assert(before.contains_key(keys@[n as int]));
                                }
                            }
                            assert forall|m: int|
                                0 <= m < n + 1 && overdue(before[#[trigger] keys@[m]], cutoff_ms)
                                    && !found@.contains_key(
                                    generation_index(before[keys@[m]].endpoint),
                                ) implies call_ensures(
                                should_expire,
                                (&before[keys@[m]].endpoint,),
                                false,
                            ) by {
                                assert(!prior.contains_key(
                                    generation_index(before[keys@[m]].endpoint),
                                ));
                            }
                        }
                    }
                }
            }
            n = n + 1;
        }
        let expired: Vec<TcpEndpointConnection> = Self::in_order(&found);
        proof {
            assert forall|e: TcpEndpointConnection| #[trigger] expired@.contains(e)
                <==> found@.contains_key(generation_index(e)) && found@[generation_index(e)]
                == e by {}
            assert forall|e: TcpEndpointConnection| found@.contains_key(
                generation_index(e),
            ) implies #[trigger] expired@.contains(e) by {
                lemma_generation_injective(found@[generation_index(e)], e);
            }
            assert forall|h: u64| #[trigger]
                before.contains_key(h) && overdue(before[h], cutoff_ms) && !expired@.contains(
                    before[h].endpoint,
                ) implies call_ensures(should_expire, (&before[h].endpoint,), false) by {
                assert(keys@.to_set().contains(h));
                let m = choose|m: int| 0 <= m < keys@.len() && keys@[m] == h;
                assert(before[keys@[m]] == before[h]);
                if found@.contains_key(generation_index(before[h].endpoint)) {
                    assert(expired@.contains(before[h].endpoint));
                }
            }
        }
        if expired.len() > 0 {
            self.drop_generations(&found, &keys);
            self.rebuild_lookup();
            assert(self.endpoints@ =~= Map::new(
                |h: u64| before.contains_key(h) && !expired@.contains(before[h].endpoint),
                |h: u64| before[h],
            ));
        } else {
            assert(self.endpoints@ =~= Map::new(
                |h: u64| before.contains_key(h) && !expired@.contains(before[h].endpoint),
                |h: u64| before[h],
            ));
        }
        expired
    }

    fn in_order(found: &BTreeMap<(LookupIndex, u64), TcpEndpointConnection>) -> (list: Vec<
        TcpEndpointConnection,
    >)
        requires
            forall|i: (LookupIndex, u64)| #[trigger]
                found@.contains_key(i) ==> generation_index(found@[i]) == i,
        ensures
            in_report_order(list@),
            forall|e: TcpEndpointConnection| #[trigger]
                list@.contains(e) <==> found@.contains_key(generation_index(e))
                    && found@[generation_index(e)] == e,
    {
        proof {
            lemma_index_order();
        }
        let keys: Vec<(LookupIndex, u64)> = sorted_keys(found, copy_generation);
        let mut list: Vec<TcpEndpointConnection> = Vec::new();
        let count: usize = keys.len();
        let mut n: usize = 0;
        while n < count
            invariant
                n <= count == keys@.len(),
                lawful_key::<(LookupIndex, u64)>(),
                keys@.to_set() == found@.dom(),
                forall|i: (LookupIndex, u64)| #[trigger]
                    found@.contains_key(i) ==> generation_index(found@[i]) == i,
                list@.len() == n,
                forall|m: int| 0 <= m < n ==> #[trigger] list@[m] == found@[keys@[m]],
            decreases count - n,
        {
            assert(keys@.to_set().contains(keys@[n as int]));
            if let Some(endpoint) = found.get(&keys[n]) {
                list.push(*endpoint);
            }
            n = n + 1;
        }
        proof {
            assert forall|m: int| 0 <= m < list@.len() implies generation_index(#[trigger] list@[m])
                == keys@[m] by {
                assert(keys@.to_set().contains(keys@[m]));
                assert(found@.contains_key(keys@[m]));
            }
            assert(list@.map_values(|e: TcpEndpointConnection| generation_index(e)) =~= keys@);
            assert forall|e: TcpEndpointConnection| #[trigger]
                list@.contains(e) <==> found@.contains_key(generation_index(e))
                    && found@[generation_index(e)] == e by {
                if list@.contains(e) {
                    let m = choose|m: int| 0 <= m < list@.len() && list@[m] == e;
                    assert(generation_index(list@[m]) == keys@[m]);
                    assert(keys@.to_set().contains(keys@[m]));
                }
                if found@.contains_key(generation_index(e)) && found@[generation_index(e)] == e {
                    assert(keys@.to_set().contains(generation_index(e)));
                    let m = choose|m: int|
                        0 <= m < keys@.len() && keys@[m] == generation_index(e);
                    assert(list@[m] == e);
                }
            }
        }
        list
    }

    fn drop_generations(
        &mut self,
        found: &BTreeMap<(LookupIndex, u64), TcpEndpointConnection>,
        keys: &Vec<u64>,
    )
        requires
            keys@.to_set() == old(self)@.dom(),
        ensures
            final(self)@ == Map::new(
                |h: u64|
                    old(self)@.contains_key(h) && !found@.contains_key(
                        generation_index(old(self)@[h].endpoint),
                    ),
                |h: u64| old(self)@[h],
            ),
    {
        proof {
            lemma_integer_keys();
            lemma_index_order();
        }
        let ghost before = self.endpoints@;
        let count: usize = keys.len();
        let mut n: usize = 0;
        while n < count
            invariant
                n <= count == keys@.len(),
                lawful_key::<u64>(),
                lawful_key::<(LookupIndex, u64)>(),
                forall|h: u64| #[trigger]
                    self.endpoints@.contains_key(h) <==> before.contains_key(h) && !(
                    keys@.take(n as int).contains(h) && found@.contains_key(
                        generation_index(before[h].endpoint),
                    )),
                forall|h: u64| #[trigger]
                    self.endpoints@.contains_key(h) ==> self.endpoints@[h] == before[h],
            decreases count - n,
        {
            let handle: u64 = keys[n];
            let drop_it: bool = match self.endpoints.get(&handle) {
                Some(record) => found.contains_key(&index_generation(&record.endpoint)),
                None => false,
            };
            if drop_it {
                self.endpoints.remove(&handle);
            }
            proof {
                let prior = keys@.take(n as int);
                assert(keys@.take(n + 1) =~= prior.push(handle));
                assert forall|h: u64| keys@.take(n + 1).contains(h) <==> prior.contains(h) || h
                    == handle by {
                    if prior.contains(h) {
                        let m = choose|m: int| 0 <= m < prior.len() && prior[m] == h;
                        assert(prior.push(handle)[m] == h);
                    }
                    if h == handle {
                        assert(prior.push(handle)[n as int] == h);
                    }
                }
            }
            n = n + 1;
        }
        proof {
            assert(keys@.take(count as int) =~= keys@);
            assert forall|h: u64| #[trigger] before.contains_key(h) implies keys@.contains(h) by {
                assert(keys@.to_set().contains(h));
            }
            assert(self.endpoints@ =~= Map::new(
                |h: u64|
                    before.contains_key(h) && !found@.contains_key(
                        generation_index(before[h].endpoint),
                    ),
                |h: u64| before[h],
            ));
        }
    }
}

/// Consuming an endpoint leaves no handle that still stands for its connection
/// generation, and none of another generation is touched.
pub proof fn taken_generation_is_gone(endpoints: Endpoints, endpoint: TcpEndpointConnection, h: u64)
    ensures
        without_aliases(endpoints, endpoint).contains_key(h) ==> without_aliases(
            endpoints,
            endpoint,
        )[h].endpoint != endpoint,
        endpoints.contains_key(h) && endpoints[h].endpoint != endpoint ==> without_aliases(
            endpoints,
            endpoint,
        ).contains_key(h) && without_aliases(endpoints, endpoint)[h] == endpoints[h],
{
}

/// Once its flow is established, exactly the established handle stands for a connection
/// generation, and no timeout applies to it.
pub proof fn established_handle_is_the_only_one(
    before: Endpoints,
    after: Endpoints,
    handle: u64,
    endpoint: TcpEndpointConnection,
    h: u64,
    cutoff_ms: u64,
)
    requires
        rebound(before, after, handle, endpoint, true),
    ensures
        after.contains_key(h) && after[h].endpoint == endpoint <==> h == handle,
        !overdue(after[handle], cutoff_ms),
{
}

/// An alias that appears after establishment is established, too, so no timeout can
/// take it for a pending connection.
pub proof fn late_alias_is_established(
    before: Endpoints,
    after: Endpoints,
    handle: u64,
    endpoint: TcpEndpointConnection,
    at: u64,
    cutoff_ms: u64,
)
    requires
        !before.contains_key(handle),
        is_established(before, endpoint),
        associated(before, after, handle, endpoint, at, true),
    ensures
        after.contains_key(handle),
        !overdue(after[handle], cutoff_ms),
{
}

fn copy_lookup(index: &LookupIndex) -> (copy: LookupIndex)
    ensures
        copy == *index,
{
    *index
}

fn holds_handle(handles: &Vec<u64>, handle: u64) -> (r: bool)
    ensures
        r == handles@.contains(handle),
{
    let count: usize = handles.len();
    let mut n: usize = 0;
    while n < count
        invariant
            n <= count == handles@.len(),
            forall|m: int| 0 <= m < n ==> handles@[m] != handle,
        decreases count - n,
    {
        if handles[n] == handle {
            return true;
        }
        n = n + 1;
    }
    false
}

impl TcpEndpointCache {
    /// The reverse index holds exactly the handles in use.
    pub closed spec fn lookup_consistent(&self) -> bool {
        lookup_exact(self.endpoints@, self.lookup@)
    }

    /// Checks the reverse index against the endpoints.
    pub fn lookup_is_consistent(&self) -> (r: bool)
        ensures
            r == self.lookup_consistent(),
            self.wf() ==> r,
    {
        self.indexed_handles_resolve() && self.endpoints_are_indexed()
    }

    fn indexed_handles_resolve(&self) -> (r: bool)
        ensures
            r == forall|index: LookupIndex, h: u64| #[trigger]
                indexed(self.lookup@, index, h) ==> self.endpoints@.contains_key(h)
                    && endpoint_index(self.endpoints@[h].endpoint) == index,
    {
        proof {
            lemma_integer_keys();
            lemma_index_order();
        }
        let keys: Vec<LookupIndex> = sorted_keys(&self.lookup, copy_lookup);
        let count: usize = keys.len();
        let mut n: usize = 0;
        while n < count
            invariant
                n <= count == keys@.len(),
                lawful_key::<u64>(),
                lawful_key::<LookupIndex>(),
                keys@.to_set() == self.lookup@.dom(),
                forall|m: int, h: u64|
                    0 <= m < n && #[trigger] indexed(self.lookup@, keys@[m], h)
                        ==> self.endpoints@.contains_key(h) && endpoint_index(
                        self.endpoints@[h].endpoint,
                    ) == keys@[m],
            decreases count - n,
        {
            assert(keys@.to_set().contains(keys@[n as int]));
            if let Some(bucket) = self.lookup.get(&keys[n]) {
                let handles: Vec<u64> = bucket.to_vec();
                let total: usize = handles.len();
                let mut i: usize = 0;
                while i < total
                    invariant
                        n < keys@.len(),
                        i <= total == handles@.len(),
                        lawful_key::<u64>(),
                        lawful_key::<LookupIndex>(),
                        self.lookup@.contains_key(keys@[n as int]),
                        handles@ == self.lookup@[keys@[n as int]]@,
                        forall|j: int|
                            0 <= j < i ==> self.endpoints@.contains_key(#[trigger] handles@[j])
                                && endpoint_index(self.endpoints@[handles@[j]].endpoint)
                                == keys@[n as int],
                    decreases total - i,
                {
                    let resolves: bool = match self.endpoints.get(&handles[i]) {
                        Some(record) => same_key(
                            &lookup_key(
                                &record.endpoint.key,
                                record.endpoint.parent_endpoint_handle,
                            ),
                            &keys[n],
                        ),
                        None => false,
                    };
                    if !resolves {
                        assert(handles@.contains(handles@[i as int]));
                        assert(indexed(self.lookup@, keys@[n as int], handles@[i as int]));
                        return false;
                    }
                    i = i + 1;
                }
                assert forall|h: u64| #[trigger]
                    indexed(self.lookup@, keys@[n as int], h) implies self.endpoints@.contains_key(
                    h,
                ) && endpoint_index(self.endpoints@[h].endpoint) == keys@[n as int] by {
                    let j = choose|j: int| 0 <= j < handles@.len() && handles@[j] == h;
                    assert(self.endpoints@.contains_key(handles@[j]));
                }
            }
            n = n + 1;
        }
        proof {
            assert forall|index: LookupIndex, h: u64| #[trigger]
                indexed(self.lookup@, index, h) implies self.endpoints@.contains_key(h)
                && endpoint_index(self.endpoints@[h].endpoint) == index by {
                assert(keys@.to_set().contains(index));
                let m = choose|m: int| 0 <= m < keys@.len() && keys@[m] == index;
                assert(indexed(self.lookup@, keys@[m], h));
            }
        }
        true
    }

    fn endpoints_are_indexed(&self) -> (r: bool)
        ensures
            r == forall|h: u64| #[trigger]
                self.endpoints@.contains_key(h) ==> indexed(
                    self.lookup@,
                    endpoint_index(self.endpoints@[h].endpoint),
                    h,
                ),
    {
        proof {
            lemma_integer_keys();
            lemma_index_order();
        }
        let keys: Vec<u64> = sorted_keys(&self.endpoints, copy_id);
        let count: usize = keys.len();
        let mut n: usize = 0;
        while n < count
            invariant
                n <= count == keys@.len(),
                lawful_key::<u64>(),
                lawful_key::<LookupIndex>(),
                keys@.to_set() == self.endpoints@.dom(),
                forall|m: int|
                    0 <= m < n ==> indexed(
                        self.lookup@,
                        endpoint_index(self.endpoints@[#[trigger] keys@[m]].endpoint),
                        keys@[m],
                    ),
            decreases count - n,
        {
            assert(keys@.to_set().contains(keys@[n as int]));
            assert(self.endpoints@.contains_key(keys@[n as int]));
            if let Some(record) = self.endpoints.get(&keys[n]) {
                let index: LookupIndex = lookup_key(
                    &record.endpoint.key,
                    record.endpoint.parent_endpoint_handle,
                );
                let found: bool = match self.lookup.get(&index) {
                    Some(bucket) => holds_handle(&bucket.to_vec(), keys[n]),
                    None => false,
                };
                if !found {
                    return false;
                }
            }
            n = n + 1;
        }
        proof {
            assert forall|h: u64| #[trigger] self.endpoints@.contains_key(h) implies indexed(
                self.lookup@,
                endpoint_index(self.endpoints@[h].endpoint),
                h,
            ) by {
                assert(keys@.to_set().contains(h));
                let m = choose|m: int| 0 <= m < keys@.len() && keys@[m] == h;
                assert(keys@[m] == h);
            }
        }
        true
    }
}

} // verus!
