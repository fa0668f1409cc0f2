//! Holds TCP endpoint-closure classifications while already-published packet
//! decisions are completed.

use crate::id_cache::copy_id;
use crate::key::Key;
use crate::lists;
use crate::lists::{increasing, sort_dedup};
use crate::ordered::{get_mut, lawful_key, lemma_integer_keys, ordered_keys, sorted_keys};
use crate::tcp_endpoint_cache::TcpEndpointConnection;
use std::collections::BTreeMap;
use vstd::prelude::*;

verus! {

/// A packet request belongs to a closing endpoint.
pub open spec fn spec_request_matches(
    endpoint_key: Key,
    endpoint_instance_id: u64,
    request_key: Key,
    request_instance_id: Option<u64>,
) -> bool {
    request_instance_id == Some(endpoint_instance_id) || (endpoint_key.spec_is_loopback_like()
        && request_key == endpoint_key.spec_reverse())
}

/// Whether a packet request belongs to a closing endpoint: it is bound to the same
/// connection generation, or it is the other side of loopback-like traffic, whose
/// packet-layer tuple is reversed.
pub fn request_matches_tcp_endpoint(
    endpoint_key: &Key,
    endpoint_instance_id: u64,
    request_key: &Key,
    request_instance_id: Option<u64>,
) -> (r: bool)
    ensures
        r == spec_request_matches(
            *endpoint_key,
            endpoint_instance_id,
            *request_key,
            request_instance_id,
        ),
{
    let same_instance: bool = match request_instance_id {
        Some(id) => id == endpoint_instance_id,
        None => false,
    };
    same_instance || (endpoint_key.is_loopback_like() && *request_key == endpoint_key.reverse())
}

/// A closing TCP endpoint and the requests that it still waits for. `C` completes the
/// native classification.
pub struct PendingTcpClosure<C> {
    pub endpoint: TcpEndpointConnection,
    pub process_id: u64,
    pub classify: C,
    pub request_ids: Vec<u64>,
}

impl<C> PendingTcpClosure<C> {
    /// The requests that the closure waits for.
    pub open spec fn waits_for(&self) -> Set<u64> {
        self.request_ids@.to_set()
    }

    /// Requests are distinct and in order.
    pub open spec fn wf(&self) -> bool {
        increasing(self.request_ids@)
    }

    /// Nothing is left to wait for.
    pub open spec fn spec_is_ready(&self) -> bool {
        self.request_ids@.len() == 0
    }

    /// A closure is ready exactly if it waits for no request.
    pub proof fn ready_without_requests(&self)
        ensures
            self.spec_is_ready() <==> self.waits_for() == Set::<u64>::empty(),
    {
        if self.request_ids@.len() > 0 {
            assert(self.waits_for().contains(self.request_ids@[0]));
        } else {
            assert(self.waits_for() =~= Set::<u64>::empty());
        }
    }

    /// Creates a closure that waits for some requests.
    pub fn new(
        endpoint: TcpEndpointConnection,
        process_id: u64,
        classify: C,
        request_ids: Vec<u64>,
    ) -> (closure: Self)
        ensures
            closure.wf(),
            closure.endpoint == endpoint,
            closure.process_id == process_id,
            closure.classify == classify,
            closure.waits_for() == request_ids@.to_set(),
    {
        PendingTcpClosure { endpoint, process_id, classify, request_ids: sort_dedup(request_ids) }
    }

    fn add_request(&mut self, request_id: u64)
        requires
            old(self).wf(),
        ensures
            final(self).wf(),
            waiting(*old(self), *final(self), old(self).waits_for().insert(request_id)),
    {
        lists::insert(&mut self.request_ids, request_id);
    }

    fn finish_request(&mut self, request_id: u64)
        requires
            old(self).wf(),
        ensures
            final(self).wf(),
            waiting(*old(self), *final(self), old(self).waits_for().remove(request_id)),
    {
        lists::remove(&mut self.request_ids, request_id);
    }

    /// Whether nothing is left to wait for.
    pub fn is_ready(&self) -> (r: bool)
        ensures
            r == self.spec_is_ready(),
    {
        self.request_ids.len() == 0
    }
}

/// The same closure, waiting for other requests.
pub open spec fn waiting<C>(
    before: PendingTcpClosure<C>,
    after: PendingTcpClosure<C>,
    requests: Set<u64>,
) -> bool {
    &&& after.endpoint == before.endpoint
    &&& after.process_id == before.process_id
    &&& after.classify == before.classify
    &&& after.waits_for() == requests
}

/// Closures by connection generation.
pub struct TcpClosureCache<C> {
    closures: BTreeMap<u64, PendingTcpClosure<C>>,
}

/// The requests of a closure after one more is published.
pub open spec fn with_request<C>(
    closure: PendingTcpClosure<C>,
    request_id: u64,
    key: Key,
    instance_id: Option<u64>,
) -> Set<u64> {
    if spec_request_matches(
        closure.endpoint.key,
        closure.endpoint.instance_id,
        key,
        instance_id,
    ) {
        closure.waits_for().insert(request_id)
    } else {
        closure.waits_for()
    }
}

impl<C> TcpClosureCache<C> {
    /// The closures by connection generation.
    pub closed spec fn view(&self) -> Map<u64, PendingTcpClosure<C>> {
        self.closures@
    }

    /// Every closure is stored under its generation.
    pub closed spec fn wf(&self) -> bool {
        forall|id: u64| #[trigger]
            self.closures@.contains_key(id) ==> self.closures@[id].wf()
                && self.closures@[id].endpoint.instance_id == id
    }

    /// Creates an empty cache.
    pub fn new() -> (cache: Self)
        ensures
            cache.wf(),
            cache@ == Map::<u64, PendingTcpClosure<C>>::empty(),
    {
        TcpClosureCache { closures: BTreeMap::new() }
    }

    /// Inserts one closure keyed by its globally unique connection generation.
    /// Returns the supplied value when that generation is already closing.
    pub fn insert(&mut self, closure: PendingTcpClosure<C>) -> (result: Result<
        (),
        PendingTcpClosure<C>,
    >)
        requires
            old(self).wf(),
            closure.wf(),
        ensures
            final(self).wf(),
            match result {
                Ok(()) => !old(self)@.contains_key(closure.endpoint.instance_id) && final(self)@
                    == old(self)@.insert(closure.endpoint.instance_id, closure),
                Err(duplicate) => old(self)@.contains_key(closure.endpoint.instance_id)
                    && duplicate == closure && final(self)@ == old(self)@,
            },
    {
        proof {
            lemma_integer_keys();
        }
        let instance_id: u64 = closure.endpoint.instance_id;
        if self.closures.contains_key(&instance_id) {
            return Err(closure);
        }
        self.closures.insert(instance_id, closure);
        Ok(())
    }

    /// Adds a request published while a matching closure is already pended.
    pub fn add_request(&mut self, request_id: u64, key: &Key, instance_id: Option<u64>)
        requires
            old(self).wf(),
        ensures
            final(self).wf(),
            final(self)@.dom() == old(self)@.dom(),
            forall|id: u64| #[trigger]
                old(self)@.contains_key(id) ==> waiting(
                    old(self)@[id],
                    final(self)@[id],
                    with_request(old(self)@[id], request_id, *key, instance_id),
                ),
    {
        proof {
            lemma_integer_keys();
        }
        let ghost before = self.closures@;
        let keys: Vec<u64> = sorted_keys(&self.closures, copy_id);
        let count: usize = keys.len();
        let mut n: usize = 0;
        while n < count
            invariant
                n <= count == keys@.len(),
                lawful_key::<u64>(),
                keys@.no_duplicates(),
                keys@.to_set() == before.dom(),
                self.closures@.dom() == before.dom(),
                self.wf(),
                forall|m: int|
                    0 <= m < n ==> waiting(
                        before[#[trigger] keys@[m]],
                        self.closures@[keys@[m]],
                        with_request(before[keys@[m]], request_id, *key, instance_id),
                    ),
                forall|m: int|
                    n <= m < count ==> self.closures@[#[trigger] keys@[m]] == before[keys@[m]],
            decreases count - n,
        {
            let ghost current = self.closures@;
            proof {
                assert(keys@.to_set().contains(keys@[n as int]));
                assert(current.contains_key(keys@[n as int]));
            }
            if let Some(closure) = get_mut(&mut self.closures, &keys[n]) {
                let endpoint: TcpEndpointConnection = closure.endpoint;
                if request_matches_tcp_endpoint(
                    &endpoint.key,
                    endpoint.instance_id,
                    key,
                    instance_id,
                ) {
                    closure.add_request(request_id);
                }
            }
            n = n + 1;
            proof {
                assert(self.closures@.dom() =~= before.dom());
                assert forall|m: int| n <= m < count implies self.closures@[#[trigger] keys@[m]]
                    == before[keys@[m]] by {
                    assert(keys@[m] != keys@[n - 1]);
                    assert(current[keys@[m]] == before[keys@[m]]);
                }
                assert forall|m: int| 0 <= m < n implies waiting(
                    before[#[trigger] keys@[m]],
                    self.closures@[keys@[m]],
                    with_request(before[keys@[m]], request_id, *key, instance_id),
                ) by {
                    if m < n - 1 {
                        assert(keys@[m] != keys@[n - 1]);
                        assert(waiting(
                            before[keys@[m]],
                            current[keys@[m]],
                            with_request(before[keys@[m]], request_id, *key, instance_id),
                        ));
                    }
                }
                assert forall|id: u64| #[trigger]
                    self.closures@.contains_key(id) implies self.closures@[id].wf()
                    && self.closures@[id].endpoint.instance_id == id by {
                    assert(current.contains_key(id));
                }
            }
        }
        proof {
            assert forall|id: u64| #[trigger] before.contains_key(id) implies waiting(
                before[id],
                self.closures@[id],
                with_request(before[id], request_id, *key, instance_id),
            ) by {
                assert(keys@.to_set().contains(id));
                let m = choose|m: int| 0 <= m < keys@.len() && keys@[m] == id;
                assert(before[keys@[m]] == before[id]);
            }
        }
    }

    /// Resolves one packet request and returns the identities of closures which
    /// are ready to be claimed, in generation order.
    pub fn finish_request(&mut self, request_id: u64) -> (ready: Vec<TcpEndpointConnection>)
        requires
            old(self).wf(),
        ensures
            final(self).wf(),
            final(self)@.dom() == old(self)@.dom(),
            forall|id: u64| #[trigger]
                old(self)@.contains_key(id) ==> waiting(
                    old(self)@[id],
                    final(self)@[id],
                    old(self)@[id].waits_for().remove(request_id),
                ),
            ready@ == ready_endpoints(final(self)@),
            ordered_keys(final(self)@.dom()).to_set() == final(self)@.dom(),
    {
        proof {
            lemma_integer_keys();
        }
        let ghost before = self.closures@;
        let mut ready: Vec<TcpEndpointConnection> = Vec::new();
        let keys: Vec<u64> = sorted_keys(&self.closures, copy_id);
        let count: usize = keys.len();
        let mut n: usize = 0;
        proof {
            assert(ready@ =~= ready_of(keys@.take(0), self.closures@));
        }
        while n < count
            invariant
                n <= count == keys@.len(),
                lawful_key::<u64>(),
                keys@.no_duplicates(),
                keys@.to_set() == before.dom(),
                self.closures@.dom() == before.dom(),
                self.wf(),
                forall|m: int|
                    0 <= m < n ==> waiting(
                        before[#[trigger] keys@[m]],
                        self.closures@[keys@[m]],
                        before[keys@[m]].waits_for().remove(request_id),
                    ),
                forall|m: int|
                    n <= m < count ==> self.closures@[#[trigger] keys@[m]] == before[keys@[m]],
                ready@ == ready_of(keys@.take(n as int), self.closures@),
            decreases count - n,
        {
            let ghost current = self.closures@;
            let ghost listed = ready@;
            proof {
                assert(keys@.to_set().contains(keys@[n as int]));
                assert(current.contains_key(keys@[n as int]));
            }
            if let Some(closure) = get_mut(&mut self.closures, &keys[n]) {
                closure.finish_request(request_id);
                if closure.is_ready() {
                    ready.push(closure.endpoint);
                }
            }
            n = n + 1;
            proof {
                assert(self.closures@.dom() =~= before.dom());
                assert forall|m: int| n <= m < count implies self.closures@[#[trigger] keys@[m]]
                    == before[keys@[m]] by {
                    assert(keys@[m] != keys@[n - 1]);
                    assert(current[keys@[m]] == before[keys@[m]]);
                }
                assert forall|m: int| 0 <= m < n implies waiting(
                    before[#[trigger] keys@[m]],
                    self.closures@[keys@[m]],
                    before[keys@[m]].waits_for().remove(request_id),
                ) by {
                    if m < n - 1 {
                        assert(keys@[m] != keys@[n - 1]);
                        assert(waiting(
                            before[keys@[m]],
                            current[keys@[m]],
                            before[keys@[m]].waits_for().remove(request_id),
                        ));
                    }
                }
                assert forall|id: u64| #[trigger]
                    self.closures@.contains_key(id) implies self.closures@[id].wf()
                    && self.closures@[id].endpoint.instance_id == id by {
                    assert(current.contains_key(id));
                }
                let prior = keys@.take(n - 1);
                assert forall|m: int| 0 <= m < prior.len() implies #[trigger] current[prior[m]]
                    == self.closures@[prior[m]] by {
                    assert(prior[m] == keys@[m]);
                    assert(keys@[m] != keys@[n - 1]);
                }
                lemma_ready_agree(prior, current, self.closures@);
                assert(keys@.take(n as int).drop_last() =~= prior);
                assert(keys@.take(n as int).last() == keys@[n - 1]);
                assert(ready@ =~= ready_of(keys@.take(n as int), self.closures@));
            }
        }
        proof {
            assert(keys@.take(count as int) =~= keys@);
            assert forall|id: u64| #[trigger] before.contains_key(id) implies waiting(
                before[id],
                self.closures@[id],
                before[id].waits_for().remove(request_id),
            ) by {
                assert(keys@.to_set().contains(id));
                let m = choose|m: int| 0 <= m < keys@.len() && keys@[m] == id;
                assert(before[keys@[m]] == before[id]);
            }
        }
        ready
    }

    /// Removes one ready closure.
    pub fn take_ready(&mut self, instance_id: u64) -> (closure: Option<PendingTcpClosure<C>>)
        requires
            old(self).wf(),
        ensures
            final(self).wf(),
            match closure {
                Some(c) => {
                    &&& old(self)@.contains_key(instance_id)
                    &&& c == old(self)@[instance_id]
                    &&& c.spec_is_ready()
                    &&& c.endpoint.instance_id == instance_id
                    &&& final(self)@ == old(self)@.remove(instance_id)
                },
                None => !(old(self)@.contains_key(instance_id)
                    && old(self)@[instance_id].spec_is_ready()) && final(self)@ == old(self)@,
            },
    {
        proof {
            lemma_integer_keys();
        }
        let ready: bool = match self.closures.get(&instance_id) {
            Some(closure) => closure.is_ready(),
            None => false,
        };
        if ready {
            self.closures.remove(&instance_id)
        } else {
            None
        }
    }

    /// Number of closures.
    pub fn get_entries_count(&self) -> (n: usize)
        ensures
            n == self@.dom().len(),
    {
        proof {
            lemma_integer_keys();
        }
        self.closures.len()
    }

    /// Takes every closure, in generation order, ready or not.
    pub fn drain(&mut self) -> (closures: Vec<PendingTcpClosure<C>>)
        requires
            old(self).wf(),
        ensures
            final(self).wf(),
            final(self)@ == Map::<u64, PendingTcpClosure<C>>::empty(),
            closures@ == ordered_keys(old(self)@.dom()).map_values(|id: u64| old(self)@[id]),
            ordered_keys(old(self)@.dom()).to_set() == old(self)@.dom(),
    {
        proof {
            lemma_integer_keys();
        }
        let ghost before = self.closures@;
        let keys: Vec<u64> = sorted_keys(&self.closures, copy_id);
        let count: usize = keys.len();
        let mut closures: Vec<PendingTcpClosure<C>> = Vec::with_capacity(count);
        let mut n: usize = 0;
        while n < count
            invariant
                n <= count == keys@.len(),
                lawful_key::<u64>(),
                keys@.no_duplicates(),
                keys@.to_set() == before.dom(),
                closures@ == keys@.take(n as int).map_values(|id: u64| before[id]),
                forall|m: int|
                    n <= m < count ==> self.closures@.contains_key(#[trigger] keys@[m])
                        && self.closures@[keys@[m]] == before[keys@[m]],
            decreases count - n,
        {
            proof {
                assert(keys@.to_set().contains(keys@[n as int]));
            }
            let ghost current = self.closures@;
            if let Some(closure) = self.closures.remove(&keys[n]) {
                closures.push(closure);
            }
            n = n + 1;
            proof {
                assert(keys@.take(n as int) =~= keys@.take(n - 1).push(keys@[n - 1]));
                assert(closures@ =~= keys@.take(n as int).map_values(|id: u64| before[id]));
                assert forall|m: int| n <= m < count implies self.closures@.contains_key(
                    #[trigger] keys@[m],
                ) && self.closures@[keys@[m]] == before[keys@[m]] by {
                    assert(keys@[m] != keys@[n - 1]);
                    assert(current.contains_key(keys@[m]));
                }
            }
        }
        assert(keys@.take(count as int) =~= keys@);
        self.closures.clear();
        closures
    }
}

/// The endpoints of the ready closures among some generations.
pub open spec fn ready_of<C>(ids: Seq<u64>, closures: Map<u64, PendingTcpClosure<C>>) -> Seq<
    TcpEndpointConnection,
>
    decreases ids.len(),
{
    if ids.len() == 0 {
        Seq::empty()
    } else {
        let rest = ready_of(ids.drop_last(), closures);
        let closure = closures[ids.last()];
        if closure.spec_is_ready() {
            rest.push(closure.endpoint)
        } else {
            rest
        }
    }
}

/// The endpoints of all ready closures, in generation order.
pub open spec fn ready_endpoints<C>(closures: Map<u64, PendingTcpClosure<C>>) -> Seq<
    TcpEndpointConnection,
> {
    ready_of(ordered_keys(closures.dom()), closures)
}

proof fn lemma_ready_agree<C>(
    ids: Seq<u64>,
    a: Map<u64, PendingTcpClosure<C>>,
    b: Map<u64, PendingTcpClosure<C>>,
)
    requires
        forall|m: int| 0 <= m < ids.len() ==> #[trigger] a[ids[m]] == b[ids[m]],
    ensures
        ready_of(ids, a) == ready_of(ids, b),
    decreases ids.len(),
{
    if ids.len() > 0 {
        let rest = ids.drop_last();
        assert forall|m: int| 0 <= m < rest.len() implies #[trigger] a[rest[m]] == b[rest[m]] by {
            assert(a[ids[m]] == b[ids[m]]);
        }
        lemma_ready_agree(rest, a, b);
        assert(a[ids[ids.len() - 1]] == b[ids[ids.len() - 1]]);
    }
}

} // verus!
