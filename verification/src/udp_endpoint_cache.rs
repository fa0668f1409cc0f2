//! Associates cached UDP remote tuples with their socket endpoint.
//!
//! WFP creates one UDP ALE flow per remote peer, but reports endpoint closure only
//! once for the socket. The closure indication therefore cannot identify every
//! remote tuple by its fixed fields. The transport endpoint handle is the stable
//! correlation key shared by authorization and endpoint-closure indications.

use crate::connection_map::{capped, concat, lemma_filter_push};
use crate::id_cache::copy_id;
use crate::key::Key;
use crate::lists::{contains, increasing, lemma_filter_agree, lemma_filter_source, sort_dedup};
use crate::ordered::{get_mut, lawful_key, lemma_integer_keys, ordered_keys, sorted_keys};
use std::collections::BTreeMap;
use vstd::prelude::*;

verus! {

/// One remote tuple of a socket.
#[derive(Clone, Copy, Debug, PartialEq, Eq, Structural)]
pub struct UdpEndpointPeer {
    pub key: Key,
    pub instance_id: u64,
}

/// The peers of each socket, in association order.
pub type Sockets = Map<u64, Seq<UdpEndpointPeer>>;

/// The sockets after removing some peers; sockets without peers are forgotten.
pub open spec fn peers_removed(sockets: Sockets, keep: spec_fn(UdpEndpointPeer) -> bool) -> Sockets {
    Map::new(
        |h: u64| sockets.contains_key(h) && sockets[h].filter(keep).len() > 0,
        |h: u64| sockets[h].filter(keep),
    )
}

/// The instance IDs of all peers, by handle and in association order.
pub open spec fn all_instances(sockets: Sockets) -> Seq<u64> {
    concat(ordered_keys(sockets.dom()), sockets).map_values(|p: UdpEndpointPeer| p.instance_id)
}

/// UDP sockets by endpoint handle.
pub struct UdpEndpointCache {
    endpoints: BTreeMap<u64, Vec<UdpEndpointPeer>>,
}

fn filter_peers(peers: &Vec<UdpEndpointPeer>, removed_ids: &Vec<u64>) -> (kept: Vec<UdpEndpointPeer>)
    requires
        increasing(removed_ids@),
    ensures
        kept@ == peers@.filter(|p: UdpEndpointPeer| !removed_ids@.contains(p.instance_id)),
{
    let ghost keep = |p: UdpEndpointPeer| !removed_ids@.contains(p.instance_id);
    let mut kept: Vec<UdpEndpointPeer> = Vec::new();
    let count: usize = peers.len();
    let mut n: usize = 0;
    proof {
        reveal(Seq::filter);
        assert(peers@.take(0).filter(keep) =~= Seq::empty());
    }
    while n < count
        invariant
            n <= count == peers@.len(),
            increasing(removed_ids@),
            keep == (|p: UdpEndpointPeer| !removed_ids@.contains(p.instance_id)),
            kept@ == peers@.take(n as int).filter(keep),
        decreases count - n,
    {
        let peer: UdpEndpointPeer = peers[n];
        proof {
            assert(peers@.take(n + 1) =~= peers@.take(n as int).push(peer));
            lemma_filter_push(peers@.take(n as int), keep, peer);
        }
        if !contains(removed_ids, peer.instance_id) {
            kept.push(peer);
        }
        n = n + 1;
    }
    assert(peers@.take(count as int) =~= peers@);
    kept
}

/// Calls `Vec::capacity`, which tells how many elements fit without a new allocation: at
/// least those that are there.
#[verifier::external_body]
fn capacity(peers: &Vec<UdpEndpointPeer>) -> (capacity: usize)
    ensures
        capacity >= peers@.len(),
{
    peers.capacity()
}

/// Calls `Vec::shrink_to_fit`, which gives back memory and keeps the elements.
#[verifier::external_body]
fn shrink_to_fit(peers: &mut Vec<UdpEndpointPeer>)
    ensures
        final(peers)@ == old(peers)@,
{
    peers.shrink_to_fit();
}

/// Releases high-water allocation without reallocating after every individual
/// flow deletion. Non-empty vectors shrink after capacity exceeds live state by
/// at least four times; empty vectors are dropped with their endpoint entry.
///
/// When this shrinks is stated by [`has_excess_capacity`]. How much memory is held before
/// and afterwards is up to the allocator, and nothing is stated of it.
fn release_excess_capacity(peers: &mut Vec<UdpEndpointPeer>)
    ensures
        final(peers)@ == old(peers)@,
{
    if has_excess_capacity(peers.len(), capacity(peers)) {
        shrink_to_fit(peers);
    }
}

/// Returns whether an allocation is at least four times as large as what is live in it.
pub fn has_excess_capacity(live: usize, capacity: usize) -> (r: bool)
    ensures
        r == (4 * live <= capacity),
{
    live <= capacity / 4
}

impl UdpEndpointCache {
    /// The peers of each socket.
    pub closed spec fn view(&self) -> Sockets {
        self.endpoints@.map_values(|peers: Vec<UdpEndpointPeer>| peers@)
    }

    /// Every socket has peers, and none of them twice.
    pub open spec fn wf(&self) -> bool {
        forall|h: u64| #[trigger]
            self@.contains_key(h) ==> self@[h].len() > 0 && self@[h].no_duplicates()
    }

    /// Creates an empty cache.
    pub fn new() -> (cache: Self)
        ensures
            cache.wf(),
            cache@ == Sockets::empty(),
    {
        let cache = UdpEndpointCache { endpoints: BTreeMap::new() };
        assert(cache@ =~= Sockets::empty());
        cache
    }

    fn position(peers: &Vec<UdpEndpointPeer>, peer: UdpEndpointPeer) -> (position: Option<usize>)
        ensures
            match position {
                Some(i) => i < peers@.len() && peers@[i as int] == peer,
                None => !peers@.contains(peer),
            },
    {
        let count: usize = peers.len();
        let mut n: usize = 0;
        while n < count
            invariant
                n <= count == peers@.len(),
                forall|m: int| 0 <= m < n ==> peers@[m] != peer,
            decreases count - n,
        {
            if peers[n] == peer {
                return Some(n);
            }
            n = n + 1;
        }
        None
    }

    /// Associates one concrete connection-cache instance with its endpoint.
    ///
    /// Returns true only when this call inserted a new association. Callers that
    /// expose a context to WFP can use the result to roll back their own insertion
    /// if `FwpsFlowAssociateContext0` fails without removing an association that
    /// was already tracking the connection independently.
    pub fn associate_instance(&mut self, endpoint_handle: u64, key: Key, instance_id: u64) -> (
    inserted: bool)
        requires
            old(self).wf(),
        ensures
            final(self).wf(),
            ({
                let peer = UdpEndpointPeer { key, instance_id };
                let peers = if old(self)@.contains_key(endpoint_handle) {
                    old(self)@[endpoint_handle]
                } else {
                    Seq::empty()
                };
                &&& inserted == (endpoint_handle != 0 && instance_id != 0 && !peers.contains(peer))
                &&& final(self)@ == if inserted {
                    old(self)@.insert(endpoint_handle, peers.push(peer))
                } else {
                    old(self)@
                }
            }),
    {
        proof {
            lemma_integer_keys();
        }
        if endpoint_handle == 0 || instance_id == 0 {
            return false;
        }
        let ghost before = self@;
        let peer = UdpEndpointPeer { key, instance_id };
        let known: bool = match self.endpoints.get(&endpoint_handle) {
            Some(peers) => Self::position(peers, peer).is_some(),
            None => false,
        };
        if known {
            return false;
        }
        match get_mut(&mut self.endpoints, &endpoint_handle) {
            Some(peers) => {
                peers.push(peer);
                proof {
                    let old_peers = before[endpoint_handle];
                    assert(before.contains_key(endpoint_handle));
                    assert(self@ =~= before.insert(endpoint_handle, old_peers.push(peer)));
                    assert(old_peers.push(peer).no_duplicates());
                }
                return true;
            },
            None => {},
        }
        let mut peers: Vec<UdpEndpointPeer> = Vec::with_capacity(1);
        peers.push(peer);
        self.endpoints.insert(endpoint_handle, peers);
        assert(self@ =~= before.insert(endpoint_handle, Seq::empty().push(peer)));
        true
    }

    /// Resolves one exact endpoint/tuple association and ensures its connection
    /// instance is still live through `accept_instance`: the answer about the first
    /// peer of the tuple that it accepts.
    pub fn with_instance_id<T>(
        &self,
        endpoint_handle: u64,
        key: &Key,
        accept_instance: impl Fn(u64) -> Option<T>,
    ) -> (result: Option<T>)
        requires
            self.wf(),
            forall|id: u64| #[trigger] call_requires(accept_instance, (id,)),
        ensures
            match result {
                Some(value) => {
                    &&& endpoint_handle != 0
                    &&& self@.contains_key(endpoint_handle)
                    &&& exists|n: int|
                        0 <= n < self@[endpoint_handle].len() && (
                        #[trigger] self@[endpoint_handle][n]).key == *key && call_ensures(
                            accept_instance,
                            (self@[endpoint_handle][n].instance_id,),
                            Some(value),
                        ) && forall|m: int|
                            0 <= m < n && (#[trigger] self@[endpoint_handle][m]).key == *key
                                ==> call_ensures(
                                accept_instance,
                                (self@[endpoint_handle][m].instance_id,),
                                None::<T>,
                            )
                },
                None => endpoint_handle != 0 && self@.contains_key(endpoint_handle) ==> forall|
                    n: int,
                |
                    0 <= n < self@[endpoint_handle].len() && (
                    #[trigger] self@[endpoint_handle][n]).key == *key ==> call_ensures(
                        accept_instance,
                        (self@[endpoint_handle][n].instance_id,),
                        None::<T>,
                    ),
            },
    {
        proof {
            lemma_integer_keys();
        }
        if endpoint_handle == 0 {
            return None;
        }
        if let Some(peers) = self.endpoints.get(&endpoint_handle) {
            assert(self@[endpoint_handle] == peers@);
            let count: usize = peers.len();
            let mut n: usize = 0;
            while n < count
                invariant
                    n <= count == peers@.len(),
                    endpoint_handle != 0,
                    self@.contains_key(endpoint_handle),
                    self@[endpoint_handle] == peers@,
                    forall|id: u64| #[trigger] call_requires(accept_instance, (id,)),
                    forall|m: int|
                        0 <= m < n && (#[trigger] self@[endpoint_handle][m]).key == *key
                            ==> call_ensures(
                            accept_instance,
                            (self@[endpoint_handle][m].instance_id,),
                            None::<T>,
                        ),
                decreases count - n,
            {
                if peers[n].key == *key {
                    assert(self@[endpoint_handle][n as int].key == *key);
                    let answer: Option<T> = accept_instance(peers[n].instance_id);
                    if answer.is_some() {
                        return answer;
                    }
                }
                n = n + 1;
            }
        }
        None
    }

    /// Removes a peer whose WFP ALE flow has ended. Empty endpoint entries are
    /// dropped with their peer allocation; unknown/repeated lifetime indications
    /// are safe to ignore and therefore need neither empty sentinels nor tombstones.
    pub fn dissociate(&mut self, endpoint_handle: u64, key: Key, instance_id: u64) -> (removed: bool)
        requires
            old(self).wf(),
        ensures
            final(self).wf(),
            ({
                let peer = UdpEndpointPeer { key, instance_id };
                let peers = old(self)@[endpoint_handle];
                &&& removed == (endpoint_handle != 0 && instance_id != 0 && old(
                    self
                )@.contains_key(endpoint_handle) && peers.contains(peer))
                &&& final(self)@ == if !removed {
                    old(self)@
                } else if peers.len() == 1 {
                    old(self)@.remove(endpoint_handle)
                } else {
                    old(self)@.insert(endpoint_handle, peers.remove(peers.index_of(peer)))
                }
            }),
    {
        proof {
            lemma_integer_keys();
        }
        if endpoint_handle == 0 || instance_id == 0 {
            return false;
        }
        let ghost before = self@;
        let peer = UdpEndpointPeer { key, instance_id };
        let position: usize = match self.endpoints.get(&endpoint_handle) {
            Some(peers) => match Self::position(peers, peer) {
                Some(position) => position,
                None => {
                    return false;
                },
            },
            None => {
                return false;
            },
        };
        let ghost peers0 = before[endpoint_handle];
        proof {
            assert(before.contains_key(endpoint_handle));
            assert(peers0[position as int] == peer);
            assert(peers0.contains(peer));
            assert(peers0.index_of(peer) == position);
        }
        let mut emptied: bool = false;
        if let Some(peers) = get_mut(&mut self.endpoints, &endpoint_handle) {
            peers.remove(position);
            emptied = peers.len() == 0;
            if !emptied {
                release_excess_capacity(peers);
            }
        }
        if emptied {
            self.endpoints.remove(&endpoint_handle);
            assert(self@ =~= before.remove(endpoint_handle));
        } else {
            assert(self@ =~= before.insert(endpoint_handle, peers0.remove(position as int)));
            assert(peers0.remove(position as int).no_duplicates());
        }
        true
    }

    /// Returns the connection-cache instance IDs represented by this cache.
    ///
    /// The snapshot is taken before the live connection snapshot during periodic
    /// cleanup. Therefore an association created afterwards is left for the next
    /// pass rather than being mistaken for stale state.
    pub fn instance_ids(&self) -> (ids: Vec<u64>)
        ensures
            ids@ == all_instances(self@),
            ordered_keys(self@.dom()).to_set() == self@.dom(),
    {
        proof {
            lemma_integer_keys();
        }
        let keys: Vec<u64> = sorted_keys(&self.endpoints, copy_id);
        let count: usize = keys.len();
        let mut ids: Vec<u64> = Vec::new();
        let mut k: usize = 0;
        proof {
            assert(self.endpoints@.dom() =~= self@.dom());
        }
        assert(ids@ =~= concat(keys@.take(0), self@).map_values(|p: UdpEndpointPeer| p.instance_id));
        while k < count
            invariant
                k <= count == keys@.len(),
                lawful_key::<u64>(),
                keys@.to_set() == self.endpoints@.dom(),
                ids@ == concat(keys@.take(k as int), self@).map_values(
                    |p: UdpEndpointPeer| p.instance_id,
                ),
            decreases count - k,
        {
            let ghost done = concat(keys@.take(k as int), self@);
            let ghost next = self@[keys@[k as int]];
            let ghost sent = ids@;
            proof {
                assert(keys@.to_set().contains(keys@[k as int]));
                assert(keys@.take(k + 1).drop_last() =~= keys@.take(k as int));
            }
            if let Some(peers) = self.endpoints.get(&keys[k]) {
                let total: usize = peers.len();
                let mut n: usize = 0;
                while n < total
                    invariant
                        n <= total == peers@.len(),
                        ids@ == sent + peers@.take(n as int).map_values(
                            |p: UdpEndpointPeer| p.instance_id,
                        ),
                    decreases total - n,
                {
                    ids.push(peers[n].instance_id);
                    n = n + 1;
                    assert(ids@ =~= sent + peers@.take(n as int).map_values(
                        |p: UdpEndpointPeer| p.instance_id,
                    ));
                }
                assert(peers@.take(total as int) =~= peers@);
                assert(next == peers@);
            }
            assert(ids@ =~= (done + next).map_values(|p: UdpEndpointPeer| p.instance_id));
            k = k + 1;
        }
        assert(keys@.take(count as int) =~= keys@);
        ids
    }

    /// Removes associations for connection-cache instances that no longer exist and
    /// returns how many. Empty endpoint entries are removed together with their peer
    /// buffers.
    pub fn remove_instances(&mut self, instance_ids: Vec<u64>) -> (removed: usize)
        requires
            old(self).wf(),
        ensures
            final(self).wf(),
            final(self)@ == peers_removed(
                old(self)@,
                |p: UdpEndpointPeer| !instance_ids@.contains(p.instance_id),
            ),
            removed == capped(
                removed_count(
                    ordered_keys(old(self)@.dom()),
                    old(self)@,
                    |p: UdpEndpointPeer| !instance_ids@.contains(p.instance_id),
                ),
            ),
    {
        proof {
            lemma_integer_keys();
        }
        let ghost ids = instance_ids@;
        let ghost keep = |p: UdpEndpointPeer| !ids.contains(p.instance_id);
        let sorted_ids: Vec<u64> = sort_dedup(instance_ids);
        proof {
            assert forall|id: u64| sorted_ids@.contains(id) <==> ids.contains(id) by {
                assert(sorted_ids@.to_set().contains(id) <==> ids.to_set().contains(id));
            }
        }
        let ghost before = self@;
        let keys: Vec<u64> = sorted_keys(&self.endpoints, copy_id);
        let count: usize = keys.len();
        let mut removed: usize = 0;
        let mut k: usize = 0;
        assert(self.endpoints@.dom() =~= before.dom());
        while k < count
            invariant
                k <= count == keys@.len(),
                lawful_key::<u64>(),
                keys@.no_duplicates(),
                keys@.to_set() == before.dom(),
                increasing(sorted_ids@),
                forall|id: u64| sorted_ids@.contains(id) <==> ids.contains(id),
                keep == (|p: UdpEndpointPeer| !ids.contains(p.instance_id)),
                self@.dom().subset_of(before.dom()),
                forall|m: int|
                    0 <= m < k ==> {
                        &&& self@.contains_key(#[trigger] keys@[m]) == (before[keys@[m]].filter(
                            keep,
                        ).len() > 0)
                        &&& self@.contains_key(keys@[m]) ==> self@[keys@[m]]
                            == before[keys@[m]].filter(keep)
                    },
                forall|m: int|
                    k <= m < count ==> self@.contains_key(#[trigger] keys@[m]) && self@[keys@[m]]
                        == before[keys@[m]],
                removed == capped(removed_count(keys@.take(k as int), before, keep)),
            decreases count - k,
        {
            let handle: u64 = keys[k];
            let ghost current = self@;
            let ghost mine = before[handle];
            proof {
                assert(keys@.to_set().contains(keys@[k as int]));
                assert(self@.contains_key(keys@[k as int]));
                assert(keys@.take(k + 1).drop_last() =~= keys@.take(k as int));
                mine.lemma_filter_len(keep);
            }
            let mut kept: Vec<UdpEndpointPeer> = Vec::new();
            if let Some(peers) = self.endpoints.get(&handle) {
                kept = filter_peers(peers, &sorted_ids);
                proof {
                    lemma_filter_agree(
                        mine,
                        |p: UdpEndpointPeer| !sorted_ids@.contains(p.instance_id),
                        keep,
                    );
                }
                removed = removed.saturating_add(peers.len() - kept.len());
            }
            if kept.len() == 0 {
                self.endpoints.remove(&handle);
                assert(self@ =~= current.remove(handle));
            } else {
                self.endpoints.insert(handle, kept);
                assert(self@ =~= current.insert(handle, mine.filter(keep)));
            }
            k = k + 1;
            proof {
                assert forall|m: int| k <= m < count implies self@.contains_key(#[trigger] keys@[m])
                    && self@[keys@[m]] == before[keys@[m]] by {
                    assert(keys@[m] != keys@[k - 1]);
                    assert(current.contains_key(keys@[m]));
                }
                assert forall|m: int| 0 <= m < k implies {
                    &&& self@.contains_key(#[trigger] keys@[m]) == (before[keys@[m]].filter(
                        keep,
                    ).len() > 0)
                    &&& self@.contains_key(keys@[m]) ==> self@[keys@[m]] == before[keys@[m]].filter(
                        keep,
                    )
                } by {
                    if m < k - 1 {
                        assert(keys@[m] != keys@[k - 1]);
                        assert(current.contains_key(keys@[m]) == (before[keys@[m]].filter(
                            keep,
                        ).len() > 0));
                    }
                }
            }
        }
        proof {
            assert(keys@.take(count as int) =~= keys@);
            assert forall|h: u64| #[trigger] before.contains_key(h) implies self@.contains_key(h)
                == (before[h].filter(keep).len() > 0) && (self@.contains_key(h) ==> self@[h]
                == before[h].filter(keep)) by {
                assert(keys@.to_set().contains(h));
                let m = choose|m: int| 0 <= m < keys@.len() && keys@[m] == h;
                assert(self@.contains_key(keys@[m]) == (before[keys@[m]].filter(keep).len() > 0));
            }
            assert(self@ =~= peers_removed(before, keep));
            assert forall|h: u64| #[trigger] self@.contains_key(h) implies self@[h].len() > 0
                && self@[h].no_duplicates() by {
                lemma_filter_no_duplicates(before[h], keep);
            }
        }
        removed
    }

    /// Consumes one endpoint lifetime indication and returns every UDP tuple
    /// observed on its socket.
    ///
    /// An unknown handle leaves no state behind. Callers with a concrete handle
    /// deliberately do not use a local-port fallback for an unknown or repeated
    /// indication: ignoring it is safer than ending a replacement socket, and
    /// native flow deletion can still retire the matching peer state.
    pub fn take(&mut self, endpoint_handle: u64) -> (peers: Option<Vec<UdpEndpointPeer>>)
        requires
            old(self).wf(),
        ensures
            final(self).wf(),
            match peers {
                Some(p) => {
                    &&& endpoint_handle != 0
                    &&& old(self)@.contains_key(endpoint_handle)
                    &&& p@ == old(self)@[endpoint_handle]
                    &&& final(self)@ == old(self)@.remove(endpoint_handle)
                },
                None => (endpoint_handle == 0 || !old(self)@.contains_key(endpoint_handle))
                    && final(self)@ == old(self)@,
            },
    {
        proof {
            lemma_integer_keys();
        }
        if endpoint_handle == 0 {
            return None;
        }
        let ghost before = self@;
        let taken: Option<Vec<UdpEndpointPeer>> = self.endpoints.remove(&endpoint_handle);
        proof {
            assert(self@ =~= before.remove(endpoint_handle));
            if taken is None {
                assert(before.remove(endpoint_handle) =~= before);
            }
        }
        taken
    }

    /// Forgets every socket.
    pub fn clear(&mut self)
        ensures
            final(self).wf(),
            final(self)@ == Sockets::empty(),
    {
        self.endpoints.clear();
        assert(self@ =~= Sockets::empty());
    }

    /// Number of sockets and number of peers.
    pub fn get_entries_counts(&self) -> (counts: (usize, usize))
        ensures
            counts.0 == self@.dom().len(),
            counts.1 == capped(all_instances(self@).len() as int),
    {
        proof {
            lemma_integer_keys();
            assert(self.endpoints@.dom() =~= self@.dom());
        }
        let ids: Vec<u64> = self.instance_ids();
        (self.endpoints.len(), ids.len())
    }
}

/// How many peers of some sockets a predicate rejects.
pub open spec fn removed_count(
    handles: Seq<u64>,
    sockets: Sockets,
    keep: spec_fn(UdpEndpointPeer) -> bool,
) -> int
    decreases handles.len(),
{
    if handles.len() == 0 {
        0
    } else {
        removed_count(handles.drop_last(), sockets, keep) + sockets[handles.last()].len()
            - sockets[handles.last()].filter(keep).len()
    }
}

proof fn lemma_filter_no_duplicates(
    s: Seq<UdpEndpointPeer>,
    p: spec_fn(UdpEndpointPeer) -> bool,
)
    requires
        s.no_duplicates(),
    ensures
        s.filter(p).no_duplicates(),
    decreases s.len(),
{
    reveal(Seq::filter);
    if s.len() > 0 {
        let rest = s.drop_last();
        assert(rest.no_duplicates()) by {
            assert forall|i: int, j: int| 0 <= i < rest.len() && 0 <= j < rest.len() && i
                != j implies rest[i] != rest[j] by {
                assert(s[i] != s[j]);
            }
        }
        lemma_filter_no_duplicates(rest, p);
        assert forall|i: int| 0 <= i < rest.filter(p).len() implies #[trigger] rest.filter(p)[i]
            != s.last() by {
            lemma_filter_source(rest, p, i);
            let k = choose|k: int| 0 <= k < rest.len() && rest[k] == rest.filter(p)[i] && p(rest[k]);
            assert(s[k] != s[s.len() - 1]);
        }
    }
}

} // verus!
