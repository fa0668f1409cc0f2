//! What every sequence of operations on a connection map keeps.

use crate::connection::{AddressFamily, Connection};
use crate::connection_map::{
    at, best_match, endpoint_of, endpoint_of_key, exact_match, first, first_in_group, generations,
    group_key, group_retained, holds, instance_match, is_first, is_first_in_group,
    lemma_exact_holds, lemma_redirect_holds, live_instance_matching, map_push, map_retained,
    map_set, map_wf, occupied, retained, ConnectionMap, EndpointKey, GroupView, MapView, Place,
    Query,
};
use crate::ip::protocol_rank_is_injective;
use crate::key::Key;
use crate::ordered::{ascending, ordered_keys, ordered_keys_list_the_set, precedes};
use vstd::prelude::*;

verus! {

/// No tuple has two live connections.
pub open spec fn unique_live<A: AddressFamily>(m: MapView<A>) -> bool {
    forall|p: Place<A>, q: Place<A>|
        #![trigger holds(m, p), holds(m, q)]
        holds(m, p) && holds(m, q) && at(m, p).live() && at(m, q).live() && at(m, p).spec_key()
            == at(m, q).spec_key() ==> p == q
}

proof fn lemma_generations_of<A: AddressFamily>(m: MapView<A>, c: Connection<A>)
    ensures
        endpoint_of_key::<A>(c.spec_key()) == Some(endpoint_of(c)),
{
    A::lemma_family();
}

/// The first acceptable generation is found.
pub proof fn lemma_first_unique<A: AddressFamily>(s: Seq<Connection<A>>, q: Query, i: int)
    requires
        is_first(s, q, i),
    ensures
        first(s, q) == Some(i),
{
    let k = choose|k: int| is_first(s, q, k);
    assert(is_first(s, q, k));
    if k < i {
        assert(!q.accepts(s[k]));
    }
    if i < k {
        assert(!q.accepts(s[i]));
    }
}

/// Where one generation is acceptable, a first one is found.
pub proof fn lemma_first_exists<A: AddressFamily>(s: Seq<Connection<A>>, q: Query, n: int)
    requires
        0 <= n < s.len(),
        q.accepts(s[n]),
    ensures
        first(s, q) matches Some(i) && is_first(s, q, i),
    decreases n,
{
    if exists|j: int| 0 <= j < n && q.accepts(#[trigger] s[j]) {
        let j = choose|j: int| 0 <= j < n && q.accepts(#[trigger] s[j]);
        lemma_first_exists(s, q, j);
    } else {
        assert(is_first(s, q, n));
        lemma_first_unique(s, q, n);
    }
}

/// Two connections of a well-formed map have the same tuple exactly if they are stored
/// in the same group and each one's addresses and remote port equal the other's tuple.
proof fn lemma_same_tuple<A: AddressFamily>(m: MapView<A>, p: Place<A>, key: Key)
    requires
        map_wf(m),
        holds(m, p),
        p.0 == group_key(key.spec_small()),
        at(m, p).spec_remote_equals(key),
    ensures
        at(m, p).spec_key() == key,
{
    let c = at(m, p);
    assert(m.contains_key(p.0));
    assert(group_key(m[p.0][p.1][p.2].spec_key().spec_small()) == p.0);
    protocol_rank_is_injective(c.protocol, key.protocol);
}

/// A lookup without history only ever selects live connections, so neither an inbound
/// packet nor a policy update sees what has ended.
pub proof fn live_lookup_selects_live<A: AddressFamily>(m: MapView<A>, key: Key)
    ensures
        best_match(m, key, false) matches Some(place) ==> holds(m, place) && at(m, place).live(),
        exact_match(m, Query::live(key)) matches Some(place) ==> holds(m, place) && at(
            m,
            place,
        ).live(),
{
    let live = Query::live(key);
    lemma_exact_holds(m, live);
    lemma_redirect_holds(m, Query { redirect: true, ..live });
}

/// A lookup with history falls back to an ended connection only where the same lookup
/// without history finds nothing.
pub proof fn ended_is_only_a_fallback<A: AddressFamily>(m: MapView<A>, key: Key)
    ensures
        best_match(m, key, false) is Some ==> best_match(m, key, true) == best_match(m, key, false),
        best_match(m, key, false) is None ==> (best_match(m, key, true) matches Some(place)
            ==> holds(m, place) && !at(m, place).live()),
{
    let ended = Query { ended: true, ..Query::live(key) };
    lemma_exact_holds(m, ended);
    lemma_redirect_holds(m, Query { redirect: true, ..ended });
}

/// A mutation through an instance ID reaches only the live connection that carries that
/// ID: a stale ID cannot reach a connection that reused the tuple.
pub proof fn stale_instance_reaches_nothing<A: AddressFamily>(
    m: MapView<A>,
    key: Key,
    instance_id: u64,
)
    ensures
        instance_match(m, key, instance_id) matches Some(place) ==> holds(m, place) && at(
            m,
            place,
        ).live() && at(m, place).instance_id == instance_id && instance_id != 0,
        (forall|p: Place<A>| #[trigger] holds(m, p) ==> at(m, p).instance_id != instance_id)
            ==> instance_match(m, key, instance_id) is None,
{
    let q = Query::instance(key, instance_id);
    lemma_exact_holds(m, q);
    lemma_redirect_holds(m, Query { redirect: true, ..q });
}

/// A finite group with a connection that the query accepts has a first one.
pub proof fn lemma_first_in_finite_group<A: AddressFamily>(
    g: GroupView<A>,
    q: Query,
    e: EndpointKey<A>,
    i: int,
)
    requires
        g.dom().finite(),
        occupied(g, e, i),
        q.accepts(g[e][i]),
    ensures
        first_in_group(g, q) is Some,
{
    A::lemma_family();
    let keys = ordered_keys(g.dom());
    ordered_keys_list_the_set(g.dom());
    assert(keys.to_set().contains(e));
    let n = choose|n: int| 0 <= n < keys.len() && keys[n] == e;
    lemma_first_from(g, q, keys, n, i);
}

/// The first accepted connection stands under one of the endpoints up to the `n`-th.
proof fn lemma_first_from<A: AddressFamily>(
    g: GroupView<A>,
    q: Query,
    keys: Seq<EndpointKey<A>>,
    n: int,
    i: int,
)
    requires
        ascending(keys),
        keys.to_set() == g.dom(),
        0 <= n < keys.len(),
        occupied(g, keys[n], i),
        q.accepts(g[keys[n]][i]),
    ensures
        first_in_group(g, q) is Some,
    decreases n,
{
    if exists|m: int, j: int|
        0 <= m < n && occupied(g, keys[m], j) && q.accepts(#[trigger] g[keys[m]][j]) {
        let (m, j) = choose|m: int, j: int|
            0 <= m < n && occupied(g, keys[m], j) && q.accepts(#[trigger] g[keys[m]][j]);
        lemma_first_from(g, q, keys, m, j);
    } else {
        let e = keys[n];
        lemma_first_exists(g[e], q, i);
        let f = first(g[e], q)->Some_0;
        assert forall|d: EndpointKey<A>, j: int|
            occupied(g, d, j) && q.accepts(#[trigger] g[d][j]) implies precedes(e, d) || (d == e
            && f <= j) by {
            assert(keys.to_set().contains(d));
            let m = choose|m: int| 0 <= m < keys.len() && keys[m] == d;
            assert(q.accepts(g[keys[m]][j]));
            if m > n {
                assert(precedes(keys[n], keys[m]));
            }
        }
        assert(is_first_in_group(g, q, (e, f)));
    }
}

/// What a search through an instance ID does not find is not there: no live connection of
/// that ID has the tuple, and none in the tuple's group has a redirect target that has it.
pub proof fn missing_instance_is_nowhere<A: AddressFamily>(
    map: ConnectionMap<A>,
    key: Key,
    instance_id: u64,
    p: Place<A>,
)
    requires
        map.wf(),
        instance_id != 0,
        holds(map@, p),
        p.0 == group_key(key.spec_small()),
        at(map@, p).live(),
        at(map@, p).instance_id == instance_id,
    ensures
        at(map@, p).spec_remote_equals(key) ==> live_instance_matching(map@, key, instance_id)
            && instance_match(map@, key, instance_id) is Some,
        at(map@, p).spec_redirect_equals(key) ==> live_instance_matching(map@, key, instance_id),
        at(map@, p).spec_redirect_equals(key) && endpoint_of_key::<A>(key) is Some
            ==> instance_match(map@, key, instance_id) is Some,
{
    let m = map@;
    let c = at(m, p);
    let q = Query::instance(key, instance_id);
    map.groups_are_finite();
    assert(m.contains_key(p.0));
    if c.spec_remote_equals(key) {
        lemma_same_tuple(m, p, key);
        lemma_generations_of(m, c);
        assert(m[p.0].contains_key(p.1));
        assert(endpoint_of(m[p.0][p.1][p.2]) == p.1);
        assert(generations(m, key) == m[p.0][p.1]);
        lemma_first_exists(generations(m, key), q, p.2);
    }
    if c.spec_redirect_equals(key) {
        lemma_first_in_finite_group(m[p.0], Query { redirect: true, ..q }, p.1, p.2);
    }
}

/// A live connection is found under its own tuple, and the connection found has that
/// tuple.
pub proof fn live_connection_is_found<A: AddressFamily>(m: MapView<A>, p: Place<A>)
    requires
        map_wf(m),
        unique_live(m),
        holds(m, p),
        at(m, p).live(),
    ensures
        exact_match(m, Query::live(at(m, p).spec_key())) == Some(p),
{
    let c = at(m, p);
    let key = c.spec_key();
    let q = Query::live(key);
    lemma_generations_of(m, c);
    assert(m.contains_key(p.0));
    assert(m[p.0].contains_key(p.1));
    assert(group_key(m[p.0][p.1][p.2].spec_key().spec_small()) == p.0);
    assert(endpoint_of(m[p.0][p.1][p.2]) == p.1);
    let s = generations(m, key);
    assert(s == m[p.0][p.1]);
    lemma_first_exists(s, q, p.2);
    let i = first(s, q)->Some_0;
    let found: Place<A> = (p.0, p.1, i);
    assert(holds(m, found));
    lemma_same_tuple(m, found, key);
}

/// Storing a connection for a tuple without a live one keeps live tuples unique.
pub proof fn insertion_keeps_live_unique<A: AddressFamily>(m: MapView<A>, c: Connection<A>)
    requires
        map_wf(m),
        unique_live(m),
        exact_match(m, Query::live(c.spec_key())) is None,
    ensures
        unique_live(map_push(m, c)),
{
    let n = map_push(m, c);
    let group = group_key(c.spec_key().spec_small());
    let e = endpoint_of(c);
    let count: int = if m.contains_key(group) && m[group].contains_key(e) {
        m[group][e].len() as int
    } else {
        0
    };
    let new: Place<A> = (group, e, count);
    assert forall|p: Place<A>| #[trigger] holds(n, p) && p != new implies holds(m, p) && at(m, p)
        == at(n, p) by {}
    assert forall|p: Place<A>, q: Place<A>|
        #![trigger holds(n, p), holds(n, q)]
        holds(n, p) && holds(n, q) && at(n, p).live() && at(n, q).live() && at(n, p).spec_key()
            == at(n, q).spec_key() implies p == q by {
        if p != new && q != new {
            assert(holds(m, p) && holds(m, q));
        } else if p != q {
            let other = if p == new {
                q
            } else {
                p
            };
            assert(holds(m, other));
            assert(at(n, new) == c);
            live_connection_is_found(m, other);
        }
    }
}

/// What was stored for a tuple without a live connection is what a read of the tuple
/// selects.
pub proof fn inserted_connection_is_read<A: AddressFamily>(
    m: MapView<A>,
    c: Connection<A>,
    use_ended_fallback: bool,
)
    requires
        map_wf(m),
        exact_match(m, Query::live(c.spec_key())) is None,
        c.live(),
    ensures
        best_match(map_push(m, c), c.spec_key(), use_ended_fallback) matches Some(place) && at(
            map_push(m, c),
            place,
        ) == c,
{
    let key = c.spec_key();
    let n = map_push(m, c);
    let q = Query::live(key);
    lemma_generations_of(m, c);
    let before = generations(m, key);
    let after = generations(n, key);
    assert(after =~= before.push(c));
    assert forall|i: int| 0 <= i < before.len() implies !q.accepts(#[trigger] after[i]) by {
        if q.accepts(before[i]) {
            lemma_first_exists(before, q, i);
        }
    }
    assert(is_first(after, q, before.len() as int));
    lemma_first_unique(after, q, before.len() as int);
}

/// Ending a tuple's live connection frees the tuple for a new one.
pub proof fn ending_frees_the_tuple<A: AddressFamily>(m: MapView<A>, p: Place<A>, now: u64)
    requires
        map_wf(m),
        unique_live(m),
        holds(m, p),
        at(m, p).live(),
    ensures
        exact_match(
            map_set(m, p, at(m, p).spec_ended(now)),
            Query::live(at(m, p).spec_key()),
        ) is None,
        unique_live(map_set(m, p, at(m, p).spec_ended(now))),
{
    let c = at(m, p);
    let key = c.spec_key();
    let q = Query::live(key);
    let n = map_set(m, p, c.spec_ended(now));
    lemma_generations_of(m, c);
    assert(m.contains_key(p.0));
    assert(m[p.0].contains_key(p.1));
    assert forall|r: Place<A>| #[trigger] holds(n, r) implies holds(m, r) && at(n, r) == (if r == p {
        c.spec_ended(now)
    } else {
        at(m, r)
    }) by {}
    assert(unique_live(n)) by {
        assert forall|r: Place<A>, t: Place<A>|
            #![trigger holds(n, r), holds(n, t)]
            holds(n, r) && holds(n, t) && at(n, r).live() && at(n, t).live() && at(n, r).spec_key()
                == at(n, t).spec_key() implies r == t by {
            assert(holds(m, r) && holds(m, t));
        }
    }
    lemma_exact_holds(n, q);
    if let Some(found) = exact_match(n, q) {
        assert(holds(m, found));
        lemma_same_tuple(m, found, key);
        assert(found == p);
    }
}

/// Cleanup keeps, in order, exactly the generations that are live or ended within the
/// grace period.
pub proof fn cleanup_keeps_live_and_recent<A: AddressFamily>(
    m: MapView<A>,
    key: Key,
    cutoff: u64,
)
    requires
        map_wf(m),
    ensures
        generations(map_retained(m, cutoff), key) == generations(m, key).filter(
            |c: Connection<A>| retained(c, cutoff),
        ),
{
    let keep = |c: Connection<A>| retained(c, cutoff);
    let n = map_retained(m, cutoff);
    let group = group_key(key.spec_small());
    reveal(Seq::filter);
    assert(Seq::<Connection<A>>::empty().filter(keep) =~= Seq::empty());
    if let Some(e) = endpoint_of_key::<A>(key) {
        if m.contains_key(group) && m[group].contains_key(e) {
            let kept = group_retained(m[group], cutoff);
            if m[group][e].filter(keep).len() > 0 {
                assert(kept.dom().contains(e));
                assert(n.contains_key(group));
            } else {
                assert(!kept.contains_key(e));
                assert(m[group][e].filter(keep) =~= Seq::empty());
            }
        }
    }
}

} // verus!
