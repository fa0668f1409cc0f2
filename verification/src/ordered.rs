//! Ordered-map helpers shared by every cache.
//!
//! The caches walk their B-trees in ascending key order. `ordered_keys` names that
//! order as a function of the key set alone, so contracts can speak about the walk
//! without mentioning the tree.

use std::collections::BTreeMap;
use vstd::laws_cmp::obeys_cmp;
use vstd::laws_eq::obeys_concrete_eq;
use vstd::prelude::*;
use vstd::std_specs::btree::{increasing_seq, key_obeys_cmp_spec};
use vstd::std_specs::cmp::{OrdSpec, PartialEqSpec, PartialOrdSpec};
use vstd::std_specs::iter::IteratorSpec;

verus! {

/// The key type is totally ordered, and keys that compare equal are equal.
pub open spec fn lawful_key<K: Ord>() -> bool {
    &&& obeys_cmp::<K>()
    &&& obeys_concrete_eq::<K>()
}

/// Strict key order.
pub open spec fn precedes<K: Ord>(a: K, b: K) -> bool {
    a.cmp_spec(&b) is Less
}

/// Every element precedes all later ones.
pub open spec fn ascending<K: Ord>(s: Seq<K>) -> bool {
    forall|i: int, j: int| 0 <= i < j < s.len() ==> precedes(#[trigger] s[i], #[trigger] s[j])
}

/// The keys of a finite set in ascending order.
pub open spec fn ordered_keys<K: Ord>(keys: Set<K>) -> Seq<K> {
    choose|s: Seq<K>| #[trigger] ascending(s) && s.to_set() == keys
}

/// Strict order is irreflexive, antisymmetric and transitive.
pub proof fn lemma_precedes<K: Ord>()
    requires
        lawful_key::<K>(),
    ensures
        forall|a: K, b: K| #[trigger] precedes(a, b) ==> a != b && !precedes(b, a),
        forall|a: K, b: K, c: K|
            #[trigger] precedes(a, b) && #[trigger] precedes(b, c) ==> precedes(a, c),
{
    reveal(vstd::laws_cmp::obeys_partial_cmp_spec_properties);
    reveal(vstd::laws_cmp::obeys_cmp_ord);
    reveal(vstd::laws_cmp::obeys_cmp_partial_ord);
    reveal(vstd::laws_eq::obeys_concrete_eq);
    assert forall|a: K, b: K| #[trigger] precedes(a, b) implies a != b && !precedes(b, a) by {
        assert(a.partial_cmp_spec(&b) == Some(a.cmp_spec(&b)));
        assert(b.partial_cmp_spec(&a) == Some(b.cmp_spec(&a)));
        if a == b {
            assert(a.eq_spec(&b));
        }
    }
    assert forall|a: K, b: K, c: K|
        #[trigger] precedes(a, b) && #[trigger] precedes(b, c) implies precedes(a, c) by {
        assert(a.partial_cmp_spec(&b) == Some(a.cmp_spec(&b)));
        assert(b.partial_cmp_spec(&c) == Some(b.cmp_spec(&c)));
        assert(a.partial_cmp_spec(&c) == Some(a.cmp_spec(&c)));
    }
}

/// An ascending sequence is determined by its elements.
pub proof fn lemma_ascending_unique<K: Ord>(s: Seq<K>, t: Seq<K>)
    requires
        lawful_key::<K>(),
        ascending(s),
        ascending(t),
        s.to_set() == t.to_set(),
    ensures
        s == t,
    decreases s.len(),
{
    lemma_precedes::<K>();
    if s.len() == 0 {
        if t.len() > 0 {
            assert(t.to_set().contains(t[0]));
            assert(s.to_set().contains(t[0]));
        }
        assert(s =~= t);
    } else {
        assert(s.to_set().contains(s.last()));
        assert(t.to_set().contains(s.last()));
        let i = choose|i: int| 0 <= i < t.len() && t[i] == s.last();
        assert(t.to_set().contains(t.last()));
        assert(s.to_set().contains(t.last()));
        let j = choose|j: int| 0 <= j < s.len() && s[j] == t.last();
        assert(s.last() == t.last());
        let s1 = s.drop_last();
        let t1 = t.drop_last();
        assert forall|k: K| s1.to_set().contains(k) <==> t1.to_set().contains(k) by {
            if s1.to_set().contains(k) {
                let a = choose|a: int| 0 <= a < s1.len() && s1[a] == k;
                assert(s[a] == k);
                assert(precedes(s[a], s[s.len() - 1]));
                assert(s.to_set().contains(k));
                assert(t.to_set().contains(k));
                let b = choose|b: int| 0 <= b < t.len() && t[b] == k;
                assert(t1[b] == k);
            }
            if t1.to_set().contains(k) {
                let a = choose|a: int| 0 <= a < t1.len() && t1[a] == k;
                assert(t[a] == k);
                assert(precedes(t[a], t[t.len() - 1]));
                assert(t.to_set().contains(k));
                assert(s.to_set().contains(k));
                let b = choose|b: int| 0 <= b < s.len() && s[b] == k;
                assert(s1[b] == k);
            }
        }
        assert(s1.to_set() =~= t1.to_set());
        lemma_ascending_unique(s1, t1);
        assert(s =~= s1.push(s.last()));
        assert(t =~= t1.push(t.last()));
    }
}

/// An ascending enumeration of a key set is its `ordered_keys`.
pub proof fn lemma_ordered_keys<K: Ord>(s: Seq<K>)
    requires
        lawful_key::<K>(),
        ascending(s),
    ensures
        ordered_keys(s.to_set()) == s,
        s.no_duplicates(),
{
    let t = ordered_keys(s.to_set());
    assert(ascending(t) && t.to_set() == s.to_set());
    lemma_ascending_unique(s, t);
    lemma_precedes::<K>();
}

/// Of two different keys one precedes the other.
proof fn lemma_total_order<K: Ord>(a: K, b: K)
    requires
        lawful_key::<K>(),
        a != b,
    ensures
        precedes(a, b) || precedes(b, a),
{
    reveal(vstd::laws_cmp::obeys_partial_cmp_spec_properties);
    reveal(vstd::laws_cmp::obeys_cmp_ord);
    reveal(vstd::laws_cmp::obeys_cmp_partial_ord);
    reveal(vstd::laws_eq::obeys_concrete_eq);
    assert(a.partial_cmp_spec(&b) == Some(a.cmp_spec(&b)));
    assert(b.partial_cmp_spec(&a) == Some(b.cmp_spec(&a)));
    assert(a.eq_spec(&b) == (a.partial_cmp_spec(&b) == Some(core::cmp::Ordering::Equal)));
}

/// A key has its place in every ascending sequence that lacks it.
proof fn lemma_insert_ascending<K: Ord>(s: Seq<K>, key: K) -> (t: Seq<K>)
    requires
        lawful_key::<K>(),
        ascending(s),
        !s.contains(key),
    ensures
        ascending(t),
        t.to_set() == s.to_set().insert(key),
    decreases s.len(),
{
    lemma_precedes::<K>();
    if s.len() == 0 {
        let t = seq![key];
        assert(t[0] == key);
        assert(t.to_set() =~= s.to_set().insert(key));
        t
    } else {
        let last = s.last();
        let rest = s.drop_last();
        assert(s.contains(last));
        lemma_total_order(key, last);
        assert(s =~= rest.push(last));
        if precedes(last, key) {
            let t = s.push(key);
            assert forall|i: int, j: int| 0 <= i < j < t.len() implies precedes(
                #[trigger] t[i],
                #[trigger] t[j],
            ) by {
                if j == s.len() && i < s.len() - 1 {
                    assert(precedes(s[i], s[s.len() - 1]));
                }
            }
            assert forall|k: K| t.to_set().contains(k) == s.to_set().insert(key).contains(k) by {
                assert(t[s.len() as int] == key);
                if s.contains(k) {
                    let i = choose|i: int| 0 <= i < s.len() && s[i] == k;
                    assert(t[i] == k);
                }
            }
            assert(t.to_set() =~= s.to_set().insert(key));
            t
        } else {
            assert(!rest.contains(key)) by {
                if rest.contains(key) {
                    let i = choose|i: int| 0 <= i < rest.len() && rest[i] == key;
                    assert(s[i] == key);
                }
            }
            let u = lemma_insert_ascending(rest, key);
            let t = u.push(last);
            assert forall|i: int, j: int| 0 <= i < j < t.len() implies precedes(
                #[trigger] t[i],
                #[trigger] t[j],
            ) by {
                if j == u.len() {
                    assert(u.to_set().contains(u[i]));
                    if u[i] != key {
                        assert(rest.to_set().contains(u[i]));
                        let m = choose|m: int| 0 <= m < rest.len() && rest[m] == u[i];
                        assert(precedes(s[m], s[s.len() - 1]));
                    }
                }
            }
            assert forall|k: K| t.to_set().contains(k) == s.to_set().insert(key).contains(k) by {
                assert(t[u.len() as int] == last);
                if t.contains(k) {
                    let i = choose|i: int| 0 <= i < t.len() && t[i] == k;
                    if i < u.len() {
                        assert(u[i] == k);
                        assert(u.to_set().contains(k));
                        if k != key {
                            assert(rest.to_set().contains(k));
                            let m = choose|m: int| 0 <= m < rest.len() && rest[m] == k;
                            assert(s[m] == k);
                        }
                    }
                }
                if k == key || s.contains(k) && k != last {
                    if k != key {
                        let m = choose|m: int| 0 <= m < s.len() && s[m] == k;
                        assert(rest[m] == k);
                        assert(rest.to_set().contains(k));
                    }
                    assert(u.to_set().contains(k));
                    let i = choose|i: int| 0 <= i < u.len() && u[i] == k;
                    assert(t[i] == k);
                }
            }
            assert(t.to_set() =~= s.to_set().insert(key));
            t
        }
    }
}

/// Every finite set of lawful keys has its keys in ascending order: `ordered_keys` lists
/// each of them once, and nothing else.
pub proof fn ordered_keys_list_the_set<K: Ord>(keys: Set<K>)
    requires
        lawful_key::<K>(),
        keys.finite(),
    ensures
        ascending(ordered_keys(keys)),
        ordered_keys(keys).to_set() == keys,
        ordered_keys(keys).no_duplicates(),
        ordered_keys(keys).len() == keys.len(),
    decreases keys.len(),
{
    if keys.len() == 0 {
        let s = Seq::<K>::empty();
        assert(s.to_set() =~= keys);
        lemma_ordered_keys(s);
    } else {
        let key = keys.choose();
        let rest = keys.remove(key);
        ordered_keys_list_the_set(rest);
        let s = ordered_keys(rest);
        assert(!s.contains(key)) by {
            if s.contains(key) {
                assert(s.to_set().contains(key));
            }
        }
        let t = lemma_insert_ascending(s, key);
        assert(t.to_set() =~= keys);
        lemma_ordered_keys(t);
    }
    ordered_keys(keys).unique_seq_to_set();
}

/// Pairs of lawful keys are lawful keys.
pub proof fn lemma_pair_key<A: Ord, B: Ord>()
    requires
        lawful_key::<A>(),
        lawful_key::<B>(),
    ensures
        lawful_key::<(A, B)>(),
{
    broadcast use vstd::laws_cmp::group_laws_cmp;

    reveal(vstd::laws_eq::obeys_concrete_eq);
}

/// Machine integers are lawful keys.
pub proof fn lemma_integer_keys()
    ensures
        lawful_key::<u16>(),
        lawful_key::<u32>(),
        lawful_key::<u64>(),
{
    broadcast use vstd::laws_cmp::group_laws_cmp;
    broadcast use vstd::laws_eq::group_laws_eq;

}

/// Whether two keys are equal.
pub fn same_key<K: Ord>(a: &K, b: &K) -> (r: bool)
    requires
        lawful_key::<K>(),
    ensures
        r == (*a == *b),
{
    reveal(vstd::laws_eq::obeys_concrete_eq);
    *a == *b
}

/// The keys of a map in ascending order, each copied by `copy`.
pub fn sorted_keys<K: Ord, V>(map: &BTreeMap<K, V>, copy: impl Fn(&K) -> K) -> (keys: Vec<K>)
    requires
        lawful_key::<K>(),
        forall|k: K| #[trigger] call_requires(copy, (&k,)),
        forall|k: K, c: K| #[trigger] call_ensures(copy, (&k,), c) ==> c == k,
    ensures
        keys@ == ordered_keys(map@.dom()),
        ascending(keys@),
        keys@.no_duplicates(),
        keys@.to_set() == map@.dom(),
{
    broadcast use vstd::laws_cmp::group_laws_cmp;
    broadcast use vstd::std_specs::btree::group_btree_axioms;

    assert(key_obeys_cmp_spec::<K>());
    let mut keys: Vec<K> = Vec::new();
    for key in iter: map.keys()
        invariant
            keys@.len() == iter.index(),
            forall|i: int| 0 <= i < keys@.len() ==> keys@[i] == *iter.seq()[i],
            forall|k: K| #[trigger] call_requires(copy, (&k,)),
            forall|k: K, c: K| #[trigger] call_ensures(copy, (&k,), c) ==> c == k,
    {
        keys.push(copy(key));
    }
    proof {
        let walk = vstd::std_specs::btree::spec_keys_iter(map).remaining();
        assert(keys@ =~= walk.unref());
        assert(obeys_cmp::<&K>());
        assert(increasing_seq(walk));
        assert forall|i: int, j: int| 0 <= i < j < keys@.len() implies precedes(
            #[trigger] keys@[i],
            #[trigger] keys@[j],
        ) by {
            assert(OrdSpec::cmp_spec(&walk[i], &walk[j]) is Less);
        }
        lemma_ordered_keys(keys@);
    }
    keys
}

/// Calls `BTreeMap::get_mut`, which borrows the value stored under `key`, if any.
///
/// The borrowed value is the stored one, and whatever is written through it is what
/// the map holds under `key` afterwards; every other entry is untouched.
#[verifier::external_body]
pub(crate) fn get_mut<'a, K: Ord, V>(map: &'a mut BTreeMap<K, V>, key: &K) -> (value: Option<&'a mut V>)
    requires
        lawful_key::<K>(),
    ensures
        match value {
            Some(v) => {
                &&& old(map)@.contains_key(*key)
                &&& *v == old(map)@[*key]
                &&& final(map)@ == old(map)@.insert(*key, *final(v))
            },
            None => !old(map)@.contains_key(*key) && final(map)@ == old(map)@,
        },
{
    map.get_mut(key)
}

} // verus!
