//! Facts about filtered sequences, and searches in ordered lists of IDs.

use vstd::prelude::*;

verus! {

/// Every element is less than every later one.
pub open spec fn increasing(s: Seq<u64>) -> bool {
    forall|i: int, j: int| 0 <= i < j < s.len() ==> s[i] < s[j]
}

/// Every element is at most every later one.
pub open spec fn sorted(s: Seq<u64>) -> bool {
    forall|i: int, j: int| 0 <= i < j < s.len() ==> s[i] <= s[j]
}

/// Calls `slice::sort_unstable`, which orders the elements and keeps each of them as
/// often as it occurred.
#[verifier::external_body]
pub(crate) fn sort_unstable(ids: &mut Vec<u64>)
    ensures
        sorted(final(ids)@),
        final(ids)@.to_multiset() == old(ids)@.to_multiset(),
{
    ids.sort_unstable();
}

/// Filtering depends only on what the predicate says of the elements.
pub proof fn lemma_filter_agree<T>(s: Seq<T>, f: spec_fn(T) -> bool, g: spec_fn(T) -> bool)
    requires
        forall|i: int| 0 <= i < s.len() ==> f(#[trigger] s[i]) == g(s[i]),
    ensures
        s.filter(f) == s.filter(g),
    decreases s.len(),
{
    reveal(Seq::filter);
    if s.len() > 0 {
        let rest = s.drop_last();
        assert forall|i: int| 0 <= i < rest.len() implies f(#[trigger] rest[i]) == g(rest[i]) by {
            assert(f(s[i]) == g(s[i]));
        }
        lemma_filter_agree(rest, f, g);
        assert(f(s[s.len() - 1]) == g(s[s.len() - 1]));
    }
}

/// Filtering out everything leaves nothing.
pub proof fn lemma_filter_none<T>(s: Seq<T>, f: spec_fn(T) -> bool)
    requires
        forall|i: int| 0 <= i < s.len() ==> !f(#[trigger] s[i]),
    ensures
        s.filter(f) == Seq::<T>::empty(),
    decreases s.len(),
{
    reveal(Seq::filter);
    if s.len() > 0 {
        let rest = s.drop_last();
        assert forall|i: int| 0 <= i < rest.len() implies !f(#[trigger] rest[i]) by {
            assert(!f(s[i]));
        }
        lemma_filter_none(rest, f);
        assert(!f(s[s.len() - 1]));
    }
}

/// Filtering out nothing leaves everything.
pub proof fn lemma_filter_all<T>(s: Seq<T>, f: spec_fn(T) -> bool)
    requires
        forall|i: int| 0 <= i < s.len() ==> f(#[trigger] s[i]),
    ensures
        s.filter(f) == s,
    decreases s.len(),
{
    reveal(Seq::filter);
    if s.len() > 0 {
        let rest = s.drop_last();
        assert forall|i: int| 0 <= i < rest.len() implies f(#[trigger] rest[i]) by {
            assert(f(s[i]));
        }
        lemma_filter_all(rest, f);
        assert(f(s[s.len() - 1]));
        assert(s =~= rest.push(s.last()));
    }
}

/// A filtered sequence splits at any of its elements.
pub proof fn lemma_filter_split<T>(s: Seq<T>, f: spec_fn(T) -> bool, k: int)
    requires
        0 <= k < s.len(),
    ensures
        s.filter(f) == s.take(k).filter(f) + (if f(s[k]) {
            seq![s[k]]
        } else {
            Seq::empty()
        }) + s.skip(k + 1).filter(f),
{
    let one = seq![s[k]];
    assert(s =~= (s.take(k) + one) + s.skip(k + 1));
    Seq::filter_distributes_over_add(s.take(k) + one, s.skip(k + 1), f);
    Seq::filter_distributes_over_add(s.take(k), one, f);
    reveal_with_fuel(Seq::filter, 2);
    assert(one.filter(f) =~= if f(s[k]) {
        seq![s[k]]
    } else {
        Seq::empty()
    });
}

/// Turning the predicate off for one accepted element removes it from its place.
pub proof fn lemma_filter_without<T>(s: Seq<T>, f: spec_fn(T) -> bool, g: spec_fn(T) -> bool, k: int)
    requires
        0 <= k < s.len(),
        f(s[k]),
        forall|i: int| 0 <= i < s.len() ==> g(#[trigger] s[i]) == (f(s[i]) && i != k),
    ensures
        s.take(k).filter(f).len() < s.filter(f).len(),
        s.filter(f)[s.take(k).filter(f).len() as int] == s[k],
        s.filter(g) == s.filter(f).remove(s.take(k).filter(f).len() as int),
{
    let pos = s.take(k).filter(f).len() as int;
    lemma_filter_split(s, f, k);
    lemma_filter_split(s, g, k);
    assert forall|i: int| 0 <= i < k implies f(#[trigger] s.take(k)[i]) == g(s.take(k)[i]) by {
        assert(g(s[i]) == (f(s[i]) && i != k));
    }
    lemma_filter_agree(s.take(k), f, g);
    assert forall|i: int| 0 <= i < s.skip(k + 1).len() implies f(#[trigger] s.skip(k + 1)[i]) == g(
        s.skip(k + 1)[i],
    ) by {
        assert(g(s[k + 1 + i]) == (f(s[k + 1 + i]) && k + 1 + i != k));
    }
    lemma_filter_agree(s.skip(k + 1), f, g);
    assert(g(s[k]) == (f(s[k]) && k != k));
    assert(s.filter(g) =~= s.filter(f).remove(pos));
}

/// Turning the predicate on for one element after all accepted ones appends it.
pub proof fn lemma_filter_append<T>(s: Seq<T>, f: spec_fn(T) -> bool, g: spec_fn(T) -> bool, k: int)
    requires
        0 <= k < s.len(),
        forall|i: int| k <= i < s.len() ==> !f(#[trigger] s[i]),
        forall|i: int| 0 <= i < s.len() ==> g(#[trigger] s[i]) == (f(s[i]) || i == k),
    ensures
        s.filter(g) == s.filter(f).push(s[k]),
{
    lemma_filter_split(s, f, k);
    lemma_filter_split(s, g, k);
    assert forall|i: int| 0 <= i < k implies f(#[trigger] s.take(k)[i]) == g(s.take(k)[i]) by {
        assert(g(s[i]) == (f(s[i]) || i == k));
    }
    lemma_filter_agree(s.take(k), f, g);
    assert forall|i: int| 0 <= i < s.skip(k + 1).len() implies !f(#[trigger] s.skip(k + 1)[i])
        && !g(s.skip(k + 1)[i]) by {
        assert(g(s[k + 1 + i]) == (f(s[k + 1 + i]) || k + 1 + i == k));
        assert(!f(s[k + 1 + i]));
    }
    lemma_filter_none(s.skip(k + 1), f);
    lemma_filter_none(s.skip(k + 1), g);
    assert(g(s[k]) == (f(s[k]) || k == k));
    assert(!f(s[k]));
    assert(s.filter(g) =~= s.filter(f).push(s[k]));
}

/// What a filtered sequence holds stood in the sequence.
pub proof fn lemma_filter_source<T>(s: Seq<T>, p: spec_fn(T) -> bool, i: int)
    requires
        0 <= i < s.filter(p).len(),
    ensures
        exists|j: int| 0 <= j < s.len() && s[j] == s.filter(p)[i] && p(s[j]),
    decreases s.len(),
{
    reveal(Seq::filter);
    if s.len() > 0 {
        let rest = s.drop_last();
        if i < rest.filter(p).len() {
            lemma_filter_source(rest, p, i);
            let j = choose|j: int|
                0 <= j < rest.len() && rest[j] == rest.filter(p)[i] && p(rest[j]);
            assert(s[j] == s.filter(p)[i] && p(s[j]));
        } else {
            assert(s[s.len() - 1] == s.filter(p)[i]);
        }
    }
}

/// What the predicate accepts is in the filtered sequence.
pub proof fn lemma_filter_target<T>(s: Seq<T>, p: spec_fn(T) -> bool, j: int)
    requires
        0 <= j < s.len(),
        p(s[j]),
    ensures
        exists|i: int| 0 <= i < s.filter(p).len() && #[trigger] s.filter(p)[i] == s[j],
{
    lemma_filter_split(s, p, j);
    let i = s.take(j).filter(p).len() as int;
    assert(s.filter(p)[i] == s[j]);
}

/// Position of an ID in an increasing list, or the position where it belongs.
pub fn search(ids: &Vec<u64>, id: u64) -> (position: Result<usize, usize>)
    requires
        increasing(ids@),
    ensures
        match position {
            Ok(i) => i < ids@.len() && ids@[i as int] == id,
            Err(i) => {
                &&& i <= ids@.len()
                &&& forall|j: int| 0 <= j < i ==> #[trigger] ids@[j] < id
                &&& forall|j: int| i <= j < ids@.len() ==> #[trigger] ids@[j] > id
            },
        },
{
    let mut low: usize = 0;
    let mut high: usize = ids.len();
    while low < high
        invariant
            low <= high <= ids@.len(),
            increasing(ids@),
            forall|j: int| 0 <= j < low ==> #[trigger] ids@[j] < id,
            forall|j: int| high <= j < ids@.len() ==> #[trigger] ids@[j] > id,
        decreases high - low,
    {
        let middle: usize = low + (high - low) / 2;
        if ids[middle] == id {
            return Ok(middle);
        }
        if ids[middle] < id {
            low = middle + 1;
        } else {
            high = middle;
        }
    }
    Err(low)
}

/// Whether an increasing list holds an ID.
pub fn contains(ids: &Vec<u64>, id: u64) -> (r: bool)
    requires
        increasing(ids@),
    ensures
        r == ids@.contains(id),
{
    match search(ids, id) {
        Ok(i) => {
            assert(ids@[i as int] == id);
            true
        },
        Err(i) => {
            assert forall|j: int| 0 <= j < ids@.len() implies ids@[j] != id by {}
            false
        },
    }
}

/// Adds an ID to an increasing list that may hold it already.
pub fn insert(ids: &mut Vec<u64>, id: u64)
    requires
        increasing(old(ids)@),
    ensures
        increasing(final(ids)@),
        final(ids)@.to_set() == old(ids)@.to_set().insert(id),
{
    let ghost before = ids@;
    match search(ids, id) {
        Ok(i) => {
            assert(before[i as int] == id);
            assert(before.to_set().insert(id) =~= before.to_set());
        },
        Err(i) => {
            ids.insert(i, id);
            proof {
                assert forall|x: u64| ids@.to_set().contains(x) <==> before.to_set().insert(
                    id,
                ).contains(x) by {
                    if ids@.contains(x) {
                        let n = choose|n: int| 0 <= n < ids@.len() && ids@[n] == x;
                        if n < i {
                            assert(before[n] == x);
                        } else if n > i {
                            assert(before[n - 1] == x);
                        }
                    }
                    if before.contains(x) {
                        let n = choose|n: int| 0 <= n < before.len() && before[n] == x;
                        if n < i {
                            assert(ids@[n] == x);
                        } else {
                            assert(ids@[n + 1] == x);
                        }
                    }
                    if x == id {
                        assert(ids@[i as int] == x);
                    }
                }
                assert(ids@.to_set() =~= before.to_set().insert(id));
            }
        },
    }
}

/// Removes an ID from an increasing list that may not hold it.
pub fn remove(ids: &mut Vec<u64>, id: u64)
    requires
        increasing(old(ids)@),
    ensures
        increasing(final(ids)@),
        final(ids)@.to_set() == old(ids)@.to_set().remove(id),
{
    let ghost before = ids@;
    match search(ids, id) {
        Ok(i) => {
            ids.remove(i);
            proof {
                assert forall|x: u64| ids@.to_set().contains(x) <==> before.to_set().remove(
                    id,
                ).contains(x) by {
                    if ids@.contains(x) {
                        let n = choose|n: int| 0 <= n < ids@.len() && ids@[n] == x;
                        if n < i {
                            assert(before[n] == x);
                        } else {
                            assert(before[n + 1] == x);
                        }
                    }
                    if before.contains(x) && x != id {
                        let n = choose|n: int| 0 <= n < before.len() && before[n] == x;
                        if n < i {
                            assert(ids@[n] == x);
                        } else {
                            assert(ids@[n - 1] == x);
                        }
                    }
                }
                assert(ids@.to_set() =~= before.to_set().remove(id));
            }
        },
        Err(i) => {
            assert(!before.contains(id));
            assert(before.to_set().remove(id) =~= before.to_set());
        },
    }
}

/// The distinct elements of a list, in increasing order.
pub fn sort_dedup(ids: Vec<u64>) -> (distinct: Vec<u64>)
    ensures
        increasing(distinct@),
        distinct@.to_set() == ids@.to_set(),
{
    let mut ids = ids;
    let ghost before = ids@;
    sort_unstable(&mut ids);
    let ghost all = ids@;
    proof {
        lemma_same_elements(before, all);
    }
    let mut distinct: Vec<u64> = Vec::with_capacity(ids.len());
    let count: usize = ids.len();
    let mut i: usize = 0;
    while i < count
        invariant
            i <= count == all.len(),
            ids@ == all,
            sorted(all),
            increasing(distinct@),
            distinct@.len() > 0 ==> i > 0 && distinct@.last() == all[i - 1],
            distinct@.len() == 0 ==> i == 0,
            distinct@.to_set() == all.take(i as int).to_set(),
        decreases count - i,
    {
        let id: u64 = ids[i];
        let ghost prior = distinct@;
        let last: usize = distinct.len();
        if last == 0 || distinct[last - 1] != id {
            distinct.push(id);
        }
        proof {
            assert(all.take(i + 1) =~= all.take(i as int).push(id));
            all.take(i as int).lemma_push_to_set_commute(id);
            prior.lemma_push_to_set_commute(id);
            if distinct@ == prior {
                assert(prior.to_set().contains(prior.last()));
                assert(prior.to_set().insert(id) =~= prior.to_set());
            } else {
                assert forall|a: int, b: int| 0 <= a < b < distinct@.len() implies distinct@[a]
                    < distinct@[b] by {
                    if b == prior.len() {
                        assert(prior[a] <= prior.last());
                        assert(all[i - 1] <= all[i as int]);
                    }
                }
            }
        }
        i = i + 1;
    }
    assert(all.take(count as int) =~= all);
    distinct
}

/// Sequences with the same multiset have the same elements.
pub proof fn lemma_same_elements(a: Seq<u64>, b: Seq<u64>)
    requires
        a.to_multiset() == b.to_multiset(),
    ensures
        a.to_set() == b.to_set(),
{
    broadcast use vstd::seq_lib::group_to_multiset_ensures;

    assert forall|x: u64| a.contains(x) <==> b.contains(x) by {
        assert(a.contains(x) <==> a.to_multiset().count(x) > 0);
        assert(b.contains(x) <==> b.to_multiset().count(x) > 0);
    }
    assert(a.to_set() =~= b.to_set());
}

} // verus!
