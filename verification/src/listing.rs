//! Listings of maps keyed by `usize`: their entries by increasing key.

use std::collections::BTreeMap;

use vstd::prelude::*;
use vstd::std_specs::btree::{increasing_seq, spec_btree_map_iter};
use vstd::std_specs::iter::IteratorSpec;

use crate::order::{
    lemma_increasing_keys, lemma_increasing_u64_keys, lemma_u64_keys_ordered, lemma_usize_keys_ordered,
};

verus! {

/// `es` lists the entries of `m` by strictly increasing key, each exactly
/// once.
pub open spec fn is_listing<V>(es: Seq<(usize, V)>, m: Map<usize, V>) -> bool {
    &&& forall|i: int, j: int| 0 <= i < j < es.len() ==> es[i].0 < es[j].0
    &&& forall|i: int|
        0 <= i < es.len() ==> m.contains_key(#[trigger] es[i].0) && m[es[i].0] == es[i].1
    &&& forall|k: usize| m.contains_key(k) ==> exists|i: int| 0 <= i < es.len() && #[trigger] es[i].0 == k
}

/// The entries of `m` by increasing key.
pub open spec fn listing_of<V>(m: Map<usize, V>) -> Seq<(usize, V)> {
    choose|es: Seq<(usize, V)>| is_listing(es, m)
}

/// The listing with references followed.
pub open spec fn deref_listing<T>(es: Seq<(usize, &T)>) -> Seq<(usize, T)> {
    Seq::new(es.len(), |i: int| (es[i].0, *es[i].1))
}

/// The entries of a map by increasing key.
pub fn map_listing<T>(m: &BTreeMap<usize, T>) -> (es: Vec<(usize, &T)>)
    ensures
        is_listing(deref_listing(es@), m@),
        deref_listing(es@) == listing_of(m@),
{
    proof {
        lemma_usize_keys_ordered();
    }
    broadcast use vstd::std_specs::btree::group_btree_axioms;

    let mut es: Vec<(usize, &T)> = Vec::new();
    let iter = m.iter();
    let ghost v = iter.remaining();
    assert(v == spec_btree_map_iter(m).remaining());
    for kv in it: iter
        invariant
            es@.len() == it.index(),
            it.seq() == v,
            forall|i: int| 0 <= i < it.index() ==> #[trigger] es@[i] == (*it.seq()[i].0, it.seq()[i].1),
    {
        es.push((*kv.0, kv.1));
    }
    proof {
        let ks = v.map_values(|kv: (&usize, &T)| *kv.0);
        assert(increasing_seq(ks));
        let lv = deref_listing(es@);
        lemma_increasing_keys(ks);
        assert forall|i: int, j: int| 0 <= i < j < lv.len() implies lv[i].0 < lv[j].0 by {
            assert(ks[i] < ks[j]);
        }
        assert forall|k: usize| m@.contains_key(k) implies exists|i: int| 0 <= i < lv.len() && #[trigger] lv[i].0 == k by {
            assert(v.contains((&k, &m@[k])));
            let i = choose|i: int| 0 <= i < v.len() && v[i] == (&k, &m@[k]);
            assert(lv[i].0 == k);
        }
        lemma_listing_of(lv, m@);
    }
    es
}

/// A listing of a map is the listing of it.
pub proof fn lemma_listing_of<V>(es: Seq<(usize, V)>, m: Map<usize, V>)
    requires
        is_listing(es, m),
    ensures
        listing_of(m) == es,
{
    let c = listing_of(m);
    assert(is_listing(c, m));
    lemma_listing_unique(es, c, m);
}

/// The listing of a map with its values mapped is the listing with its
/// values mapped.
pub proof fn lemma_listing_map<V, W>(es: Seq<(usize, V)>, m: Map<usize, V>, f: spec_fn(V) -> W)
    requires
        is_listing(es, m),
    ensures
        is_listing(
            Seq::new(es.len(), |i: int| (es[i].0, f(es[i].1))),
            Map::new(|k: usize| m.contains_key(k), |k: usize| f(m[k])),
        ),
{
    let fs = Seq::new(es.len(), |i: int| (es[i].0, f(es[i].1)));
    let fm = Map::new(|k: usize| m.contains_key(k), |k: usize| f(m[k]));
    assert forall|k: usize| fm.contains_key(k) implies exists|i: int| 0 <= i < fs.len() && #[trigger] fs[i].0 == k by {
        let i = choose|i: int| 0 <= i < es.len() && #[trigger] es[i].0 == k;
        assert(fs[i].0 == k);
    }
}

/// Two listings of the same map are the same.
pub proof fn lemma_listing_unique<V>(a: Seq<(usize, V)>, b: Seq<(usize, V)>, m: Map<usize, V>)
    requires
        is_listing(a, m),
        is_listing(b, m),
    ensures
        a == b,
{
    assert forall|i: int| 0 <= i < a.len() && 0 <= i < b.len() implies a[i].0 == b[i].0 by {
        let x = a[i].0;
        let y = b[i].0;
        assert(m.contains_key(x));
        assert(m.contains_key(y));
        let k = choose|k: int| 0 <= k < b.len() && #[trigger] b[k].0 == x;
        let l = choose|l: int| 0 <= l < a.len() && #[trigger] a[l].0 == y;
        if x < y {
            assert(l > i);
            assert(k < i);
            assert(false) by {
                lemma_listing_prefix(a, b, m, k, i);
            }
        } else if y < x {
            assert(k > i);
            assert(l < i);
            assert(false) by {
                lemma_listing_prefix(b, a, m, l, i);
            }
        }
    }
    if a.len() > b.len() {
        let x = a[b.len() as int].0;
        assert(m.contains_key(x));
        let k = choose|k: int| 0 <= k < b.len() && #[trigger] b[k].0 == x;
        assert(a[k].0 == b[k].0);
        assert(false);
    } else if b.len() > a.len() {
        let y = b[a.len() as int].0;
        assert(m.contains_key(y));
        let l = choose|l: int| 0 <= l < a.len() && #[trigger] a[l].0 == y;
        assert(a[l].0 == b[l].0);
        assert(false);
    }
    assert forall|i: int| 0 <= i < a.len() implies a[i] == b[i] by {
        assert(a[i].0 == b[i].0);
        assert(m[a[i].0] == a[i].1);
        assert(m[b[i].0] == b[i].1);
    }
    assert(a =~= b);
}

/// Some entry among the first `k` of `b` has key `x`.
spec fn key_among<V>(b: Seq<(usize, V)>, k: int, x: usize) -> bool {
    exists|p: int| 0 <= p < k && #[trigger] b[p].0 == x
}

/// In two listings of a map, the entry of one at position `k` differs from
/// the entry of the other at any later position.
proof fn lemma_listing_prefix<V>(a: Seq<(usize, V)>, b: Seq<(usize, V)>, m: Map<usize, V>, k: int, i: int)
    requires
        is_listing(a, m),
        is_listing(b, m),
        0 <= k < i,
        i < a.len(),
        i < b.len(),
    ensures
        b[k].0 != a[i].0,
{
    if b[k].0 == a[i].0 {
        let x = a[i].0;
        assert forall|j: int| 0 <= j < i implies #[trigger] key_among(b, k, a[j].0) by {
            assert(m.contains_key(a[j].0));
            let p = choose|p: int| 0 <= p < b.len() && #[trigger] b[p].0 == a[j].0;
            assert(a[j].0 < x);
            if p >= k {
                if p > k {
                    assert(b[k].0 < b[p].0);
                }
            }
            assert(b[p].0 == a[j].0);
        }
        lemma_no_injection(a, b, i, k);
    }
}

/// `i` increasing keys cannot all be found among the first `k < i` entries
/// of an increasing listing.
proof fn lemma_no_injection<V>(a: Seq<(usize, V)>, b: Seq<(usize, V)>, i: int, k: int)
    requires
        0 <= k < i <= a.len(),
        k <= b.len(),
        forall|p: int, q: int| 0 <= p < q < a.len() ==> a[p].0 < a[q].0,
        forall|p: int, q: int| 0 <= p < q < b.len() ==> b[p].0 < b[q].0,
    ensures
        !(forall|j: int| 0 <= j < i ==> #[trigger] key_among(b, k, a[j].0)),
    decreases k,
{
    if forall|j: int| 0 <= j < i ==> #[trigger] key_among(b, k, a[j].0) {
        assert(key_among(b, k, a[i - 1].0));
        let p = choose|p: int| 0 <= p < k && #[trigger] b[p].0 == a[i - 1].0;
        assert forall|j: int| 0 <= j < i - 1 implies #[trigger] key_among(b, p, a[j].0) by {
            assert(key_among(b, k, a[j].0));
            let q = choose|q: int| 0 <= q < k && #[trigger] b[q].0 == a[j].0;
            assert(a[j].0 < a[i - 1].0);
            if q >= p {
                if q > p {
                    assert(b[p].0 < b[q].0);
                }
            }
            assert(b[q].0 == a[j].0);
        }
        if p == 0 {
            assert(key_among(b, p, a[0].0));
        } else {
            lemma_no_injection(a, b, i - 1, p);
        }
    }
}

/// `es` lists the entries of `m` by strictly increasing `u64` key, each
/// exactly once.
pub open spec fn is_u64_listing<V>(es: Seq<(u64, V)>, m: Map<u64, V>) -> bool {
    &&& forall|i: int, j: int| 0 <= i < j < es.len() ==> es[i].0 < es[j].0
    &&& forall|i: int|
        0 <= i < es.len() ==> m.contains_key(#[trigger] es[i].0) && m[es[i].0] == es[i].1
    &&& forall|k: u64| m.contains_key(k) ==> exists|i: int| 0 <= i < es.len() && #[trigger] es[i].0 == k
}

/// The entries of a map keyed by `u64`, by increasing key.
pub fn u64_listing<V: Copy>(m: &BTreeMap<u64, V>) -> (es: Vec<(u64, V)>)
    ensures
        is_u64_listing(es@, m@),
{
    proof {
        lemma_u64_keys_ordered();
    }
    broadcast use vstd::std_specs::btree::group_btree_axioms;

    let mut es: Vec<(u64, V)> = Vec::new();
    let iter = m.iter();
    let ghost v = iter.remaining();
    assert(v == spec_btree_map_iter(m).remaining());
    for kv in it: iter
        invariant
            es@.len() == it.index(),
            it.seq() == v,
            forall|i: int| 0 <= i < it.index() ==> #[trigger] es@[i] == (*it.seq()[i].0, *it.seq()[i].1),
    {
        es.push((*kv.0, *kv.1));
    }
    proof {
        let ks = v.map_values(|kv: (&u64, &V)| *kv.0);
        assert(increasing_seq(ks));
        lemma_increasing_u64_keys(ks);
        assert forall|i: int, j: int| 0 <= i < j < es@.len() implies es@[i].0 < es@[j].0 by {
            assert(ks[i] < ks[j]);
        }
        assert forall|k: u64| m@.contains_key(k) implies exists|i: int| 0 <= i < es@.len() && #[trigger] es@[i].0 == k by {
            assert(v.contains((&k, &m@[k])));
            let i = choose|i: int| 0 <= i < v.len() && v[i] == (&k, &m@[k]);
            assert(es@[i].0 == k);
        }
    }
    es
}

} // verus!
