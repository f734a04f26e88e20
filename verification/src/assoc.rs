//! Association lists: sequences of key/value pairs in insertion order, with
//! the lookup and insertion of an insertion-ordered map.

use vstd::prelude::*;

verus! {

/// The value of the first pair with key `k`.
pub open spec fn assoc_get<K, V>(s: Seq<(K, V)>, k: K) -> Option<V>
    decreases s.len(),
{
    if s.len() == 0 {
        None
    } else if s[0].0 == k {
        Some(s[0].1)
    } else {
        assoc_get(s.drop_first(), k)
    }
}

/// `s` with `k` mapped to `v`: the first pair with key `k` gets the new
/// value in place, or the pair is added at the end.
pub open spec fn assoc_insert<K, V>(s: Seq<(K, V)>, k: K, v: V) -> Seq<(K, V)>
    decreases s.len(),
{
    if s.len() == 0 {
        seq![(k, v)]
    } else if s[0].0 == k {
        s.update(0, (k, v))
    } else {
        seq![s[0]] + assoc_insert(s.drop_first(), k, v)
    }
}

/// `s` with the pairs of `t` inserted in order.
pub open spec fn assoc_extend<K, V>(s: Seq<(K, V)>, t: Seq<(K, V)>) -> Seq<(K, V)>
    decreases t.len(),
{
    if t.len() == 0 {
        s
    } else {
        assoc_insert(assoc_extend(s, t.drop_last()), t.last().0, t.last().1)
    }
}

/// Whether no pair of `s` has key `k`.
pub open spec fn assoc_absent<K, V>(s: Seq<(K, V)>, k: K) -> bool {
    forall|j: int| 0 <= j < s.len() ==> #[trigger] s[j].0 != k
}

/// Inserting a key that `s` does not hold adds the pair at the end.
pub proof fn lemma_assoc_insert_absent<K, V>(s: Seq<(K, V)>, k: K, v: V)
    requires
        assoc_absent(s, k),
    ensures
        assoc_insert(s, k, v) == s.push((k, v)),
    decreases s.len(),
{
    if s.len() > 0 {
        assert(s[0].0 != k);
        let t = s.drop_first();
        assert forall|j: int| 0 <= j < t.len() implies #[trigger] t[j].0 != k by {
            assert(s[j + 1].0 != k);
        }
        lemma_assoc_insert_absent(t, k, v);
        assert(seq![s[0]] + t.push((k, v)) =~= s.push((k, v)));
    }
}

} // verus!
