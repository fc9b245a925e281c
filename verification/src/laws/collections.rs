//! Maps read back what was written, and sorting loses nothing.

use vstd::prelude::*;

use crate::keymap::{Key, KeyMap};
use crate::order::{sort, Ranked};

verus! {

/// A value that was put in is found under its key, one that was taken out is
/// not, and the values under other keys are what they were.
pub proof fn law_map_reads_back<K: Key, V>(
    a: &mut KeyMap<K, V>,
    k: K,
    v: V,
    was: Option<V>,
    m: &KeyMap<K, V>,
    q: &K,
    got: Option<&V>,
    had: bool,
    b: &mut KeyMap<K, V>,
    taken: Option<V>,
    n: &KeyMap<K, V>,
    left: Option<&V>,
    held: bool,
)
    requires
        call_ensures(KeyMap::<K, V>::insert, (a, k, v), was),
        *m == *final(a),
        call_ensures(KeyMap::<K, V>::get, (m, q), got),
        call_ensures(KeyMap::<K, V>::contains_key, (m, q), had),
        *old(b) == *final(a),
        call_ensures(KeyMap::<K, V>::remove, (b, q), taken),
        *n == *final(b),
        call_ensures(KeyMap::<K, V>::get, (n, q), left),
        call_ensures(KeyMap::<K, V>::contains_key, (n, q), held),
    ensures
        q@ == k@ ==> had && got is Some && *got->0 == v,
        q@ != k@ ==> had == old(a)@.contains_key(q@) && (had ==> *got->0 == old(a)@[q@]),
        had == got is Some,
        was is Some <==> old(a)@.contains_key(k@),
        was is Some ==> was->0 == old(a)@[k@],
        taken is Some <==> had,
        taken is Some ==> taken->0 == *got->0,
        !held && left is None,
        forall|o: K::V| o != q@ ==> (#[trigger] final(b)@.contains_key(o) == final(a)@.contains_key(o)),
        forall|o: K::V| o != q@ && final(a)@.contains_key(o) ==> #[trigger] final(b)@[o] == final(a)@[o],
{
}

/// A map holds what its entries hold, and there is nothing in a new one.
pub proof fn law_map_is_its_entries<K: Key, V>(
    m: &KeyMap<K, V>,
    n: usize,
    i: int,
    fresh: KeyMap<K, V>,
    k: K::V,
)
    requires
        m.wf(),
        0 <= i < m.entries@.len(),
        call_ensures(KeyMap::<K, V>::len, (m,), n),
        call_ensures(KeyMap::<K, V>::new, (), fresh),
    ensures
        m@.contains_key(m.entries@[i].0@) && m@[m.entries@[i].0@] == m.entries@[i].1,
        n == m.entries@.len() && n == m@.dom().len(),
        !fresh@.contains_key(k),
{
    crate::keymap::lemma_entry(m.entries@, i);
}

/// Sorting keeps every item as often as it was there, and puts none before a
/// smaller one.
pub proof fn law_sorting_loses_nothing<T: Ranked>(v: Vec<T>, r: Vec<T>)
    requires
        call_ensures(sort::<T>, (v,), r),
    ensures
        r@.to_multiset() == v@.to_multiset(),
        r@.len() == v@.len(),
        forall|i: int, j: int|
            0 <= i <= j < r@.len() ==> T::rank_le(#[trigger] r@[i], #[trigger] r@[j]),
{
    crate::order::law_ranked_sorts(v@);
}

} // verus!
