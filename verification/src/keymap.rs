//! A map kept as a list of entries whose keys are pairwise different.

use vstd::prelude::*;

verus! {

/// A key compared by its view.
pub trait Key: View + Sized {
    fn same(&self, other: &Self) -> (r: bool)
        ensures
            r == (self@ == other@),
    ;
}

impl Key for String {
    fn same(&self, other: &Self) -> (r: bool) {
        *self == *other
    }
}

/// The entries of a map in the order in which their keys came.
#[derive(Debug)]
pub struct KeyMap<K, V> {
    pub entries: Vec<(K, V)>,
}

/// Whether `k` is the key of one of the entries.
pub open spec fn has_key<K: View, V>(entries: Seq<(K, V)>, k: K::V) -> bool {
    exists|i: int| 0 <= i < entries.len() && #[trigger] entries[i].0@ == k
}

/// The position of the entry whose key is `k`.
pub open spec fn key_index<K: View, V>(entries: Seq<(K, V)>, k: K::V) -> int {
    choose|i: int| 0 <= i < entries.len() && #[trigger] entries[i].0@ == k
}

/// No two entries have the same key.
pub open spec fn distinct_keys<K: View, V>(entries: Seq<(K, V)>) -> bool {
    forall|i: int, j: int|
        0 <= i < j < entries.len() ==> #[trigger] entries[i].0@ != #[trigger] entries[j].0@
}

/// The map that the entries stand for.
pub open spec fn map_of<K: View, V>(entries: Seq<(K, V)>) -> Map<K::V, V> {
    Map::new(|k: K::V| has_key(entries, k), |k: K::V| entries[key_index(entries, k)].1)
}

impl<K: View, V> View for KeyMap<K, V> {
    type V = Map<K::V, V>;

    open spec fn view(&self) -> Map<K::V, V> {
        map_of(self.entries@)
    }
}

/// Each entry is where its key leads.
pub proof fn lemma_entry<K: View, V>(entries: Seq<(K, V)>, i: int)
    requires
        distinct_keys(entries),
        0 <= i < entries.len(),
    ensures
        map_of(entries).contains_key(entries[i].0@),
        map_of(entries)[entries[i].0@] == entries[i].1,
        key_index(entries, entries[i].0@) == i,
{
    let k = entries[i].0@;
    assert(has_key(entries, k));
    let j = key_index(entries, k);
    assert(0 <= j < entries.len() && entries[j].0@ == k);
    if i < j {
        assert(entries[i].0@ != entries[j].0@);
    } else if j < i {
        assert(entries[j].0@ != entries[i].0@);
    }
}

/// Appending an entry under a new key inserts it.
pub proof fn lemma_append<K: View, V>(entries: Seq<(K, V)>, k: K, v: V)
    requires
        distinct_keys(entries),
        !has_key(entries, k@),
    ensures
        distinct_keys(entries.push((k, v))),
        map_of(entries.push((k, v))) == map_of(entries).insert(k@, v),
{
    let more = entries.push((k, v));
    assert forall|i: int, j: int| 0 <= i < j < more.len() implies #[trigger] more[i].0@
        != #[trigger] more[j].0@ by {
        assert(more[i] == entries[i]);
        if j < entries.len() {
            assert(more[j] == entries[j]);
        }
    }
    assert forall|q: K::V| map_of(more).contains_key(q) == #[trigger] map_of(entries).insert(
        k@,
        v,
    ).contains_key(q) by {
        if has_key(entries, q) {
            let i = key_index(entries, q);
            assert(more[i].0@ == q);
        }
        if has_key(more, q) {
            let i = key_index(more, q);
            if i < entries.len() {
                assert(entries[i].0@ == q);
            }
        }
        assert(more[entries.len() as int].0@ == k@);
    }
    assert forall|q: K::V| map_of(more).contains_key(q) implies map_of(more)[q]
        == #[trigger] map_of(entries).insert(k@, v)[q] by {
        let i = key_index(more, q);
        lemma_entry(more, i);
        if i < entries.len() {
            assert(entries[i].0@ == q);
            lemma_entry(entries, i);
        }
    }
    assert(map_of(more) =~= map_of(entries).insert(k@, v));
}

/// Replacing the value of an entry inserts it under its key.
pub proof fn lemma_replace<K: View, V>(entries: Seq<(K, V)>, i: int, k: K, v: V)
    requires
        distinct_keys(entries),
        0 <= i < entries.len(),
        entries[i].0@ == k@,
    ensures
        distinct_keys(entries.update(i, (k, v))),
        map_of(entries.update(i, (k, v))) == map_of(entries).insert(k@, v),
{
    let more = entries.update(i, (k, v));
    assert forall|a: int, b: int| 0 <= a < b < more.len() implies #[trigger] more[a].0@
        != #[trigger] more[b].0@ by {
        assert(more[a].0@ == entries[a].0@);
        assert(more[b].0@ == entries[b].0@);
    }
    assert forall|q: K::V| map_of(more).contains_key(q) == #[trigger] map_of(entries).insert(
        k@,
        v,
    ).contains_key(q) by {
        if has_key(entries, q) {
            let j = key_index(entries, q);
            assert(more[j].0@ == q);
        }
        if has_key(more, q) {
            let j = key_index(more, q);
            assert(entries[j].0@ == q);
        }
        assert(more[i].0@ == k@);
    }
    assert forall|q: K::V| map_of(more).contains_key(q) implies map_of(more)[q]
        == #[trigger] map_of(entries).insert(k@, v)[q] by {
        let j = key_index(more, q);
        lemma_entry(more, j);
        assert(entries[j].0@ == q);
        lemma_entry(entries, j);
        if q == k@ {
            lemma_entry(more, i);
        }
    }
    assert(map_of(more) =~= map_of(entries).insert(k@, v));
}

/// Taking an entry out removes its key.
pub proof fn lemma_take_out<K: View, V>(entries: Seq<(K, V)>, i: int)
    requires
        distinct_keys(entries),
        0 <= i < entries.len(),
    ensures
        distinct_keys(entries.remove(i)),
        map_of(entries.remove(i)) == map_of(entries).remove(entries[i].0@),
{
    let k = entries[i].0@;
    let less = entries.remove(i);
    assert forall|a: int, b: int| 0 <= a < b < less.len() implies #[trigger] less[a].0@
        != #[trigger] less[b].0@ by {
        let a1 = if a < i { a } else { a + 1 };
        let b1 = if b < i { b } else { b + 1 };
        assert(less[a] == entries[a1] && less[b] == entries[b1]);
        assert(entries[a1].0@ != entries[b1].0@);
    }
    assert forall|q: K::V| map_of(less).contains_key(q) == #[trigger] map_of(entries).remove(
        k,
    ).contains_key(q) by {
        if has_key(less, q) {
            let a = key_index(less, q);
            let a1 = if a < i { a } else { a + 1 };
            assert(less[a] == entries[a1]);
            assert(entries[a1].0@ == q);
            lemma_entry(entries, a1);
            lemma_entry(entries, i);
        }
        if has_key(entries, q) && q != k {
            let a = key_index(entries, q);
            let a1 = if a < i { a } else { a - 1 };
            assert(less[a1] == entries[a]);
            assert(less[a1].0@ == q);
        }
    }
    assert forall|q: K::V| map_of(less).contains_key(q) implies map_of(less)[q]
        == #[trigger] map_of(entries).remove(k)[q] by {
        let a = key_index(less, q);
        let a1 = if a < i { a } else { a + 1 };
        assert(less[a] == entries[a1]);
        lemma_entry(less, a);
        lemma_entry(entries, a1);
    }
    assert(map_of(less) =~= map_of(entries).remove(k));
}

/// There are as many keys as entries.
pub proof fn lemma_size<K: View, V>(entries: Seq<(K, V)>)
    requires
        distinct_keys(entries),
    ensures
        map_of(entries).dom().finite(),
        map_of(entries).dom().len() == entries.len(),
    decreases entries.len(),
{
    if entries.len() == 0 {
        assert(map_of(entries).dom() =~= Set::<K::V>::empty());
    } else {
        let less = entries.drop_last();
        assert forall|a: int, b: int| 0 <= a < b < less.len() implies #[trigger] less[a].0@
            != #[trigger] less[b].0@ by {
            assert(less[a] == entries[a] && less[b] == entries[b]);
        }
        lemma_size(less);
        let (k, v) = entries.last();
        assert(!has_key(less, k@)) by {
            if has_key(less, k@) {
                let i = key_index(less, k@);
                assert(entries[i].0@ != entries[entries.len() - 1].0@);
            }
        }
        lemma_append(less, k, v);
        assert(less.push((k, v)) =~= entries);
        assert(map_of(entries).dom() =~= map_of(less).dom().insert(k@));
    }
}

impl<K: Key, V> KeyMap<K, V> {
    pub open spec fn wf(&self) -> bool {
        distinct_keys(self.entries@)
    }

    pub fn new() -> (m: Self)
        ensures
            m.wf(),
            m@ == Map::<K::V, V>::empty(),
            m.entries@.len() == 0,
    {
        let m = KeyMap { entries: Vec::new() };
        proof {
            assert(m@ =~= Map::<K::V, V>::empty());
        }
        m
    }

    pub fn len(&self) -> (n: usize)
        requires
            self.wf(),
        ensures
            n == self@.dom().len(),
            n == self.entries@.len(),
            self@.dom().finite(),
    {
        proof {
            lemma_size(self.entries@);
        }
        self.entries.len()
    }

    /// The position of the entry under `k`, or the number of entries.
    pub fn find(&self, k: &K) -> (i: usize)
        requires
            self.wf(),
        ensures
            i <= self.entries@.len(),
            i < self.entries@.len() <==> self@.contains_key(k@),
            i < self.entries@.len() ==> self.entries@[i as int].0@ == k@
                && self@[k@] == self.entries@[i as int].1,
    {
        let n: usize = self.entries.len();
        for i in 0..n
            invariant
                n == self.entries@.len(),
                self.wf(),
                forall|j: int| 0 <= j < i ==> #[trigger] self.entries@[j].0@ != k@,
        {
            if self.entries[i].0.same(k) {
                proof {
                    lemma_entry(self.entries@, i as int);
                }
                return i;
            }
        }
        n
    }

    pub fn contains_key(&self, k: &K) -> (r: bool)
        requires
            self.wf(),
        ensures
            r == self@.contains_key(k@),
    {
        self.find(k) < self.entries.len()
    }

    pub fn get(&self, k: &K) -> (r: Option<&V>)
        requires
            self.wf(),
        ensures
            match r {
                Some(v) => self@.contains_key(k@) && *v == self@[k@],
                None => !self@.contains_key(k@),
            },
    {
        let i: usize = self.find(k);
        if i < self.entries.len() {
            Some(&self.entries[i].1)
        } else {
            None
        }
    }

    /// Puts `v` under `k`; the value that was there comes back.
    pub fn insert(&mut self, k: K, v: V) -> (r: Option<V>)
        requires
            old(self).wf(),
        ensures
            final(self).wf(),
            final(self)@ == old(self)@.insert(k@, v),
            match r {
                Some(w) => old(self)@.contains_key(k@) && w == old(self)@[k@],
                None => !old(self)@.contains_key(k@),
            },
            old(self)@.contains_key(k@) ==> final(self).entries@.len() == old(
                self,
            ).entries@.len(),
            !old(self)@.contains_key(k@) ==> final(self).entries@ == old(self).entries@.push(
                (k, v),
            ),
    {
        let i: usize = self.find(&k);
        if i < self.entries.len() {
            let ghost before = self.entries@;
            let mut w = v;
            std::mem::swap(&mut self.entries[i].1, &mut w);
            proof {
                lemma_replace(before, i as int, before[i as int].0, v);
                assert(self.entries@ =~= before.update(i as int, (before[i as int].0, v)));
            }
            Some(w)
        } else {
            proof {
                lemma_append(self.entries@, k, v);
            }
            self.entries.push((k, v));
            None
        }
    }

    /// The value under `k`, open to change.
    pub fn get_mut(&mut self, k: &K) -> (r: Option<&mut V>)
        requires
            old(self).wf(),
        ensures
            match r {
                Some(v) => {
                    &&& old(self)@.contains_key(k@)
                    &&& *v == old(self)@[k@]
                    &&& final(self).wf()
                    &&& final(self)@ == old(self)@.insert(k@, *final(v))
                    &&& final(self).entries@.len() == old(self).entries@.len()
                },
                None => !old(self)@.contains_key(k@) && *final(self) == *old(self),
            },
    {
        let i: usize = self.find(k);
        if i < self.entries.len() {
            let ghost before = self.entries@;
            proof {
                assert forall|v: V| #[trigger]
                    map_of(before.update(i as int, (before[i as int].0, v))) == map_of(
                        before,
                    ).insert(k@, v) && distinct_keys(
                        before.update(i as int, (before[i as int].0, v)),
                    ) by {
                    lemma_replace(before, i as int, before[i as int].0, v);
                }
            }
            Some(&mut self.entries[i].1)
        } else {
            None
        }
    }

    /// Takes the entry under `k` out.
    pub fn remove(&mut self, k: &K) -> (r: Option<V>)
        requires
            old(self).wf(),
        ensures
            final(self).wf(),
            final(self)@ == old(self)@.remove(k@),
            match r {
                Some(v) => old(self)@.contains_key(k@) && v == old(self)@[k@],
                None => !old(self)@.contains_key(k@),
            },
    {
        let i: usize = self.find(k);
        if i < self.entries.len() {
            proof {
                lemma_take_out(self.entries@, i as int);
            }
            let (_, v) = self.entries.remove(i);
            Some(v)
        } else {
            proof {
                assert(self@.remove(k@) =~= self@);
            }
            None
        }
    }

    /// Keeps the entries whose value is in `p`.
    pub fn retain<F: Fn(&V) -> bool>(&mut self, f: F, Ghost(p): Ghost<spec_fn(V) -> bool>)
        requires
            old(self).wf(),
            forall|v: &V| f.requires((v,)),
            forall|v: &V, b: bool| f.ensures((v,), b) ==> b == p(*v),
        ensures
            final(self).wf(),
            final(self)@ == kept(old(self)@, p),
    {
        let mut i: usize = 0;
        let ghost whole = self@;
        proof {
            assert(whole =~= kept_from(whole, Set::empty(), p));
            assert(self.entries@.subrange(0, self.entries@.len() as int) =~= self.entries@);
        }
        let ghost mut seen: Set<K::V> = Set::empty();
        while i < self.entries.len()
            invariant
                self.wf(),
                i <= self.entries@.len(),
                forall|v: &V| f.requires((v,)),
                forall|v: &V, b: bool| f.ensures((v,), b) ==> b == p(*v),
                self@ == kept_from(whole, seen, p),
                forall|k: K::V| #[trigger] whole.contains_key(k) ==> seen.contains(k) || has_key(
                    self.entries@.subrange(i as int, self.entries@.len() as int),
                    k,
                ),
                forall|j: int|
                    i <= j < self.entries@.len() ==> !seen.contains(
                        #[trigger] self.entries@[j].0@,
                    ),
            decreases self.entries@.len() - i,
        {
            let ghost before = self.entries@;
            let ghost k0 = before[i as int].0@;
            let ghost seen0 = seen;
            let keep = f(&self.entries[i].1);
            proof {
                lemma_entry(before, i as int);
                assert(whole.contains_key(k0) && whole[k0] == before[i as int].1);
                seen = seen.insert(k0);
                assert forall|k: K::V| #[trigger] whole.contains_key(k) implies seen.contains(k)
                    || has_key(before.subrange(i + 1, before.len() as int), k) by {
                    if !seen.contains(k) {
                        let tail = before.subrange(i as int, before.len() as int);
                        let j = key_index(tail, k);
                        assert(tail[j] == before[i + j]);
                        assert(j != 0);
                        assert(before.subrange(i + 1, before.len() as int)[j - 1].0@ == k);
                    }
                }
            }
            if keep {
                proof {
                    assert(self@ =~= kept_from(whole, seen, p));
                }
                i = i + 1;
            } else {
                proof {
                    lemma_take_out(before, i as int);
                }
                let _dropped = self.entries.remove(i);
                proof {
                    assert(self.entries@.subrange(i as int, self.entries@.len() as int)
                        =~= before.subrange(i + 1, before.len() as int));
                    assert(self@ =~= kept_from(whole, seen, p));
                    assert forall|j: int| i <= j < self.entries@.len() implies !seen.contains(
                        #[trigger] self.entries@[j].0@,
                    ) by {
                        assert(self.entries@[j] == before[j + 1]);
                    }
                }
            }
        }
        proof {
            assert forall|k: K::V| whole.contains_key(k) implies seen.contains(k) by {}
            assert(self@ =~= kept(whole, p));
        }
    }
}

/// The entries of `m` whose value is in `p`.
pub open spec fn kept<Q, V>(m: Map<Q, V>, p: spec_fn(V) -> bool) -> Map<Q, V> {
    Map::new(|k: Q| m.contains_key(k) && p(m[k]), |k: Q| m[k])
}

/// `m` without the keys of `seen` whose value is not in `p`.
spec fn kept_from<Q, V>(m: Map<Q, V>, seen: Set<Q>, p: spec_fn(V) -> bool) -> Map<Q, V> {
    Map::new(|k: Q| m.contains_key(k) && (seen.contains(k) ==> p(m[k])), |k: Q| m[k])
}

} // verus!
