use vstd::prelude::*;

verus! {

/// Keys of `s` strictly increase from front to back.
pub open spec fn keys_increasing<V>(s: Seq<(u64, V)>) -> bool {
    forall|i: int, j: int| 0 <= i < j < s.len() ==> s[i].0 < s[j].0
}

/// Whether some entry of `s` has key `k`.
pub open spec fn has_key<V>(s: Seq<(u64, V)>, k: u64) -> bool {
    exists|i: int| 0 <= i < s.len() && #[trigger] s[i].0 == k
}

/// The map that a sequence of entries with distinct keys stands for.
pub open spec fn entries_map<V>(s: Seq<(u64, V)>) -> Map<u64, V> {
    Map::new(
        |k: u64| has_key(s, k),
        |k: u64| s[choose|i: int| 0 <= i < s.len() && #[trigger] s[i].0 == k].1,
    )
}

/// With increasing keys, the entry at index `i` is what the map holds for its key.
pub proof fn lemma_entry_in_map<V>(s: Seq<(u64, V)>, i: int)
    requires
        keys_increasing(s),
        0 <= i < s.len(),
    ensures
        entries_map(s).contains_key(s[i].0),
        entries_map(s)[s[i].0] == s[i].1,
{
    assert(has_key(s, s[i].0));
    let j = choose|j: int| 0 <= j < s.len() && #[trigger] s[j].0 == s[i].0;
    if j != i {
        if j < i {
            assert(s[j].0 < s[i].0);
        } else {
            assert(s[i].0 < s[j].0);
        }
    }
}

/// With increasing keys, dropping the first entry drops its key from the map.
pub proof fn lemma_map_drop_first<V>(s: Seq<(u64, V)>)
    requires
        keys_increasing(s),
        s.len() > 0,
    ensures
        entries_map(s.drop_first()) == entries_map(s).remove(s[0].0),
{
    let t = s.drop_first();
    assert forall|k: u64| #[trigger] entries_map(t).contains_key(k) == entries_map(s).remove(s[0].0).contains_key(k) by {
        if has_key(t, k) {
            let j = choose|j: int| 0 <= j < t.len() && #[trigger] t[j].0 == k;
            assert(s[j + 1].0 == k);
            assert(s[0].0 < s[j + 1].0);
        }
        if has_key(s, k) && k != s[0].0 {
            let j = choose|j: int| 0 <= j < s.len() && #[trigger] s[j].0 == k;
            assert(j != 0);
            assert(t[j - 1].0 == k);
        }
    }
    assert forall|k: u64| #[trigger] entries_map(t).contains_key(k) implies entries_map(t)[k] == entries_map(s)[k] by {
        let j = choose|j: int| 0 <= j < t.len() && #[trigger] t[j].0 == k;
        lemma_entry_in_map(t, j);
        lemma_entry_in_map(s, j + 1);
    }
    assert(entries_map(t) =~= entries_map(s).remove(s[0].0));
}

/// Two entry sequences with increasing keys that stand for the same map are equal.
pub proof fn lemma_entries_determined<V>(s1: Seq<(u64, V)>, s2: Seq<(u64, V)>)
    requires
        keys_increasing(s1),
        keys_increasing(s2),
        entries_map(s1) == entries_map(s2),
    ensures
        s1 == s2,
    decreases s1.len(),
{
    if s1.len() == 0 {
        if s2.len() > 0 {
            lemma_entry_in_map(s2, 0);
        }
        assert(s1 =~= s2);
    } else {
        lemma_entry_in_map(s1, 0);
        if s2.len() == 0 {
            assert(has_key(s2, s1[0].0));
        } else {
            lemma_entry_in_map(s2, 0);
            assert(has_key(s2, s1[0].0));
            assert(has_key(s1, s2[0].0));
            let j2 = choose|j: int| 0 <= j < s2.len() && #[trigger] s2[j].0 == s1[0].0;
            let j1 = choose|j: int| 0 <= j < s1.len() && #[trigger] s1[j].0 == s2[0].0;
            if j2 > 0 {
                assert(s2[0].0 < s2[j2].0);
                if j1 > 0 {
                    assert(s1[0].0 < s1[j1].0);
                }
            }
            assert(s1[0].0 == s2[0].0);
            assert(s1[0] == s2[0]);
            lemma_map_drop_first(s1);
            lemma_map_drop_first(s2);
            lemma_entries_determined(s1.drop_first(), s2.drop_first());
            assert(s1 =~= seq![s1[0]] + s1.drop_first());
            assert(s2 =~= seq![s2[0]] + s2.drop_first());
        }
    }
}

/// A map ordered by `u64` keys, kept as a vector of entries sorted by key.
pub struct KeyedList<V> {
    entries: Vec<(u64, V)>,
}

impl<V> KeyedList<V> {
    /// The entries, in increasing key order.
    pub closed spec fn entries(&self) -> Seq<(u64, V)> {
        self.entries@
    }

    /// The keys increase strictly along the entries.
    pub open spec fn wf(&self) -> bool {
        keys_increasing(self.entries())
    }

    /// The map from keys to values.
    pub open spec fn map(&self) -> Map<u64, V> {
        entries_map(self.entries())
    }

    /// The values, in increasing key order.
    pub open spec fn values(&self) -> Seq<V> {
        self.entries().map_values(|e: (u64, V)| e.1)
    }

    /// An empty map.
    pub fn new() -> (r: Self)
        ensures
            r.wf(),
            r.entries() == Seq::<(u64, V)>::empty(),
    {
        KeyedList { entries: Vec::new() }
    }

    /// The number of entries.
    pub fn len(&self) -> (r: usize)
        ensures
            r == self.entries().len(),
    {
        self.entries.len()
    }

    /// The entry at position `i`.
    pub fn entry_at(&self, i: usize) -> (r: (&u64, &V))
        requires
            i < self.entries().len(),
        ensures
            *r.0 == self.entries()[i as int].0,
            *r.1 == self.entries()[i as int].1,
    {
        let e = &self.entries[i];
        (&e.0, &e.1)
    }

    /// Index of the first entry whose key is not below `k`.
    fn lower_bound(&self, k: u64) -> (r: usize)
        requires
            self.wf(),
        ensures
            r <= self.entries().len(),
            forall|i: int| 0 <= i < r ==> self.entries()[i].0 < k,
            r < self.entries().len() ==> self.entries()[r as int].0 >= k,
    {
        let mut i: usize = 0;
        while i < self.entries.len()
            invariant
                i <= self.entries().len(),
                forall|j: int| 0 <= j < i ==> self.entries()[j].0 < k,
            decreases self.entries().len() - i,
        {
            if self.entries[i].0 >= k {
                return i;
            }
            i = i + 1;
        }
        i
    }

    /// The value stored under `k`.
    pub fn get(&self, k: u64) -> (r: Option<&V>)
        requires
            self.wf(),
        ensures
            match r {
                Some(v) => self.map().contains_key(k) && self.map()[k] == *v,
                None => !self.map().contains_key(k),
            },
    {
        let i = self.lower_bound(k);
        if i < self.entries.len() && self.entries[i].0 == k {
            proof {
                lemma_entry_in_map(self.entries(), i as int);
            }
            Some(&self.entries[i].1)
        } else {
            proof {
                if has_key(self.entries(), k) {
                    let j = choose|j: int| 0 <= j < self.entries().len() && #[trigger] self.entries()[j].0 == k;
                    if j >= i {
                        if j > i {
                            assert(self.entries()[i as int].0 < self.entries()[j].0);
                        }
                    }
                }
            }
            None
        }
    }

    /// Stores `v` under `k`, replacing any value there.
    pub fn insert(&mut self, k: u64, v: V)
        requires
            old(self).wf(),
        ensures
            final(self).wf(),
            final(self).map() == old(self).map().insert(k, v),
    {
        let i = self.lower_bound(k);
        let ghost s0 = self.entries@;
        if i < self.entries.len() && self.entries[i].0 == k {
            self.entries.set(i, (k, v));
        } else {
            self.entries.insert(i, (k, v));
        }
        let ghost s1 = self.entries@;
        proof {
            assert(keys_increasing(s1));
            assert forall|key: u64|
                #![trigger entries_map(s1).contains_key(key)]
                entries_map(s1).contains_key(key) == entries_map(s0).insert(k, v).contains_key(key)
            by {
                if has_key(s1, key) {
                    let j = choose|j: int| 0 <= j < s1.len() && #[trigger] s1[j].0 == key;
                    if key != k {
                        if s1.len() == s0.len() {
                            assert(s0[j].0 == key);
                        } else if j < i {
                            assert(s0[j].0 == key);
                        } else {
                            assert(s0[j - 1].0 == key);
                        }
                    }
                }
                if has_key(s0, key) {
                    let j = choose|j: int| 0 <= j < s0.len() && #[trigger] s0[j].0 == key;
                    if s1.len() == s0.len() {
                        assert(s1[j].0 == key);
                    } else if j < i {
                        assert(s1[j].0 == key);
                    } else {
                        assert(s1[j + 1].0 == key);
                    }
                }
                if key == k {
                    assert(s1[i as int].0 == k);
                }
            }
            assert forall|key: u64| #[trigger]
                entries_map(s1).contains_key(key) implies entries_map(s1)[key] == entries_map(
                s0,
            ).insert(k, v)[key] by {
                let j = choose|j: int| 0 <= j < s1.len() && #[trigger] s1[j].0 == key;
                lemma_entry_in_map(s1, j);
                if key != k {
                    if s1.len() == s0.len() {
                        lemma_entry_in_map(s0, j);
                    } else if j < i {
                        lemma_entry_in_map(s0, j);
                    } else {
                        lemma_entry_in_map(s0, j - 1);
                    }
                } else {
                    lemma_entry_in_map(s1, i as int);
                }
            }
            assert(entries_map(s1) =~= entries_map(s0).insert(k, v));
        }
    }

    /// Removes the entry under `k`, if any, and hands back its value.
    pub fn remove(&mut self, k: u64) -> (r: Option<V>)
        requires
            old(self).wf(),
        ensures
            final(self).wf(),
            final(self).map() == old(self).map().remove(k),
            match r {
                Some(v) => old(self).map().contains_key(k) && old(self).map()[k] == v,
                None => !old(self).map().contains_key(k),
            },
    {
        let i = self.lower_bound(k);
        let ghost s0 = self.entries@;
        if i < self.entries.len() && self.entries[i].0 == k {
            proof {
                lemma_entry_in_map(s0, i as int);
            }
            let (_, removed) = self.entries.remove(i);
            let ghost s1 = self.entries@;
            proof {
                assert(s1 =~= s0.remove(i as int));
                assert forall|key: u64|
                    #![trigger entries_map(s1).contains_key(key)]
                    entries_map(s1).contains_key(key) == entries_map(s0).remove(k).contains_key(key)
                by {
                    if has_key(s1, key) {
                        let j = choose|j: int| 0 <= j < s1.len() && #[trigger] s1[j].0 == key;
                        if j < i {
                            assert(s0[j].0 == key);
                            assert(s0[j].0 < s0[i as int].0);
                        } else {
                            assert(s0[j + 1].0 == key);
                            assert(s0[i as int].0 < s0[j + 1].0);
                        }
                    }
                    if has_key(s0, key) && key != k {
                        let j = choose|j: int| 0 <= j < s0.len() && #[trigger] s0[j].0 == key;
                        if j < i {
                            assert(s1[j].0 == key);
                        } else {
                            assert(j != i);
                            assert(s1[j - 1].0 == key);
                        }
                    }
                }
                assert forall|key: u64| #[trigger]
                    entries_map(s1).contains_key(key) implies entries_map(s1)[key] == entries_map(
                    s0,
                ).remove(k)[key] by {
                    let j = choose|j: int| 0 <= j < s1.len() && #[trigger] s1[j].0 == key;
                    lemma_entry_in_map(s1, j);
                    if j < i {
                        lemma_entry_in_map(s0, j);
                    } else {
                        lemma_entry_in_map(s0, j + 1);
                    }
                }
                assert(entries_map(s1) =~= entries_map(s0).remove(k));
            }
            Some(removed)
        } else {
            proof {
                if has_key(s0, k) {
                    let j = choose|j: int| 0 <= j < s0.len() && #[trigger] s0[j].0 == k;
                    if j > i {
                        assert(s0[i as int].0 < s0[j].0);
                    }
                }
                assert(entries_map(s0) =~= entries_map(s0).remove(k));
            }
            None
        }
    }

    /// Appends an entry whose key is above every key present.
    pub fn push_last(&mut self, k: u64, v: V)
        requires
            old(self).wf(),
            forall|i: int| 0 <= i < old(self).entries().len() ==> old(self).entries()[i].0 < k,
        ensures
            final(self).wf(),
            final(self).entries() == old(self).entries().push((k, v)),
    {
        self.entries.push((k, v));
    }
}

} // verus!
