use vstd::prelude::*;

use crate::ids::EndpointTarget;

verus! {

/// No two entries of `s` share a target.
pub open spec fn targets_distinct<V>(s: Seq<(EndpointTarget, V)>) -> bool {
    forall|i: int, j: int| 0 <= i < s.len() && 0 <= j < s.len() && i != j ==> s[i].0 != s[j].0
}

/// Whether some entry of `s` has target `k`.
pub open spec fn has_target<V>(s: Seq<(EndpointTarget, V)>, k: EndpointTarget) -> bool {
    exists|i: int| 0 <= i < s.len() && #[trigger] s[i].0 == k
}

/// The map from targets to values that `s` stands for.
pub open spec fn targets_map<V>(s: Seq<(EndpointTarget, V)>) -> Map<EndpointTarget, V> {
    Map::new(
        |k: EndpointTarget| has_target(s, k),
        |k: EndpointTarget| s[choose|i: int| 0 <= i < s.len() && #[trigger] s[i].0 == k].1,
    )
}

/// With distinct targets, entry `i` is what the map holds for its target.
pub proof fn lemma_target_in_map<V>(s: Seq<(EndpointTarget, V)>, i: int)
    requires
        targets_distinct(s),
        0 <= i < s.len(),
    ensures
        targets_map(s).contains_key(s[i].0),
        targets_map(s)[s[i].0] == s[i].1,
{
    assert(has_target(s, s[i].0));
}

/// A map from endpoints to values, kept as a vector of entries with distinct endpoints.
pub struct TargetMap<V> {
    entries: Vec<(EndpointTarget, V)>,
}

impl<V> TargetMap<V> {
    /// The entries.
    pub closed spec fn entries(&self) -> Seq<(EndpointTarget, V)> {
        self.entries@
    }

    /// No endpoint occurs twice.
    pub open spec fn wf(&self) -> bool {
        targets_distinct(self.entries())
    }

    /// The map from endpoints to values.
    pub open spec fn map(&self) -> Map<EndpointTarget, V> {
        targets_map(self.entries())
    }

    /// An empty map.
    pub fn new() -> (r: Self)
        ensures
            r.wf(),
            r.map() == Map::<EndpointTarget, V>::empty(),
    {
        let r = TargetMap { entries: Vec::new() };
        proof {
            assert(r.map() =~= Map::<EndpointTarget, V>::empty());
        }
        r
    }

    /// The index of the entry for `k`.
    fn find(&self, k: EndpointTarget) -> (r: Option<usize>)
        ensures
            match r {
                Some(i) => i < self.entries().len() && self.entries()[i as int].0 == k,
                None => !has_target(self.entries(), k),
            },
    {
        let mut i: usize = 0;
        while i < self.entries.len()
            invariant
                i <= self.entries().len(),
                forall|j: int| 0 <= j < i ==> self.entries()[j].0 != k,
            decreases self.entries().len() - i,
        {
            if self.entries[i].0 == k {
                return Some(i);
            }
            i = i + 1;
        }
        None
    }

    /// The value stored for `k`.
    pub fn get(&self, k: EndpointTarget) -> (r: Option<&V>)
        requires
            self.wf(),
        ensures
            match r {
                Some(v) => self.map().contains_key(k) && self.map()[k] == *v,
                None => !self.map().contains_key(k),
            },
    {
        match self.find(k) {
            Some(i) => {
                proof {
                    lemma_target_in_map(self.entries(), i as int);
                }
                Some(&self.entries[i].1)
            },
            None => None,
        }
    }

    /// Stores `v` for `k`, replacing any value there.
    pub fn insert(&mut self, k: EndpointTarget, v: V)
        requires
            old(self).wf(),
        ensures
            final(self).wf(),
            final(self).map() == old(self).map().insert(k, v),
    {
        let ghost s0 = self.entries@;
        match self.find(k) {
            Some(i) => {
                self.entries.set(i, (k, v));
            },
            None => {
                self.entries.push((k, v));
            },
        }
        let ghost s1 = self.entries@;
        proof {
            assert(s1.len() >= s0.len());
            assert forall|key: EndpointTarget| #[trigger] targets_map(s1).contains_key(key) == targets_map(s0).insert(k, v).contains_key(key) by {
                if has_target(s1, key) && key != k {
                    let j = choose|j: int| 0 <= j < s1.len() && #[trigger] s1[j].0 == key;
                    assert(j < s0.len() && s0[j].0 == key);
                }
                if has_target(s0, key) {
                    let j = choose|j: int| 0 <= j < s0.len() && #[trigger] s0[j].0 == key;
                    assert(s1[j].0 == key || key == k);
                }
                if key == k {
                    let j = if s1.len() == s0.len() {
                        choose|j: int| 0 <= j < s0.len() && s0[j].0 == k
                    } else {
                        s0.len() as int
                    };
                    assert(s1[j].0 == k);
                }
            }
            assert forall|key: EndpointTarget| #[trigger] targets_map(s1).contains_key(key) implies targets_map(s1)[key] == targets_map(s0).insert(k, v)[key] by {
                let j = choose|j: int| 0 <= j < s1.len() && #[trigger] s1[j].0 == key;
                lemma_target_in_map(s1, j);
                if key != k {
                    lemma_target_in_map(s0, j);
                }
            }
            assert(targets_map(s1) =~= targets_map(s0).insert(k, v));
        }
    }

    /// Removes the entry for `k`, if any.
    pub fn remove(&mut self, k: EndpointTarget)
        requires
            old(self).wf(),
        ensures
            final(self).wf(),
            final(self).map() == old(self).map().remove(k),
    {
        let ghost s0 = self.entries@;
        match self.find(k) {
            Some(i) => {
                self.entries.remove(i);
                let ghost s1 = self.entries@;
                proof {
                    assert(s1 =~= s0.remove(i as int));
                    assert forall|key: EndpointTarget| #[trigger] targets_map(s1).contains_key(key) == targets_map(s0).remove(k).contains_key(key) by {
                        if has_target(s1, key) {
                            let j = choose|j: int| 0 <= j < s1.len() && #[trigger] s1[j].0 == key;
                            if j < i {
                                assert(s0[j].0 == key);
                            } else {
                                assert(s0[j + 1].0 == key);
                            }
                        }
                        if has_target(s0, key) && key != k {
                            let j = choose|j: int| 0 <= j < s0.len() && #[trigger] s0[j].0 == key;
                            if j < i {
                                assert(s1[j].0 == key);
                            } else {
                                assert(s1[j - 1].0 == key);
                            }
                        }
                    }
                    assert forall|key: EndpointTarget| #[trigger] targets_map(s1).contains_key(key) implies targets_map(s1)[key] == targets_map(s0).remove(k)[key] by {
                        let j = choose|j: int| 0 <= j < s1.len() && #[trigger] s1[j].0 == key;
                        lemma_target_in_map(s1, j);
                        if j < i {
                            lemma_target_in_map(s0, j);
                        } else {
                            lemma_target_in_map(s0, j + 1);
                        }
                    }
                    assert(targets_map(s1) =~= targets_map(s0).remove(k));
                }
            },
            None => {
                proof {
                    assert(targets_map(s0) =~= targets_map(s0).remove(k));
                }
            },
        }
    }
}

} // verus!
