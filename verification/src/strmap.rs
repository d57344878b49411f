//! A finite map keyed by strings, kept as a vector of entries in insertion
//! order with pairwise distinct keys.
use vstd::prelude::*;
use crate::text::str_eq;

verus! {

/// Map from string keys to values; entries keep the order in which their
/// keys were first inserted.
pub struct StrMap<V> {
    entries: Vec<(String, V)>,
}

impl<V> StrMap<V> {
    /// The keys in insertion order.
    pub closed spec fn keys(&self) -> Seq<Seq<char>> {
        self.entries@.map_values(|e: (String, V)| e.0@)
    }

    /// The values in insertion order.
    pub closed spec fn values(&self) -> Seq<V> {
        self.entries@.map_values(|e: (String, V)| e.1)
    }

    /// Keys are pairwise distinct.
    pub closed spec fn wf(&self) -> bool {
        forall|i: int, j: int|
            0 <= i < j < self.entries@.len() ==> #[trigger] self.entries@[i].0@
                != #[trigger] self.entries@[j].0@
    }

    /// The map that the entries represent.
    pub closed spec fn view(&self) -> Map<Seq<char>, V> {
        Map::new(
            |k: Seq<char>| exists|i: int| 0 <= i < self.entries@.len() && self.entries@[i].0@ == k,
            |k: Seq<char>|
                self.entries@[choose|i: int|
                    0 <= i < self.entries@.len() && self.entries@[i].0@ == k].1,
        )
    }

    proof fn lemma_value_at(&self, i: int)
        requires
            self.wf(),
            0 <= i < self.entries@.len(),
        ensures
            self@.contains_key(self.entries@[i].0@),
            self@[self.entries@[i].0@] == self.entries@[i].1,
    {
        let k = self.entries@[i].0@;
        assert(self@.dom().contains(k));
        let j = choose|j: int| 0 <= j < self.entries@.len() && self.entries@[j].0@ == k;
        if j != i {
            if j < i {
                assert(self.entries@[j].0@ != self.entries@[i].0@);
            } else {
                assert(self.entries@[i].0@ != self.entries@[j].0@);
            }
        }
    }

    /// How keys, values and the map correspond.
    pub proof fn lemma_entries(&self)
        requires
            self.wf(),
        ensures
            self.values().len() == self.keys().len(),
            forall|i: int|
                0 <= i < self.keys().len() ==> self@.contains_key(#[trigger] self.keys()[i])
                    && self@[self.keys()[i]] == self.values()[i],
            forall|k: Seq<char>| self@.contains_key(k) <==> self.keys().contains(k),
            forall|i: int, j: int|
                0 <= i < j < self.keys().len() ==> #[trigger] self.keys()[i]
                    != #[trigger] self.keys()[j],
            self@.dom().finite(),
            self@.dom().len() == self.keys().len(),
    {
        assert forall|i: int| 0 <= i < self.keys().len() implies self@.contains_key(
            #[trigger] self.keys()[i],
        ) && self@[self.keys()[i]] == self.values()[i] by {
            self.lemma_value_at(i);
        }
        assert forall|k: Seq<char>| self@.contains_key(k) <==> self.keys().contains(k) by {
            if self@.contains_key(k) {
                let i = choose|i: int| 0 <= i < self.entries@.len() && self.entries@[i].0@ == k;
                assert(self.keys()[i] == k);
            }
            if self.keys().contains(k) {
                let i = choose|i: int| 0 <= i < self.keys().len() && self.keys()[i] == k;
                assert(self.entries@[i].0@ == k);
            }
        }
        assert(self@.dom() =~= self.keys().to_set());
        assert(self.keys().no_duplicates());
        self.keys().unique_seq_to_set();
    }

    /// An empty map.
    pub fn new() -> (res: Self)
        ensures
            res.wf(),
            res@ == Map::<Seq<char>, V>::empty(),
            res.keys() == Seq::<Seq<char>>::empty(),
    {
        let res = StrMap { entries: Vec::new() };
        assert(res@ =~= Map::<Seq<char>, V>::empty());
        assert(res.keys() =~= Seq::<Seq<char>>::empty());
        res
    }

    /// The number of entries.
    pub fn len(&self) -> (res: usize)
        ensures
            res == self.keys().len(),
    {
        self.entries.len()
    }

    /// The key of the `i`-th entry.
    pub fn key_at(&self, i: usize) -> (res: &String)
        requires
            i < self.keys().len(),
        ensures
            res@ == self.keys()[i as int],
    {
        &self.entries[i].0
    }

    /// The value of the `i`-th entry.
    pub fn value_at(&self, i: usize) -> (res: &V)
        requires
            i < self.keys().len(),
        ensures
            *res == self.values()[i as int],
    {
        &self.entries[i].1
    }

    /// The position of `k`, if present.
    pub fn find(&self, k: &str) -> (res: Option<usize>)
        requires
            self.wf(),
        ensures
            res is None <==> !self@.contains_key(k@),
            res matches Some(i) ==> i < self.keys().len() && self.keys()[i as int] == k@,
    {
        proof {
            self.lemma_entries();
        }
        let n = self.entries.len();
        let mut i: usize = 0;
        while i < n
            invariant
                n == self.entries@.len(),
                i <= n,
                forall|j: int| 0 <= j < i ==> self.entries@[j].0@ != k@,
            decreases n - i,
        {
            if str_eq(self.entries[i].0.as_str(), k) {
                return Some(i);
            }
            i = i + 1;
        }
        assert(!self.keys().contains(k@)) by {
            if self.keys().contains(k@) {
                let j = choose|j: int| 0 <= j < self.keys().len() && self.keys()[j] == k@;
                assert(self.entries@[j].0@ == k@);
            }
        }
        None
    }

    /// The value of `k`, if present.
    pub fn get(&self, k: &str) -> (res: Option<&V>)
        requires
            self.wf(),
        ensures
            res is None <==> !self@.contains_key(k@),
            res matches Some(v) ==> *v == self@[k@],
    {
        proof {
            self.lemma_entries();
        }
        match self.find(k) {
            Some(i) => Some(&self.entries[i].1),
            None => None,
        }
    }

    /// Replaces the value of the `i`-th entry.
    pub fn set_value_at(&mut self, i: usize, v: V)
        requires
            old(self).wf(),
            i < old(self).keys().len(),
        ensures
            final(self).wf(),
            final(self).keys() == old(self).keys(),
            final(self).values() == old(self).values().update(i as int, v),
            final(self)@ == old(self)@.insert(old(self).keys()[i as int], v),
    {
        let ghost before = *self;
        proof {
            before.lemma_entries();
        }
        let k = self.entries[i].0.clone();
        self.entries.set(i, (k, v));
        assert(self.keys() =~= before.keys());
        assert(self.values() =~= before.values().update(i as int, v));
        assert(self.wf());
        proof {
            self.lemma_entries();
            let key = before.keys()[i as int];
            assert(before@.contains_key(key));
            assert forall|q: Seq<char>| #[trigger]
                self@.contains_key(q) == before@.insert(key, v).contains_key(q) by {
                assert(self@.contains_key(q) == self.keys().contains(q));
                assert(before@.contains_key(q) == before.keys().contains(q));
            }
            assert forall|q: Seq<char>| self@.contains_key(q) implies #[trigger] self@[q]
                == before@.insert(key, v)[q] by {
                assert(self.keys().contains(q));
                let j = choose|j: int| 0 <= j < self.keys().len() && self.keys()[j] == q;
                if j != i {
                    assert(before.keys()[j] == q);
                }
            }
        }
        assert(self@ =~= before@.insert(before.keys()[i as int], v));
    }

    /// Sets the value of `k`: in place when present, as a new last entry
    /// otherwise.
    pub fn insert(&mut self, k: String, v: V)
        requires
            old(self).wf(),
        ensures
            final(self).wf(),
            final(self)@ == old(self)@.insert(k@, v),
            old(self)@.contains_key(k@) ==> final(self).keys() == old(self).keys(),
            !old(self)@.contains_key(k@) ==> final(self).keys() == old(self).keys().push(k@),
    {
        proof {
            self.lemma_entries();
        }
        match self.find(k.as_str()) {
            Some(i) => {
                self.set_value_at(i, v);
            },
            None => {
                let ghost before = *self;
                let ghost kv = k@;
                self.entries.push((k, v));
                assert(self.keys() =~= before.keys().push(kv));
                assert(self.wf());
                proof {
                    self.lemma_entries();
                    let pos = before.keys().len() as int;
                    assert(self.keys()[pos] == kv);
                    assert forall|q: Seq<char>| #[trigger]
                        self@.contains_key(q) == before@.insert(kv, v).contains_key(q) by {
                        if self.keys().contains(q) && q != kv {
                            let j = choose|j: int| 0 <= j < self.keys().len() && self.keys()[j] == q;
                            assert(before.keys()[j] == q);
                        }
                        if before.keys().contains(q) {
                            let j = choose|j: int|
                                0 <= j < before.keys().len() && before.keys()[j] == q;
                            assert(self.keys()[j] == q);
                        }
                    }
                    assert forall|q: Seq<char>| self@.contains_key(q) implies #[trigger] self@[q]
                        == before@.insert(kv, v)[q] by {
                        assert(self.keys().contains(q));
                        let j = choose|j: int| 0 <= j < self.keys().len() && self.keys()[j] == q;
                        if q != kv {
                            assert(before.keys()[j] == q);
                            assert(self.values()[j] == before.values()[j]);
                        } else {
                            assert(j == pos);
                        }
                    }
                }
                assert(self@ =~= before@.insert(kv, v));
            },
        }
    }

    /// Removes `k`, keeping the order of the other entries.
    pub fn remove(&mut self, k: &str)
        requires
            old(self).wf(),
        ensures
            final(self).wf(),
            final(self)@ == old(self)@.remove(k@),
    {
        proof {
            self.lemma_entries();
        }
        match self.find(k) {
            None => {
                assert(self@ =~= self@.remove(k@));
            },
            Some(i) => {
                let ghost before = *self;
                self.entries.remove(i);
                assert(self.entries@ =~= before.entries@.remove(i as int));
                assert(self.wf()) by {
                    assert forall|a: int, b: int| 0 <= a < b < self.entries@.len() implies #[trigger] self.entries@[a].0@
                        != #[trigger] self.entries@[b].0@ by {
                        let a2 = if a < i { a } else { a + 1 };
                        let b2 = if b < i { b } else { b + 1 };
                        assert(self.entries@[a] == before.entries@[a2]);
                        assert(self.entries@[b] == before.entries@[b2]);
                    }
                }
                proof {
                    self.lemma_entries();
                    before.lemma_entries();
                    assert forall|q: Seq<char>| #[trigger]
                        self@.contains_key(q) == before@.remove(k@).contains_key(q) by {
                        if self.keys().contains(q) {
                            let j = choose|j: int| 0 <= j < self.keys().len() && self.keys()[j] == q;
                            let j2 = if j < i { j } else { j + 1 };
                            assert(before.keys()[j2] == q);
                            assert(j2 != i);
                        }
                        if before.keys().contains(q) && q != k@ {
                            let j = choose|j: int|
                                0 <= j < before.keys().len() && before.keys()[j] == q;
                            assert(j != i);
                            let j2 = if j < i { j } else { j - 1 };
                            assert(self.keys()[j2] == q);
                        }
                    }
                    assert forall|q: Seq<char>| self@.contains_key(q) implies #[trigger] self@[q]
                        == before@.remove(k@)[q] by {
                        assert(self.keys().contains(q));
                        let j = choose|j: int| 0 <= j < self.keys().len() && self.keys()[j] == q;
                        let j2 = if j < i { j } else { j + 1 };
                        assert(before.keys()[j2] == q);
                        assert(self.values()[j] == before.values()[j2]);
                    }
                }
                assert(self@ =~= before@.remove(k@));
            },
        }
    }
}

} // verus!
