//! A finite map keyed by `u64`, kept as a vector of entries in insertion
//! order with pairwise distinct keys.
use vstd::prelude::*;

verus! {

/// Map from `u64` keys to values; entries keep the order in which their
/// keys were first inserted.
pub struct U64Map<V> {
    entries: Vec<(u64, V)>,
}

impl<V> U64Map<V> {
    /// The keys in insertion order.
    pub closed spec fn keys(&self) -> Seq<u64> {
        self.entries@.map_values(|e: (u64, V)| e.0)
    }

    /// The entries in insertion order.
    pub closed spec fn entry_seq(&self) -> Seq<(u64, V)> {
        self.entries@
    }

    /// Keys are pairwise distinct.
    pub closed spec fn wf(&self) -> bool {
        forall|i: int, j: int|
            0 <= i < j < self.entries@.len() ==> #[trigger] self.entries@[i].0
                != #[trigger] self.entries@[j].0
    }

    /// The map that the entries represent.
    pub closed spec fn view(&self) -> Map<u64, V> {
        Map::new(
            |k: u64| exists|i: int| 0 <= i < self.entries@.len() && self.entries@[i].0 == k,
            |k: u64|
                self.entries@[choose|i: int| 0 <= i < self.entries@.len() && self.entries@[i].0 == k].1,
        )
    }

    /// How keys, entries and the map correspond: the entries' keys are the
    /// keys in order, pairwise distinct, and each maps to its entry's value.
    pub proof fn lemma_entries(&self)
        requires
            self.wf(),
        ensures
            self.entry_seq().len() == self.keys().len(),
            forall|i: int|
                0 <= i < self.keys().len() ==> #[trigger] self.keys()[i] == self.entry_seq()[i].0,
            forall|i: int|
                0 <= i < self.keys().len() ==> self@.contains_key(#[trigger] self.keys()[i])
                    && self@[self.keys()[i]] == self.entry_seq()[i].1,
            forall|k: u64| self@.contains_key(k) <==> self.keys().contains(k),
            forall|i: int, j: int|
                0 <= i < j < self.keys().len() ==> #[trigger] self.keys()[i] != #[trigger] self.keys()[j],
    {
        assert forall|i: int| 0 <= i < self.keys().len() implies self@.contains_key(
            #[trigger] self.keys()[i],
        ) && self@[self.keys()[i]] == self.entry_seq()[i].1 by {
            self.lemma_value_at(i);
        }
        assert forall|k: u64| self@.contains_key(k) <==> self.keys().contains(k) by {
            if self@.contains_key(k) {
                let i = choose|i: int| 0 <= i < self.entries@.len() && self.entries@[i].0 == k;
                assert(self.keys()[i] == k);
            }
            if self.keys().contains(k) {
                let i = choose|i: int| 0 <= i < self.keys().len() && self.keys()[i] == k;
                assert(self.entries@[i].0 == k);
            }
        }
    }

    proof fn lemma_value_at(&self, i: int)
        requires
            self.wf(),
            0 <= i < self.entries@.len(),
        ensures
            self@.contains_key(self.entries@[i].0),
            self@[self.entries@[i].0] == self.entries@[i].1,
    {
        let k = self.entries@[i].0;
        assert(self@.dom().contains(k));
        let j = choose|j: int| 0 <= j < self.entries@.len() && self.entries@[j].0 == k;
        if j != i {
            if j < i {
                assert(self.entries@[j].0 != self.entries@[i].0);
            } else {
                assert(self.entries@[i].0 != self.entries@[j].0);
            }
        }
    }

    /// An empty map.
    pub fn new() -> (res: Self)
        ensures
            res.wf(),
            res@ == Map::<u64, V>::empty(),
            res.keys() == Seq::<u64>::empty(),
    {
        let res = U64Map { entries: Vec::new() };
        assert(res@ =~= Map::<u64, V>::empty());
        assert(res.keys() =~= Seq::<u64>::empty());
        res
    }

    /// The number of entries.
    pub fn len(&self) -> (res: usize)
        ensures
            res == self.keys().len(),
    {
        self.entries.len()
    }

    /// The key of the `i`-th entry.
    pub fn key_at(&self, i: usize) -> (res: u64)
        requires
            i < self.keys().len(),
        ensures
            res == self.keys()[i as int],
    {
        self.entries[i].0
    }

    /// The value of the `i`-th entry.
    pub fn value_at(&self, i: usize) -> (res: &V)
        requires
            i < self.keys().len(),
        ensures
            *res == self.entry_seq()[i as int].1,
    {
        &self.entries[i].1
    }

    /// The position of `k`, if present.
    pub fn find(&self, k: u64) -> (res: Option<usize>)
        requires
            self.wf(),
        ensures
            res is None <==> !self@.contains_key(k),
            res matches Some(i) ==> i < self.keys().len() && self.keys()[i as int] == k,
    {
        proof {
            self.lemma_entries();
        }
        let n = self.entries.len();
        let mut i: usize = 0;
        while i < n
            invariant
                n == self.entries@.len(),
                i <= n,
                forall|j: int| 0 <= j < i ==> self.entries@[j].0 != k,
            decreases n - i,
        {
            if self.entries[i].0 == k {
                return Some(i);
            }
            i = i + 1;
        }
        assert(!self.keys().contains(k)) by {
            if self.keys().contains(k) {
                let j = choose|j: int| 0 <= j < self.keys().len() && self.keys()[j] == k;
                assert(self.entries@[j].0 == k);
            }
        }
        None
    }

    /// The value of `k`, if present.
    pub fn get(&self, k: u64) -> (res: Option<&V>)
        requires
            self.wf(),
        ensures
            res is None <==> !self@.contains_key(k),
            res matches Some(v) ==> *v == self@[k],
    {
        proof {
            self.lemma_entries();
        }
        match self.find(k) {
            Some(i) => Some(&self.entries[i].1),
            None => None,
        }
    }

    /// Sets the value of `k`: in place when present, as a new last entry
    /// otherwise.
    pub fn insert(&mut self, k: u64, v: V)
        requires
            old(self).wf(),
        ensures
            final(self).wf(),
            final(self)@ == old(self)@.insert(k, v),
            old(self)@.contains_key(k) ==> final(self).keys() == old(self).keys(),
            !old(self)@.contains_key(k) ==> final(self).keys() == old(self).keys().push(k),
    {
        proof {
            self.lemma_entries();
        }
        let ghost before = *self;
        let ghost pos: int;
        match self.find(k) {
            Some(i) => {
                self.entries.set(i, (k, v));
                assert(self.keys() =~= before.keys().update(i as int, k));
                assert(self.keys() =~= before.keys());
                proof {
                    pos = i as int;
                }
            },
            None => {
                self.entries.push((k, v));
                assert(self.keys() =~= before.keys().push(k));
                proof {
                    pos = before.keys().len() as int;
                }
            },
        }
        assert(self.wf());
        proof {
            self.lemma_entries();
            before.lemma_entries();
            assert(self.keys()[pos] == k);
            assert(self.entry_seq()[pos].1 == v);
            assert forall|key: u64| #[trigger]
                self@.contains_key(key) == before@.insert(k, v).contains_key(key) by {
                if self.keys().contains(key) && key != k {
                    let j = choose|j: int| 0 <= j < self.keys().len() && self.keys()[j] == key;
                    assert(j != pos);
                    assert(before.keys()[j] == key);
                }
                if before.keys().contains(key) {
                    let j = choose|j: int| 0 <= j < before.keys().len() && before.keys()[j] == key;
                    assert(self.keys()[j] == key);
                }
                if key == k {
                    assert(self.keys()[pos] == k);
                }
            }
            assert forall|key: u64| self@.contains_key(key) implies #[trigger] self@[key]
                == before@.insert(k, v)[key] by {
                assert(self.keys().contains(key));
                let j = choose|j: int| 0 <= j < self.keys().len() && self.keys()[j] == key;
                if key != k {
                    assert(j != pos);
                    assert(before.keys()[j] == key);
                    assert(self.entry_seq()[j] == before.entry_seq()[j]);
                } else {
                    assert(j == pos);
                }
            }
        }
        assert(self@ =~= before@.insert(k, v));
    }
}

impl<V: Copy> U64Map<V> {
    /// The entries, in order.
    pub fn into_entries(self) -> (res: Vec<(u64, V)>)
        ensures
            res@ == self.entry_seq(),
    {
        self.entries
    }

    /// A copy of the map with the same entries in the same order.
    pub fn duplicate(&self) -> (res: Self)
        requires
            self.wf(),
        ensures
            res.wf(),
            res@ == self@,
            res.keys() == self.keys(),
            res.entry_seq() == self.entry_seq(),
    {
        let n = self.entries.len();
        let mut entries: Vec<(u64, V)> = Vec::new();
        let mut i: usize = 0;
        while i < n
            invariant
                n == self.entries@.len(),
                i <= n,
                entries@ == self.entries@.subrange(0, i as int),
            decreases n - i,
        {
            entries.push(self.entries[i]);
            i = i + 1;
            assert(self.entries@.subrange(0, i as int) =~= self.entries@.subrange(0, (i - 1) as int).push(
                self.entries@[i - 1],
            ));
        }
        assert(self.entries@.subrange(0, n as int) =~= self.entries@);
        let res = U64Map { entries };
        assert(res.keys() =~= self.keys());
        assert(res@ =~= self@);
        res
    }
}

} // verus!
