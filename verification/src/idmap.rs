//! A map keyed by integer identifiers that keeps its keys in the order in
//! which they were first inserted.
use vstd::prelude::*;

verus! {

/// A map from `u64` keys to values; each key occurs at most once, and the
/// keys keep the order of their first insertion.
pub struct IdMap<V> {
    entries: Vec<(u64, V)>,
}

impl<V> IdMap<V> {
    /// The keys, in order.
    pub closed spec fn keys_seq(&self) -> Seq<u64> {
        self.entries@.map_values(|e: (u64, V)| e.0)
    }

    /// The values, in key order.
    pub closed spec fn values_seq(&self) -> Seq<V> {
        self.entries@.map_values(|e: (u64, V)| e.1)
    }

    #[verifier::type_invariant]
    spec fn inv(self) -> bool {
        self.keys_seq().no_duplicates()
    }

    pub closed spec fn index_of(&self, k: u64) -> int {
        choose|i: int| 0 <= i < self.keys_seq().len() && self.keys_seq()[i] == k
    }
}

impl<V> View for IdMap<V> {
    type V = Map<u64, V>;

    closed spec fn view(&self) -> Map<u64, V> {
        Map::new(|k: u64| self.keys_seq().contains(k), |k: u64| self.values_seq()[self.index_of(k)])
    }
}

impl<V> IdMap<V> {
    proof fn lemma_entry(&self, i: int)
        requires
            self.keys_seq().no_duplicates(),
            0 <= i < self.keys_seq().len(),
        ensures
            self@.contains_key(self.keys_seq()[i]),
            self@[self.keys_seq()[i]] == self.values_seq()[i],
            self.index_of(self.keys_seq()[i]) == i,
    {
        let k = self.keys_seq()[i];
        assert(self.keys_seq().contains(k));
        let j = self.index_of(k);
        assert(self.keys_seq()[j] == k);
    }

    /// The keys of the map are exactly the entries of its key sequence.
    pub proof fn lemma_dom(&self)
        ensures
            forall|k: u64| #[trigger] self@.contains_key(k) <==> self.keys_seq().contains(k),
    {
    }

    /// An empty map.
    pub fn new() -> (r: Self)
        ensures
            r@ == Map::<u64, V>::empty(),
            r.keys_seq() == Seq::<u64>::empty(),
    {
        let r = IdMap { entries: Vec::new() };
        assert(r.keys_seq() =~= Seq::<u64>::empty());
        assert(r@ =~= Map::<u64, V>::empty());
        r
    }

    /// The number of keys.
    pub fn len(&self) -> (r: usize)
        ensures
            r == self.keys_seq().len(),
            r == self@.len(),
            self.keys_seq().no_duplicates(),
            self.keys_seq().to_set() == self@.dom(),
            self@.dom().finite(),
    {
        proof {
            use_type_invariant(self);
            assert(self.keys_seq().to_set() =~= self@.dom());
            self.keys_seq().unique_seq_to_set();
        }
        self.entries.len()
    }

    fn find(&self, k: u64) -> (r: Option<usize>)
        ensures
            match r {
                Some(i) => i < self.keys_seq().len() && self.keys_seq()[i as int] == k,
                None => !self.keys_seq().contains(k),
            },
    {
        let mut i: usize = 0;
        while i < self.entries.len()
            invariant
                i <= self.entries.len(),
                forall|j: int| 0 <= j < i ==> self.keys_seq()[j] != k,
            decreases self.entries.len() - i,
        {
            if self.entries[i].0 == k {
                return Some(i);
            }
            i = i + 1;
        }
        None
    }

    /// Whether `k` is a key.
    pub fn contains_key(&self, k: u64) -> (r: bool)
        ensures
            r == self@.contains_key(k),
    {
        self.find(k).is_some()
    }

    /// The value under `k`.
    pub fn get(&self, k: u64) -> (r: Option<&V>)
        ensures
            match r {
                Some(v) => self@.contains_key(k) && self@[k] == *v,
                None => !self@.contains_key(k),
            },
    {
        proof {
            use_type_invariant(self);
        }
        match self.find(k) {
            Some(i) => {
                proof {
                    self.lemma_entry(i as int);
                }
                Some(&self.entries[i].1)
            },
            None => None,
        }
    }

    /// The key at position `i`.
    pub fn key_at(&self, i: usize) -> (r: u64)
        requires
            i < self.keys_seq().len(),
        ensures
            r == self.keys_seq()[i as int],
            self@.contains_key(r),
    {
        proof {
            use_type_invariant(self);
            self.lemma_entry(i as int);
        }
        self.entries[i].0
    }

    /// The value at position `i`.
    pub fn value_at(&self, i: usize) -> (r: &V)
        requires
            i < self.keys_seq().len(),
        ensures
            *r == self@[self.keys_seq()[i as int]],
            self@.contains_key(self.keys_seq()[i as int]),
    {
        proof {
            use_type_invariant(self);
            self.lemma_entry(i as int);
        }
        &self.entries[i].1
    }

    /// Sets the value under `k`; a new key goes last, an existing one keeps
    /// its place.
    pub fn insert(&mut self, k: u64, v: V)
        ensures
            final(self)@ == old(self)@.insert(k, v),
            old(self)@.contains_key(k) ==> final(self).keys_seq() == old(self).keys_seq(),
            !old(self)@.contains_key(k) ==> final(self).keys_seq() == old(self).keys_seq().push(k),
    {
        proof {
            use_type_invariant(&*self);
        }
        let ghost old_self = *self;
        let pos = self.find(k);
        let mut entries: Vec<(u64, V)> = Vec::new();
        std::mem::swap(&mut entries, &mut self.entries);
        let ghost ks = entries@.map_values(|e: (u64, V)| e.0);
        let ghost vs = entries@.map_values(|e: (u64, V)| e.1);
        match pos {
            Some(i) => {
                proof {
                    old_self.lemma_entry(i as int);
                }
                let _old = entries.remove(i);
                entries.insert(i, (k, v));
            },
            None => {
                entries.push((k, v));
            },
        }
        let ghost ks2 = entries@.map_values(|e: (u64, V)| e.0);
        let ghost vs2 = entries@.map_values(|e: (u64, V)| e.1);
        proof {
            match pos {
                Some(i) => {
                    assert(ks2 =~= ks.update(i as int, k));
                    assert(ks2 =~= ks);
                    assert(vs2 =~= vs.update(i as int, v));
                },
                None => {
                    assert(ks2 =~= ks.push(k));
                    assert(vs2 =~= vs.push(v));
                },
            }
            assert(ks2.no_duplicates());
        }
        self.entries = entries;
        proof {
            assert(self.keys_seq() == ks2);
            assert(self.values_seq() == vs2);
            assert(self@ =~= old_self@.insert(k, v)) by {
                assert forall|x: u64| #[trigger] self@.contains_key(x) == old_self@.insert(k, v).contains_key(x) by {
                    if ks2.contains(x) {
                        let j = choose|j: int| 0 <= j < ks2.len() && ks2[j] == x;
                        if x != k {
                            assert(ks[j] == x);
                        }
                    }
                    if ks.contains(x) {
                        let j = choose|j: int| 0 <= j < ks.len() && ks[j] == x;
                        assert(ks2[j] == x);
                    }
                    if x == k {
                        match pos {
                            Some(i) => assert(ks2[i as int] == k),
                            None => assert(ks2[ks.len() as int] == k),
                        }
                    }
                }
                assert forall|x: u64| #[trigger] self@.contains_key(x) implies self@[x] == old_self@.insert(k, v)[x] by {
                    let j = self.index_of(x);
                    self.lemma_entry(j);
                    if x != k {
                        old_self.lemma_entry(j);
                    }
                }
            }
        }
    }

    /// Removes the key `k`, returning its value.
    pub fn remove(&mut self, k: u64) -> (r: Option<V>)
        ensures
            final(self)@ == old(self)@.remove(k),
            match r {
                Some(v) => old(self)@.contains_key(k) && v == old(self)@[k],
                None => !old(self)@.contains_key(k),
            },
    {
        proof {
            use_type_invariant(&*self);
        }
        let ghost old_self = *self;
        match self.find(k) {
            None => {
                assert(old_self@.remove(k) =~= old_self@);
                None
            },
            Some(i) => {
                proof {
                    old_self.lemma_entry(i as int);
                }
                let mut entries: Vec<(u64, V)> = Vec::new();
                std::mem::swap(&mut entries, &mut self.entries);
                let ghost ks = entries@.map_values(|e: (u64, V)| e.0);
                let ghost vs = entries@.map_values(|e: (u64, V)| e.1);
                let removed = entries.remove(i);
                let ghost ks2 = entries@.map_values(|e: (u64, V)| e.0);
                let ghost vs2 = entries@.map_values(|e: (u64, V)| e.1);
                proof {
                    assert(ks2 =~= ks.remove(i as int));
                    assert(vs2 =~= vs.remove(i as int));
                    assert(ks2.no_duplicates()) by {
                        assert forall|a: int, b: int| 0 <= a < ks2.len() && 0 <= b < ks2.len() && a != b implies ks2[a] != ks2[b] by {
                            let a2 = if a < i { a } else { a + 1 };
                            let b2 = if b < i { b } else { b + 1 };
                            assert(ks2[a] == ks[a2]);
                            assert(ks2[b] == ks[b2]);
                        }
                    }
                }
                self.entries = entries;
                proof {
                    assert(self.keys_seq() == ks2);
                    assert(self.values_seq() == vs2);
                    assert(self@ =~= old_self@.remove(k)) by {
                        assert forall|x: u64| #[trigger] self@.contains_key(x) == old_self@.remove(k).contains_key(x) by {
                            if ks2.contains(x) {
                                let j = choose|j: int| 0 <= j < ks2.len() && ks2[j] == x;
                                let j2 = if j < i { j } else { j + 1 };
                                assert(ks[j2] == x);
                                assert(j2 != i);
                            }
                            if ks.contains(x) && x != k {
                                let j = choose|j: int| 0 <= j < ks.len() && ks[j] == x;
                                assert(j != i);
                                let j2 = if j < i { j } else { j - 1 };
                                assert(ks2[j2] == x);
                            }
                        }
                        assert forall|x: u64| #[trigger] self@.contains_key(x) implies self@[x] == old_self@.remove(k)[x] by {
                            let j = self.index_of(x);
                            self.lemma_entry(j);
                            let j2 = if j < i { j } else { j + 1 };
                            assert(ks[j2] == ks2[j]);
                            assert(vs[j2] == vs2[j]);
                            old_self.lemma_entry(j2);
                        }
                    }
                }
                Some(removed.1)
            },
        }
    }
}

} // verus!
