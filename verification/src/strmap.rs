//! A map keyed by strings, kept as a list of entries with distinct keys.
//! Its model is a `Map` from the key's characters to the value.
use vstd::prelude::*;

verus! {

/// Entries `(key, value)` with pairwise distinct keys.
pub struct StrMap<V> {
    entries: Vec<(String, V)>,
}

impl<V> StrMap<V> {
    #[verifier::type_invariant]
    spec fn keys_distinct(&self) -> bool {
        forall|i: int, j: int|
            0 <= i < j < self.entries@.len() ==> #[trigger] self.entries@[i].0@
                != #[trigger] self.entries@[j].0@
    }

    /// The entries, each key taken by its characters.
    pub closed spec fn entry_seq(&self) -> Seq<(Seq<char>, V)> {
        self.entries@.map_values(|e: (String, V)| (e.0@, e.1))
    }

    spec fn has_key(&self, k: Seq<char>) -> bool {
        exists|i: int| 0 <= i < self.entries@.len() && #[trigger] self.entries@[i].0@ == k
    }

    spec fn key_index(&self, k: Seq<char>) -> int {
        choose|i: int| 0 <= i < self.entries@.len() && #[trigger] self.entries@[i].0@ == k
    }

    /// The model: each key's characters mapped to its value.
    pub closed spec fn as_map(&self) -> Map<Seq<char>, V> {
        Map::new(|k: Seq<char>| self.has_key(k), |k: Seq<char>| self.entries@[self.key_index(k)].1)
    }

    proof fn lemma_lookup(&self, i: int)
        requires
            self.keys_distinct(),
            0 <= i < self.entries@.len(),
        ensures
            self.as_map().dom().contains(self.entries@[i].0@),
            self.as_map()[self.entries@[i].0@] == self.entries@[i].1,
    {
        let k = self.entries@[i].0@;
        assert(self.has_key(k));
        let j = self.key_index(k);
        assert(self.entries@[j].0@ == k);
        if i < j {
            assert(self.entries@[i].0@ != self.entries@[j].0@);
        } else if j < i {
            assert(self.entries@[j].0@ != self.entries@[i].0@);
        }
    }

    /// What the entries say of the model: every entry is in it, every key of it
    /// has an entry, and no key has two.
    proof fn lemma_entry_seq(&self)
        requires
            self.keys_distinct(),
        ensures
            forall|i: int|
                0 <= i < self.entry_seq().len() ==> {
                    &&& self.as_map().dom().contains(#[trigger] self.entry_seq()[i].0)
                    &&& self.as_map()[self.entry_seq()[i].0] == self.entry_seq()[i].1
                },
            forall|k: Seq<char>|
                #[trigger] self.as_map().dom().contains(k) ==> exists|i: int|
                    0 <= i < self.entry_seq().len() && #[trigger] self.entry_seq()[i].0 == k,
            forall|i: int, j: int|
                0 <= i < j < self.entry_seq().len() ==> #[trigger] self.entry_seq()[i].0
                    != #[trigger] self.entry_seq()[j].0,
    {
        assert forall|i: int| 0 <= i < self.entry_seq().len() implies {
            &&& self.as_map().dom().contains(#[trigger] self.entry_seq()[i].0)
            &&& self.as_map()[self.entry_seq()[i].0] == self.entry_seq()[i].1
        } by {
            self.lemma_lookup(i);
        }
        assert forall|k: Seq<char>| #[trigger] self.as_map().dom().contains(k) implies exists|i: int|
            0 <= i < self.entry_seq().len() && #[trigger] self.entry_seq()[i].0 == k by {
            let i = self.key_index(k);
            assert(self.entry_seq()[i].0 == k);
        }
        assert forall|i: int, j: int|
            0 <= i < j < self.entry_seq().len() implies #[trigger] self.entry_seq()[i].0
            != #[trigger] self.entry_seq()[j].0 by {
            assert(self.entries@[i].0@ != self.entries@[j].0@);
        }
    }

    /// An empty map.
    pub fn new() -> (m: Self)
        ensures
            m@ == Map::<Seq<char>, V>::empty(),
            m.entry_seq().len() == 0,
    {
        let m = StrMap { entries: Vec::new() };
        assert(m.as_map() =~= Map::<Seq<char>, V>::empty());
        m
    }

    /// The number of entries, with what the entries say of the model: every
    /// entry is in it, every key of it has an entry, and no key has two.
    pub fn len(&self) -> (n: usize)
        ensures
            n == self.entry_seq().len(),
            forall|i: int|
                0 <= i < self.entry_seq().len() ==> {
                    &&& self@.dom().contains(#[trigger] self.entry_seq()[i].0)
                    &&& self@[self.entry_seq()[i].0] == self.entry_seq()[i].1
                },
            forall|k: Seq<char>|
                #[trigger] self@.dom().contains(k) ==> exists|i: int|
                    0 <= i < self.entry_seq().len() && #[trigger] self.entry_seq()[i].0 == k,
            forall|i: int, j: int|
                0 <= i < j < self.entry_seq().len() ==> #[trigger] self.entry_seq()[i].0
                    != #[trigger] self.entry_seq()[j].0,
    {
        proof {
            use_type_invariant(self);
            self.lemma_entry_seq();
        }
        self.entries.len()
    }

    fn find(&self, k: &String) -> (r: Option<usize>)
        ensures
            r matches Some(i) ==> i < self.entries@.len() && self.entries@[i as int].0@ == k@,
            r is None ==> !self.has_key(k@),
    {
        let n = self.entries.len();
        for i in 0..n
            invariant
                n == self.entries@.len(),
                forall|j: int| 0 <= j < i ==> self.entries@[j].0@ != k@,
        {
            if self.entries[i].0 == *k {
                return Some(i);
            }
        }
        None
    }

    /// Whether `k` has an entry.
    pub fn contains_key(&self, k: &String) -> (b: bool)
        ensures
            b == self@.dom().contains(k@),
    {
        proof {
            use_type_invariant(self);
        }
        match self.find(k) {
            Some(i) => {
                proof {
                    self.lemma_lookup(i as int);
                }
                true
            },
            None => false,
        }
    }

    /// The value stored under `k`.
    pub fn get(&self, k: &String) -> (r: Option<&V>)
        ensures
            r == (if self@.dom().contains(k@) {
                Some(&self@[k@])
            } else {
                None
            }),
    {
        proof {
            use_type_invariant(self);
        }
        match self.find(k) {
            Some(i) => {
                proof {
                    self.lemma_lookup(i as int);
                }
                Some(&self.entries[i].1)
            },
            None => None,
        }
    }

    /// The key and value of the `i`-th entry.
    pub fn entry_at(&self, i: usize) -> (r: (&String, &V))
        requires
            i < self.entry_seq().len(),
        ensures
            r.0@ == self.entry_seq()[i as int].0,
            *r.1 == self.entry_seq()[i as int].1,
    {
        (&self.entries[i].0, &self.entries[i].1)
    }

    /// Stores `v` under `k`, replacing the value that was there.
    pub fn insert(&mut self, k: String, v: V)
        ensures
            final(self)@ == old(self)@.insert(k@, v),
    {
        proof {
            use_type_invariant(&*self);
        }
        let ghost old_self = *self;
        match self.find(&k) {
            Some(i) => {
                let ghost kk = k@;
                let mut es: Vec<(String, V)> = Vec::new();
                std::mem::swap(&mut self.entries, &mut es);
                es.set(i, (k, v));
                self.entries = es;
                proof {
                    assert forall|a: int, b: int|
                        0 <= a < b < self.entries@.len() implies #[trigger] self.entries@[a].0@
                        != #[trigger] self.entries@[b].0@ by {
                        assert(old_self.entries@[a].0@ != old_self.entries@[b].0@);
                    }
                    self.lemma_after_set(old_self, i as int, kk, v);
                }
            },
            None => {
                let ghost kk = k@;
                let mut es: Vec<(String, V)> = Vec::new();
                std::mem::swap(&mut self.entries, &mut es);
                es.push((k, v));
                self.entries = es;
                proof {
                    assert forall|a: int, b: int|
                        0 <= a < b < self.entries@.len() implies #[trigger] self.entries@[a].0@
                        != #[trigger] self.entries@[b].0@ by {
                        if b < old_self.entries@.len() {
                            assert(old_self.entries@[a].0@ != old_self.entries@[b].0@);
                        } else {
                            assert(old_self.entries@[a].0@ != kk);
                        }
                    }
                    self.lemma_after_push(old_self, kk, v);
                }
            },
        }
    }

    proof fn lemma_after_set(&self, old_self: Self, i: int, k: Seq<char>, v: V)
        requires
            old_self.keys_distinct(),
            self.keys_distinct(),
            0 <= i < old_self.entries@.len(),
            old_self.entries@[i].0@ == k,
            self.entries@.len() == old_self.entries@.len(),
            self.entries@[i].0@ == k,
            self.entries@[i].1 == v,
            forall|j: int| 0 <= j < self.entries@.len() && j != i ==> self.entries@[j] == old_self.entries@[j],
        ensures
            self.as_map() == old_self.as_map().insert(k, v),
    {
        assert forall|key: Seq<char>| self.has_key(key) <==> old_self.as_map().insert(k, v).dom().contains(key) by {
            if self.has_key(key) {
                let j = self.key_index(key);
                if j != i {
                    assert(old_self.entries@[j].0@ == key);
                    assert(old_self.has_key(key));
                }
            }
            if old_self.has_key(key) {
                let j = old_self.key_index(key);
                assert(self.entries@[j].0@ == key);
            }
            if key == k {
                assert(self.entries@[i].0@ == key);
            }
        }
        assert forall|key: Seq<char>| #[trigger] self.has_key(key) implies self.as_map()[key]
            == old_self.as_map().insert(k, v)[key] by {
            let j = self.key_index(key);
            self.lemma_lookup(j);
            if key != k {
                assert(j != i);
                old_self.lemma_lookup(j);
            }
        }
        assert(self.as_map() =~= old_self.as_map().insert(k, v));
    }

    proof fn lemma_after_push(&self, old_self: Self, k: Seq<char>, v: V)
        requires
            old_self.keys_distinct(),
            self.keys_distinct(),
            !old_self.has_key(k),
            self.entries@ == old_self.entries@.push((self.entries@.last().0, v)),
            self.entries@.last().0@ == k,
        ensures
            self.as_map() == old_self.as_map().insert(k, v),
    {
        let n = old_self.entries@.len();
        assert forall|key: Seq<char>| self.has_key(key) <==> old_self.as_map().insert(k, v).dom().contains(key) by {
            if self.has_key(key) {
                let j = self.key_index(key);
                if j < n {
                    assert(old_self.entries@[j].0@ == key);
                    assert(old_self.has_key(key));
                }
            }
            if old_self.has_key(key) {
                let j = old_self.key_index(key);
                assert(self.entries@[j].0@ == key);
            }
            if key == k {
                assert(self.entries@[n as int].0@ == key);
            }
        }
        assert forall|key: Seq<char>| #[trigger] self.has_key(key) implies self.as_map()[key]
            == old_self.as_map().insert(k, v)[key] by {
            let j = self.key_index(key);
            self.lemma_lookup(j);
            if key != k {
                assert(j != n);
                old_self.lemma_lookup(j);
            }
        }
        assert(self.as_map() =~= old_self.as_map().insert(k, v));
    }

    /// Removes the entry of `k` and gives its value back.
    pub fn remove(&mut self, k: &String) -> (r: Option<V>)
        ensures
            final(self)@ == old(self)@.remove(k@),
            r == (if old(self)@.dom().contains(k@) {
                Some(old(self)@[k@])
            } else {
                None
            }),
    {
        proof {
            use_type_invariant(&*self);
        }
        let ghost old_self = *self;
        match self.find(k) {
            Some(i) => {
                proof {
                    old_self.lemma_lookup(i as int);
                }
                let mut es: Vec<(String, V)> = Vec::new();
                std::mem::swap(&mut self.entries, &mut es);
                let (_, v) = es.remove(i);
                self.entries = es;
                proof {
                    assert forall|a: int, b: int|
                        0 <= a < b < self.entries@.len() implies #[trigger] self.entries@[a].0@
                        != #[trigger] self.entries@[b].0@ by {
                        let oa = if a < i { a } else { a + 1 };
                        let ob = if b < i { b } else { b + 1 };
                        assert(self.entries@[a] == old_self.entries@[oa]);
                        assert(self.entries@[b] == old_self.entries@[ob]);
                        assert(old_self.entries@[oa].0@ != old_self.entries@[ob].0@);
                    }
                    self.lemma_after_remove(old_self, i as int, k@);
                }
                Some(v)
            },
            None => {
                assert(self.as_map() =~= old_self.as_map().remove(k@));
                None
            },
        }
    }

    proof fn lemma_after_remove(&self, old_self: Self, i: int, k: Seq<char>)
        requires
            old_self.keys_distinct(),
            self.keys_distinct(),
            0 <= i < old_self.entries@.len(),
            old_self.entries@[i].0@ == k,
            self.entries@ == old_self.entries@.remove(i),
        ensures
            self.as_map() == old_self.as_map().remove(k),
    {
        assert forall|key: Seq<char>| self.has_key(key) <==> old_self.as_map().remove(k).dom().contains(key) by {
            if self.has_key(key) {
                let j = self.key_index(key);
                let oj = if j < i { j } else { j + 1 };
                assert(old_self.entries@[oj].0@ == key);
                assert(old_self.has_key(key));
                if key == k {
                    assert(old_self.entries@[oj].0@ == old_self.entries@[i].0@);
                    assert(oj != i);
                }
            }
            if old_self.has_key(key) && key != k {
                let j = old_self.key_index(key);
                assert(j != i);
                let nj = if j < i { j } else { j - 1 };
                assert(self.entries@[nj].0@ == key);
            }
        }
        assert forall|key: Seq<char>| #[trigger] self.has_key(key) implies self.as_map()[key]
            == old_self.as_map().remove(k)[key] by {
            let j = self.key_index(key);
            self.lemma_lookup(j);
            let oj = if j < i { j } else { j + 1 };
            assert(self.entries@[j] == old_self.entries@[oj]);
            old_self.lemma_lookup(oj);
        }
        assert(self.as_map() =~= old_self.as_map().remove(k));
    }

    /// The keys, in entry order.
    pub fn keys(&self) -> (ks: Vec<String>)
        ensures
            ks@.len() == self.entry_seq().len(),
            forall|i: int| 0 <= i < ks@.len() ==> #[trigger] ks@[i]@ == self.entry_seq()[i].0,
    {
        let mut ks: Vec<String> = Vec::new();
        let n = self.entries.len();
        for i in 0..n
            invariant
                n == self.entries@.len(),
                ks@.len() == i,
                forall|j: int| 0 <= j < i ==> #[trigger] ks@[j]@ == self.entry_seq()[j].0,
        {
            ks.push(self.entries[i].0.clone());
        }
        ks
    }

    /// Gives the entries up, in entry order.
    pub fn into_entries(self) -> (es: Vec<(String, V)>)
        ensures
            es@.len() == self.entry_seq().len(),
            forall|i: int|
                0 <= i < es@.len() ==> (#[trigger] es@[i]).0@ == self.entry_seq()[i].0 && es@[i].1
                    == self.entry_seq()[i].1,
    {
        self.entries
    }
}

impl<V> View for StrMap<V> {
    type V = Map<Seq<char>, V>;

    open spec fn view(&self) -> Map<Seq<char>, V> {
        self.as_map()
    }
}

} // verus!
