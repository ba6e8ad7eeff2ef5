//! A map from texts to values.

use vstd::prelude::*;

use crate::text::str_eq;

verus! {

/// A map from texts to values. Keys are kept in the order in which they were added.
pub struct StrMap<V> {
    keys: Vec<String>,
    values: Vec<V>,
}

/// Where a text stands in a list.
spec fn at(keys: Seq<String>, k: Seq<char>, i: int) -> bool {
    0 <= i < keys.len() && keys[i]@ == k
}

impl<V> View for StrMap<V> {
    type V = Map<Seq<char>, V>;

    closed spec fn view(&self) -> Map<Seq<char>, V> {
        Map::new(
            |k: Seq<char>| exists|i: int| at(self.keys@, k, i),
            |k: Seq<char>| self.values@[choose|i: int| at(self.keys@, k, i)],
        )
    }
}

impl<V> StrMap<V> {
    /// No key stands twice, and each has its value.
    pub closed spec fn wf(&self) -> bool {
        &&& self.keys@.len() == self.values@.len()
        &&& forall|i: int, j: int|
            0 <= i < j < self.keys@.len() ==> (#[trigger] self.keys@[i])@ != (
            #[trigger] self.keys@[j])@
    }

    /// The keys in order.
    pub closed spec fn key_order(&self) -> Seq<Seq<char>> {
        self.keys@.map_values(|k: String| k@)
    }

    /// The keys in order are those of the map, each once.
    pub proof fn lemma_key_order(&self)
        requires
            self.wf(),
        ensures
            self.key_order().no_duplicates(),
            forall|k: Seq<char>|
                self.key_order().contains(k) <==> #[trigger] self@.dom().contains(k),
            self@.dom().finite(),
    {
        assert forall|k: Seq<char>|
            self.key_order().contains(k) <==> #[trigger] self@.dom().contains(k) by {
            if self@.dom().contains(k) {
                let i = choose|i: int| at(self.keys@, k, i);
                assert(self.key_order()[i] == k);
            }
            if self.key_order().contains(k) {
                let i = choose|i: int| 0 <= i < self.key_order().len() && self.key_order()[i] == k;
                assert(at(self.keys@, k, i));
            }
        }
        vstd::seq_lib::seq_to_set_is_finite(self.key_order());
        assert(self.key_order().to_set() =~= self@.dom());
    }

    proof fn lemma_at(&self, i: int)
        requires
            self.wf(),
            0 <= i < self.keys@.len(),
        ensures
            self@.dom().contains(self.keys@[i]@),
            self@[self.keys@[i]@] == self.values@[i],
    {
        let k = self.keys@[i]@;
        assert(at(self.keys@, k, i));
        let j = choose|j: int| at(self.keys@, k, j);
        if i < j {
            assert(self.keys@[i]@ != self.keys@[j]@);
        } else if j < i {
            assert(self.keys@[j]@ != self.keys@[i]@);
        }
    }

    /// An empty map.
    pub fn new() -> (r: StrMap<V>)
        ensures
            r.wf(),
            r@ == Map::<Seq<char>, V>::empty(),
            r.key_order() == Seq::<Seq<char>>::empty(),
    {
        let r = StrMap { keys: Vec::new(), values: Vec::new() };
        assert(r@ =~= Map::<Seq<char>, V>::empty());
        assert(r.key_order() =~= Seq::<Seq<char>>::empty());
        r
    }

    /// The number of keys.
    pub fn len(&self) -> (n: usize)
        ensures
            n == self.key_order().len(),
    {
        self.keys.len()
    }

    /// The key at a place in the order.
    pub fn key_at(&self, i: usize) -> (r: &String)
        requires
            self.wf(),
            i < self.key_order().len(),
        ensures
            r@ == self.key_order()[i as int],
            self@.dom().contains(r@),
    {
        proof {
            self.lemma_at(i as int);
        }
        &self.keys[i]
    }

    /// The value at a place in the order.
    pub fn value_at(&self, i: usize) -> (r: &V)
        requires
            self.wf(),
            i < self.key_order().len(),
        ensures
            *r == self@[self.key_order()[i as int]],
            self@.dom().contains(self.key_order()[i as int]),
    {
        proof {
            self.lemma_at(i as int);
        }
        &self.values[i]
    }

    fn find(&self, key: &str) -> (r: Option<usize>)
        requires
            self.wf(),
        ensures
            match r {
                Some(i) => i < self.keys@.len() && self.keys@[i as int]@ == key@
                    && self@.dom().contains(key@) && self@[key@] == self.values@[i as int],
                None => !self@.dom().contains(key@),
            },
    {
        let mut i: usize = 0;
        while i < self.keys.len()
            invariant
                self.wf(),
                i <= self.keys@.len(),
                forall|j: int| 0 <= j < i ==> (#[trigger] self.keys@[j])@ != key@,
            decreases self.keys.len() - i,
        {
            if str_eq(self.keys[i].as_str(), key) {
                proof {
                    self.lemma_at(i as int);
                }
                return Some(i);
            }
            i = i + 1;
        }
        None
    }

    /// Whether the map has a key.
    pub fn contains_key(&self, key: &str) -> (r: bool)
        requires
            self.wf(),
        ensures
            r == self@.dom().contains(key@),
    {
        self.find(key).is_some()
    }

    /// The value of a key.
    pub fn get(&self, key: &str) -> (r: Option<&V>)
        requires
            self.wf(),
        ensures
            match r {
                Some(v) => self@.dom().contains(key@) && *v == self@[key@],
                None => !self@.dom().contains(key@),
            },
    {
        match self.find(key) {
            Some(i) => Some(&self.values[i]),
            None => None,
        }
    }

    /// Gives a key a value.
    pub fn insert(&mut self, key: String, value: V)
        requires
            old(self).wf(),
        ensures
            final(self).wf(),
            final(self)@ == old(self)@.insert(key@, value),
    {
        let ghost before = *self;
        match self.find(key.as_str()) {
            Some(i) => {
                self.values.set(i, value);
                proof {
                    before.lemma_same_keys(self);
                    assert forall|k: Seq<char>| before@.dom().contains(k) implies #[trigger] self@[k]
                        == before@.insert(key@, value)[k] by {
                        let j = choose|j: int| at(before.keys@, k, j);
                        before.lemma_at(j);
                        self.lemma_at(j);
                        if j != i {
                            if j < i {
                                assert(before.keys@[j]@ != before.keys@[i as int]@);
                            } else {
                                assert(before.keys@[i as int]@ != before.keys@[j]@);
                            }
                        }
                    }
                    assert(self@ =~= before@.insert(key@, value));
                }
            },
            None => {
                let ghost k0 = key@;
                self.keys.push(key);
                self.values.push(value);
                proof {
                    let n = before.keys@.len() as int;
                    assert forall|j: int| 0 <= j < n implies (#[trigger] self.keys@[j])@ != k0 by {
                        before.lemma_at(j);
                    }
                    assert(self.wf());
                    assert forall|k: Seq<char>| #[trigger]
                        self@.dom().contains(k) <==> before@.insert(k0, value).dom().contains(k) by {
                        if self@.dom().contains(k) {
                            let j = choose|j: int| at(self.keys@, k, j);
                            if j < n {
                                assert(at(before.keys@, k, j));
                            }
                        }
                        if before@.dom().contains(k) {
                            let j = choose|j: int| at(before.keys@, k, j);
                            assert(at(self.keys@, k, j));
                        }
                        assert(at(self.keys@, k0, n));
                    }
                    assert forall|k: Seq<char>| self@.dom().contains(k) implies #[trigger] self@[k]
                        == before@.insert(k0, value)[k] by {
                        let j = choose|j: int| at(self.keys@, k, j);
                        self.lemma_at(j);
                        if j < n {
                            before.lemma_at(j);
                        }
                    }
                    assert(self@ =~= before@.insert(k0, value));
                }
            },
        }
    }

    proof fn lemma_same_keys(&self, other: &StrMap<V>)
        requires
            self.wf(),
            other.wf(),
            self.keys@ == other.keys@,
        ensures
            self@.dom() == other@.dom(),
    {
        assert(self@.dom() =~= other@.dom());
    }

    /// Removes a key, and gives the value that it had.
    pub fn remove(&mut self, key: &str) -> (r: Option<V>)
        requires
            old(self).wf(),
        ensures
            final(self).wf(),
            final(self)@ == old(self)@.remove(key@),
            match r {
                Some(v) => old(self)@.dom().contains(key@) && v == old(self)@[key@],
                None => !old(self)@.dom().contains(key@),
            },
    {
        let ghost before = *self;
        match self.find(key) {
            None => {
                assert(self@ =~= before@.remove(key@));
                None
            },
            Some(i) => {
                let _ = self.keys.remove(i);
                let value = self.values.remove(i);
                proof {
                    let n = before.keys@.len() as int;
                    assert forall|a: int, b: int| 0 <= a < b < self.keys@.len() implies (
                    #[trigger] self.keys@[a])@ != (#[trigger] self.keys@[b])@ by {
                        let a0 = if a < i { a } else { a + 1 };
                        let b0 = if b < i { b } else { b + 1 };
                        assert(self.keys@[a] == before.keys@[a0]);
                        assert(self.keys@[b] == before.keys@[b0]);
                    }
                    assert(self.wf());
                    assert forall|k: Seq<char>| #[trigger]
                        self@.dom().contains(k) <==> before@.remove(key@).dom().contains(k) by {
                        if self@.dom().contains(k) {
                            let j = choose|j: int| at(self.keys@, k, j);
                            let j0 = if j < i { j } else { j + 1 };
                            assert(at(before.keys@, k, j0));
                            before.lemma_at(j0);
                            if j0 < i {
                                assert(before.keys@[j0]@ != before.keys@[i as int]@);
                            } else {
                                assert(before.keys@[i as int]@ != before.keys@[j0]@);
                            }
                        }
                        if before@.dom().contains(k) && k != key@ {
                            let j = choose|j: int| at(before.keys@, k, j);
                            let j1 = if j < i { j } else { j - 1 };
                            assert(at(self.keys@, k, j1));
                        }
                    }
                    assert forall|k: Seq<char>| self@.dom().contains(k) implies #[trigger] self@[k]
                        == before@.remove(key@)[k] by {
                        let j = choose|j: int| at(self.keys@, k, j);
                        let j0 = if j < i { j } else { j + 1 };
                        self.lemma_at(j);
                        before.lemma_at(j0);
                    }
                    assert(self@ =~= before@.remove(key@));
                }
                Some(value)
            },
        }
    }
}

}
