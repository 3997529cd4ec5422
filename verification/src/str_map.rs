use vstd::prelude::*;

use crate::text::str_eq;

verus! {

/// A map from string keys to values, kept as a list of distinct keys with
/// their values. Its view is the mathematical map from each key's characters
/// to its value.
pub struct StrMap<V> {
    entries: Vec<(String, V)>,
}

impl<V> View for StrMap<V> {
    type V = Map<Seq<char>, V>;

    closed spec fn view(&self) -> Map<Seq<char>, V> {
        Map::new(
            |k: Seq<char>| exists|i: int| self.has_key_at(k, i),
            |k: Seq<char>| self.entries@[choose|i: int| self.has_key_at(k, i)].1,
        )
    }
}

impl<V> StrMap<V> {
    /// The characters of the key stored at position `i`.
    closed spec fn key_at(self, i: int) -> Seq<char> {
        self.entries@[i].0@
    }

    /// Position `i` holds the key `k`.
    closed spec fn has_key_at(self, k: Seq<char>, i: int) -> bool {
        0 <= i < self.entries@.len() && self.entries@[i].0@ == k
    }

    /// No key is stored twice.
    #[verifier::type_invariant]
    closed spec fn keys_distinct(self) -> bool {
        forall|i: int, j: int|
            0 <= i < self.entries@.len() && 0 <= j < self.entries@.len() && i != j
                ==> #[trigger] self.entries@[i].0@ != #[trigger] self.entries@[j].0@
    }

    /// The keys, as character sequences, in storage order.
    closed spec fn key_seq(self) -> Seq<Seq<char>> {
        self.entries@.map_values(|e: (String, V)| e.0@)
    }

    proof fn lemma_view(self)
        requires
            self.keys_distinct(),
        ensures
            forall|i: int|
                0 <= i < self.entries@.len() ==> #[trigger] self@.contains_key(self.key_at(i))
                    && self@[self.key_at(i)] == self.entries@[i].1,
            forall|k: Seq<char>|
                #[trigger] self@.contains_key(k) ==> exists|i: int| self.has_key_at(k, i),
            self@.dom() == self.key_seq().to_set(),
            self@.dom().finite(),
            self@.len() == self.entries@.len(),
    {
        assert forall|i: int| 0 <= i < self.entries@.len() implies #[trigger] self@.contains_key(
            self.key_at(i),
        ) && self@[self.key_at(i)] == self.entries@[i].1 by {
            assert(self.has_key_at(self.key_at(i), i));
            let j = choose|j: int| self.has_key_at(self.key_at(i), j);
            assert(self.has_key_at(self.key_at(i), j));
            assert(i == j);
        }
        assert forall|k: Seq<char>| self@.dom().contains(k) <==> self.key_seq().to_set().contains(
            k,
        ) by {
            if self@.dom().contains(k) {
                let i = choose|i: int| self.has_key_at(k, i);
                assert(self.key_seq()[i] == k);
            }
            if self.key_seq().to_set().contains(k) {
                let i = choose|i: int| 0 <= i < self.key_seq().len() && self.key_seq()[i] == k;
                assert(self.has_key_at(k, i));
            }
        }
        assert(self@.dom() =~= self.key_seq().to_set());
        assert(self.key_seq().no_duplicates()) by {
            assert forall|i: int, j: int|
                0 <= i < self.key_seq().len() && 0 <= j < self.key_seq().len() && i != j
                    implies self.key_seq()[i] != self.key_seq()[j] by {
                assert(self.entries@[i].0@ != self.entries@[j].0@);
            }
        }
        self.key_seq().unique_seq_to_set();
    }

    /// Position of `k`, if present.
    fn find(&self, k: &str) -> (r: Option<usize>)
        ensures
            match r {
                Some(i) => self.has_key_at(k@, i as int),
                None => !self@.contains_key(k@),
            },
    {
        proof {
            use_type_invariant(self);
            self.lemma_view();
        }
        let mut i: usize = 0;
        while i < self.entries.len()
            invariant
                0 <= i <= self.entries@.len(),
                forall|j: int| 0 <= j < i ==> self.entries@[j].0@ != k@,
            decreases self.entries@.len() - i,
        {
            if str_eq(self.entries[i].0.as_str(), k) {
                return Some(i);
            }
            i = i + 1;
        }
        None
    }

    /// The empty map.
    pub fn new() -> (r: Self)
        ensures
            r@ == Map::<Seq<char>, V>::empty(),
    {
        let r = StrMap { entries: Vec::new() };
        assert(r@ =~= Map::<Seq<char>, V>::empty());
        r
    }

    /// Number of keys.
    pub fn len(&self) -> (r: usize)
        ensures
            r == self@.len(),
    {
        proof {
            use_type_invariant(self);
            self.lemma_view();
        }
        self.entries.len()
    }

    /// Whether no key is present.
    pub fn is_empty(&self) -> (r: bool)
        ensures
            r == (self@.len() == 0),
            r == (self@ == Map::<Seq<char>, V>::empty()),
    {
        proof {
            use_type_invariant(self);
            self.lemma_view();
            if self.entries@.len() > 0 {
                assert(self@.contains_key(self.key_at(0)));
            }
            if self.entries@.len() == 0 {
                assert(self@ =~= Map::<Seq<char>, V>::empty());
            }
        }
        self.entries.len() == 0
    }

    /// Whether `k` is present.
    pub fn contains_key(&self, k: &str) -> (r: bool)
        ensures
            r == self@.contains_key(k@),
    {
        proof {
            use_type_invariant(self);
            self.lemma_view();
        }
        self.find(k).is_some()
    }

    /// The value stored under `k`, if any.
    pub fn get(&self, k: &str) -> (r: Option<&V>)
        ensures
            match r {
                Some(v) => self@.contains_key(k@) && *v == self@[k@],
                None => !self@.contains_key(k@),
            },
    {
        proof {
            use_type_invariant(self);
            self.lemma_view();
        }
        match self.find(k) {
            Some(i) => Some(&self.entries[i].1),
            None => None,
        }
    }

    /// Stores `v` under `k`, replacing any value already stored there.
    pub fn insert(&mut self, k: String, v: V)
        ensures
            final(self)@ == old(self)@.insert(k@, v),
    {
        proof {
            use_type_invariant(&*self);
            self.lemma_view();
        }
        match self.find(k.as_str()) {
            Some(i) => {
                let ghost kk = k@;
                let mut es: Vec<(String, V)> = Vec::new();
                std::mem::swap(&mut es, &mut self.entries);
                es.set(i, (k, v));
                proof {
                    assert forall|a: int, b: int|
                        0 <= a < es@.len() && 0 <= b < es@.len() && a != b implies #[trigger] es@[a].0@
                        != #[trigger] es@[b].0@ by {
                        assert(old(self).entries@[a].0@ != old(self).entries@[b].0@);
                    }
                }
                self.entries = es;
                proof {
                    assert(self.keys_distinct()) by {
                        assert forall|a: int, b: int|
                            0 <= a < self.entries@.len() && 0 <= b < self.entries@.len() && a
                                != b implies #[trigger] self.entries@[a].0@
                            != #[trigger] self.entries@[b].0@ by {
                            assert(old(self).entries@[a].0@ != old(self).entries@[b].0@);
                        }
                    }
                    self.lemma_view();
                    assert(self@ =~= old(self)@.insert(kk, v)) by {
                        assert forall|key: Seq<char>| #[trigger] self@.contains_key(key) implies old(
                            self,
                        )@.insert(kk, v).contains_key(key) by {
                            let j = choose|j: int| self.has_key_at(key, j);
                            if j != i {
                                assert(old(self).has_key_at(key, j));
                            }
                        }
                        assert forall|key: Seq<char>| #[trigger] old(self)@.insert(
                            kk,
                            v,
                        ).contains_key(key) implies self@.contains_key(key) && self@[key] == old(
                            self,
                        )@.insert(kk, v)[key] by {
                            if key == kk {
                                assert(self.has_key_at(key, i as int));
                            } else {
                                let j = choose|j: int| old(self).has_key_at(key, j);
                                assert(self.has_key_at(key, j));
                                assert(self.key_at(j) == key);
                            }
                        }
                    }
                }
            },
            None => {
                let ghost kk = k@;
                let mut es: Vec<(String, V)> = Vec::new();
                std::mem::swap(&mut es, &mut self.entries);
                es.push((k, v));
                proof {
                    assert forall|a: int, b: int|
                        0 <= a < es@.len() && 0 <= b < es@.len() && a != b implies #[trigger] es@[a].0@
                        != #[trigger] es@[b].0@ by {
                        let n = old(self).entries@.len() as int;
                        if a < n && b < n {
                            assert(old(self).entries@[a].0@ != old(self).entries@[b].0@);
                        } else if a < n {
                            assert(old(self)@.contains_key(old(self).key_at(a)));
                        } else {
                            assert(old(self)@.contains_key(old(self).key_at(b)));
                        }
                    }
                }
                self.entries = es;
                proof {
                    assert(self.keys_distinct()) by {
                        assert forall|a: int, b: int|
                            0 <= a < self.entries@.len() && 0 <= b < self.entries@.len() && a
                                != b implies #[trigger] self.entries@[a].0@
                            != #[trigger] self.entries@[b].0@ by {
                            let n = old(self).entries@.len() as int;
                            if a < n && b < n {
                                assert(old(self).entries@[a].0@ != old(self).entries@[b].0@);
                            } else if a < n {
                                assert(old(self)@.contains_key(old(self).key_at(a)));
                            } else {
                                assert(old(self)@.contains_key(old(self).key_at(b)));
                            }
                        }
                    }
                    self.lemma_view();
                    assert(self@ =~= old(self)@.insert(kk, v)) by {
                        let n = old(self).entries@.len() as int;
                        assert forall|key: Seq<char>| #[trigger] self@.contains_key(key) implies old(
                            self,
                        )@.insert(kk, v).contains_key(key) by {
                            let j = choose|j: int| self.has_key_at(key, j);
                            if j != n {
                                assert(old(self).has_key_at(key, j));
                            }
                        }
                        assert forall|key: Seq<char>| #[trigger] old(self)@.insert(
                            kk,
                            v,
                        ).contains_key(key) implies self@.contains_key(key) && self@[key] == old(
                            self,
                        )@.insert(kk, v)[key] by {
                            if key == kk {
                                assert(self.has_key_at(key, n));
                            } else {
                                let j = choose|j: int| old(self).has_key_at(key, j);
                                assert(self.has_key_at(key, j));
                                assert(self.key_at(j) == key);
                            }
                        }
                    }
                }
            },
        }
    }

    /// Removes `k`, handing back the value it held.
    pub fn remove(&mut self, k: &str) -> (r: Option<V>)
        ensures
            final(self)@ == old(self)@.remove(k@),
            match r {
                Some(v) => old(self)@.contains_key(k@) && v == old(self)@[k@],
                None => !old(self)@.contains_key(k@),
            },
    {
        proof {
            use_type_invariant(&*self);
            self.lemma_view();
        }
        match self.find(k) {
            Some(i) => {
                let mut es: Vec<(String, V)> = Vec::new();
                std::mem::swap(&mut es, &mut self.entries);
                let e = es.remove(i);
                proof {
                    assert forall|a: int, b: int|
                        0 <= a < es@.len() && 0 <= b < es@.len() && a != b implies #[trigger] es@[a].0@
                        != #[trigger] es@[b].0@ by {
                        let oa = if a < i { a } else { a + 1 };
                        let ob = if b < i { b } else { b + 1 };
                        assert(es@[a] == old(self).entries@[oa]);
                        assert(es@[b] == old(self).entries@[ob]);
                        assert(old(self).entries@[oa].0@ != old(self).entries@[ob].0@);
                    }
                }
                self.entries = es;
                proof {
                    assert(self.keys_distinct()) by {
                        assert forall|a: int, b: int|
                            0 <= a < self.entries@.len() && 0 <= b < self.entries@.len() && a
                                != b implies #[trigger] self.entries@[a].0@
                            != #[trigger] self.entries@[b].0@ by {
                            let oa = if a < i { a } else { a + 1 };
                            let ob = if b < i { b } else { b + 1 };
                            assert(self.entries@[a] == old(self).entries@[oa]);
                            assert(self.entries@[b] == old(self).entries@[ob]);
                            assert(old(self).entries@[oa].0@ != old(self).entries@[ob].0@);
                        }
                    }
                    self.lemma_view();
                    assert(self@ =~= old(self)@.remove(k@)) by {
                        assert forall|key: Seq<char>| #[trigger] self@.contains_key(key) implies old(
                            self,
                        )@.remove(k@).contains_key(key) && self@[key] == old(self)@.remove(
                            k@,
                        )[key] by {
                            let j = choose|j: int| self.has_key_at(key, j);
                            let oj = if j < i { j } else { j + 1 };
                            assert(self.entries@[j] == old(self).entries@[oj]);
                            assert(old(self).has_key_at(key, oj));
                            assert(old(self).key_at(oj) == key);
                            assert(oj != i);
                            assert(self.key_at(j) == key);
                        }
                        assert forall|key: Seq<char>| #[trigger] old(self)@.remove(
                            k@,
                        ).contains_key(key) implies self@.contains_key(key) by {
                            let j = choose|j: int| old(self).has_key_at(key, j);
                            assert(j != i);
                            let nj = if j < i { j } else { j - 1 };
                            assert(self.entries@[nj] == old(self).entries@[j]);
                            assert(self.has_key_at(key, nj));
                        }
                    }
                }
                Some(e.1)
            },
            None => {
                assert(self@ =~= old(self)@.remove(k@));
                None
            },
        }
    }

    /// Removes every key.
    pub fn clear(&mut self)
        ensures
            final(self)@ == Map::<Seq<char>, V>::empty(),
    {
        self.entries = Vec::new();
        assert(self@ =~= Map::<Seq<char>, V>::empty());
    }

    /// The keys, each once, in storage order.
    pub fn keys(&self) -> (r: Vec<String>)
        ensures
            r@.len() == self@.len(),
            forall|i: int| 0 <= i < r@.len() ==> self@.contains_key(#[trigger] r@[i]@),
            forall|k: Seq<char>| #[trigger] self@.contains_key(k) ==> exists|i: int|
                0 <= i < r@.len() && r@[i]@ == k,
            forall|i: int, j: int|
                0 <= i < r@.len() && 0 <= j < r@.len() && i != j ==> #[trigger] r@[i]@
                    != #[trigger] r@[j]@,
    {
        proof {
            use_type_invariant(self);
            self.lemma_view();
        }
        let mut r: Vec<String> = Vec::new();
        let mut i: usize = 0;
        while i < self.entries.len()
            invariant
                0 <= i <= self.entries@.len(),
                r@.len() == i,
                self.keys_distinct(),
                forall|j: int| 0 <= j < i ==> #[trigger] r@[j]@ == self.entries@[j].0@,
            decreases self.entries@.len() - i,
        {
            r.push(self.entries[i].0.clone());
            i = i + 1;
        }
        proof {
            assert forall|k: Seq<char>| #[trigger] self@.contains_key(k) implies exists|i: int|
                0 <= i < r@.len() && r@[i]@ == k by {
                let j = choose|j: int| self.has_key_at(k, j);
                assert(r@[j]@ == k);
            }
            assert forall|a: int, b: int|
                0 <= a < r@.len() && 0 <= b < r@.len() && a != b implies #[trigger] r@[a]@
                != #[trigger] r@[b]@ by {
                assert(self.entries@[a].0@ != self.entries@[b].0@);
            }
            assert forall|a: int| 0 <= a < r@.len() implies self@.contains_key(#[trigger] r@[a]@) by {
                assert(self.key_at(a) == r@[a]@);
            }
        }
        r
    }
}

} // verus!
