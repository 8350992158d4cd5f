//! A map keyed by strings that keeps its keys in lexicographic order.
use vstd::prelude::*;
use crate::order::{chars_lt, lemma_lt_irreflexive, lemma_lt_total, lemma_lt_transitive,
    lemma_lt_asymmetric};
use crate::text::{chars_of, str_eq};

verus! {

/// Keys and values, each key once, in increasing key order.
pub struct StrMap<V> {
    entries: Vec<(String, V)>,
}

/// The keys of `keys` increase strictly and are exactly the keys of `m`.
pub open spec fn ordered_keys_of<V>(keys: Seq<Seq<char>>, m: Map<Seq<char>, V>) -> bool {
    &&& forall|i: int, j: int| 0 <= i < j < keys.len() ==> crate::order::seq_lt(keys[i], keys[j])
    &&& forall|i: int| 0 <= i < keys.len() ==> #[trigger] m.contains_key(keys[i])
    &&& forall|k: Seq<char>| #[trigger] m.contains_key(k) ==> exists|i: int| 0 <= i < keys.len() && keys[i] == k
}

impl<V> StrMap<V> {
    /// The keys, in increasing order.
    pub closed spec fn keys(self) -> Seq<Seq<char>> {
        self.entries@.map_values(|e: (String, V)| e.0@)
    }

    #[verifier::type_invariant]
    closed spec fn sorted(self) -> bool {
        forall|i: int, j: int|
            0 <= i < j < self.entries@.len() ==> crate::order::seq_lt(
                self.entries@[i].0@,
                self.entries@[j].0@,
            )
    }

    closed spec fn has_key(self, k: Seq<char>) -> bool {
        exists|i: int| 0 <= i < self.entries@.len() && self.entries@[i].0@ == k
    }

    closed spec fn position(self, k: Seq<char>) -> int {
        choose|i: int| 0 <= i < self.entries@.len() && self.entries@[i].0@ == k
    }

    proof fn lemma_distinct(self, i: int, j: int)
        requires
            self.sorted(),
            0 <= i < self.entries@.len(),
            0 <= j < self.entries@.len(),
            i != j,
        ensures
            self.entries@[i].0@ != self.entries@[j].0@,
    {
        if i < j {
            lemma_lt_irreflexive(self.entries@[i].0@);
        } else {
            lemma_lt_irreflexive(self.entries@[j].0@);
        }
    }

    proof fn lemma_position(self, i: int)
        requires
            self.sorted(),
            0 <= i < self.entries@.len(),
        ensures
            self.has_key(self.entries@[i].0@),
            self.position(self.entries@[i].0@) == i,
    {
        let k = self.entries@[i].0@;
        let j = self.position(k);
        assert(0 <= j < self.entries@.len() && self.entries@[j].0@ == k);
        if j != i {
            self.lemma_distinct(i, j);
        }
    }

    proof fn lemma_ordered_keys(self)
        requires
            self.sorted(),
        ensures
            ordered_keys_of(self.keys(), self@),
    {
        let ks = self.keys();
        assert forall|i: int| 0 <= i < ks.len() implies #[trigger] self@.contains_key(ks[i]) by {
            self.lemma_position(i);
        }
        assert forall|k: Seq<char>| #[trigger] self@.contains_key(k) implies exists|i: int|
            0 <= i < ks.len() && ks[i] == k by {
            let i = self.position(k);
            assert(ks[i] == k);
        }
    }

    /// The first position whose key is not before `k`, and whether its key is `k`.
    fn locate(&self, k: &str) -> (r: (usize, bool))
        ensures
            r.0 <= self.entries@.len(),
            forall|i: int| 0 <= i < r.0 ==> crate::order::seq_lt(#[trigger] self.entries@[i].0@, k@),
            r.1 ==> r.0 < self.entries@.len() && self.entries@[r.0 as int].0@ == k@,
            !r.1 ==> forall|i: int| r.0 <= i < self.entries@.len() ==> crate::order::seq_lt(
                k@,
                #[trigger] self.entries@[i].0@,
            ),
    {
        proof {
            use_type_invariant(self);
        }
        let kc = chars_of(k);
        let mut i: usize = 0;
        while i < self.entries.len()
            invariant
                i <= self.entries@.len(),
                kc@ == k@,
                self.sorted(),
                forall|j: int| 0 <= j < i ==> crate::order::seq_lt(#[trigger] self.entries@[j].0@, k@),
            decreases self.entries@.len() - i,
        {
            let ec = chars_of(self.entries[i].0.as_str());
            if chars_lt(&ec, &kc) {
                i = i + 1;
            } else {
                if str_eq(self.entries[i].0.as_str(), k) {
                    return (i, true);
                }
                proof {
                    lemma_lt_total(ec@, kc@);
                    assert forall|j: int| i <= j < self.entries@.len() implies crate::order::seq_lt(
                        k@,
                        #[trigger] self.entries@[j].0@,
                    ) by {
                        if j > i {
                            lemma_lt_transitive(k@, self.entries@[i as int].0@, self.entries@[j].0@);
                        }
                    }
                }
                return (i, false);
            }
        }
        (i, false)
    }

    /// The position of `k`, if present.
    fn find(&self, k: &str) -> (r: Option<usize>)
        ensures
            match r {
                Some(i) => i < self.entries@.len() && self.entries@[i as int].0@ == k@
                    && self@.contains_key(k@) && self@[k@] == self.entries@[i as int].1,
                None => !self@.contains_key(k@),
            },
    {
        proof {
            use_type_invariant(self);
        }
        let (i, found) = self.locate(k);
        if found {
            proof {
                self.lemma_position(i as int);
            }
            Some(i)
        } else {
            proof {
                if self.has_key(k@) {
                    let j = self.position(k@);
                    if j < i {
                        lemma_lt_irreflexive(k@);
                    } else {
                        lemma_lt_irreflexive(k@);
                    }
                }
            }
            None
        }
    }

    pub fn new() -> (r: Self)
        ensures
            r@ == Map::<Seq<char>, V>::empty(),
            r.keys() == Seq::<Seq<char>>::empty(),
    {
        let r = StrMap { entries: Vec::new() };
        assert(r@ =~= Map::<Seq<char>, V>::empty());
        assert(r.keys() =~= Seq::<Seq<char>>::empty());
        r
    }

    /// The value under a key.
    pub fn get(&self, k: &str) -> (r: Option<&V>)
        ensures
            match r {
                Some(v) => self@.contains_key(k@) && *v == self@[k@],
                None => !self@.contains_key(k@),
            },
    {
        match self.find(k) {
            Some(i) => Some(&self.entries[i].1),
            None => None,
        }
    }

    pub fn contains_key(&self, k: &str) -> (r: bool)
        ensures
            r == self@.contains_key(k@),
    {
        self.find(k).is_some()
    }

    /// Number of keys; the keys in order are exactly the keys of the map.
    pub fn len(&self) -> (r: usize)
        ensures
            r == self.keys().len(),
            ordered_keys_of(self.keys(), self@),
            self@.dom().finite(),
            self@.dom().len() == self.keys().len(),
    {
        proof {
            use_type_invariant(self);
            self.lemma_ordered_keys();
            self.lemma_dom_len();
        }
        self.entries.len()
    }

    proof fn lemma_dom_len(self)
        requires
            self.sorted(),
        ensures
            self@.dom().finite(),
            self@.dom().len() == self.keys().len(),
    {
        let ks = self.keys();
        assert forall|i: int, j: int| 0 <= i < ks.len() && 0 <= j < ks.len() && i != j implies ks[i]
            != ks[j] by {
            self.lemma_distinct(i, j);
        }
        ks.unique_seq_to_set();
        assert(self@.dom() =~= ks.to_set()) by {
            assert forall|k: Seq<char>| self@.dom().contains(k) <==> ks.to_set().contains(k) by {
                if self@.dom().contains(k) {
                    let i = self.position(k);
                    assert(ks[i] == k);
                }
                if ks.to_set().contains(k) {
                    let i = choose|i: int| 0 <= i < ks.len() && ks[i] == k;
                    assert(self.entries@[i].0@ == k);
                }
            }
        }
    }

    pub fn is_empty(&self) -> (r: bool)
        ensures
            r == (self@ == Map::<Seq<char>, V>::empty()),
    {
        proof {
            use_type_invariant(self);
            if self.entries@.len() > 0 {
                self.lemma_position(0);
                assert(self@.contains_key(self.entries@[0].0@));
            } else {
                assert(self@ =~= Map::<Seq<char>, V>::empty());
            }
        }
        self.entries.len() == 0
    }

    /// The key and value at a position of the key order.
    pub fn entry_at(&self, i: usize) -> (r: (&String, &V))
        requires
            i < self.keys().len(),
        ensures
            r.0@ == self.keys()[i as int],
            self@.contains_key(r.0@),
            self@[r.0@] == *r.1,
    {
        proof {
            use_type_invariant(self);
            self.lemma_position(i as int);
        }
        (&self.entries[i].0, &self.entries[i].1)
    }

    /// The keys and values, in key order.
    pub fn into_entries(self) -> (r: Vec<(String, V)>)
        ensures
            r@.len() == self.keys().len(),
            forall|i: int| 0 <= i < r@.len() ==> (#[trigger] r@[i]).0@ == self.keys()[i] && self@[r@[i].0@] == r@[i].1,
            ordered_keys_of(self.keys(), self@),
    {
        proof {
            use_type_invariant(&self);
            self.lemma_ordered_keys();
            assert forall|i: int| 0 <= i < self.entries@.len() implies self@[self.entries@[i].0@] == self.entries@[i].1 by {
                self.lemma_position(i);
            }
        }
        self.entries
    }

    /// Sets the value under a key, returning the value it replaces.
    pub fn insert(&mut self, k: String, v: V) -> (r: Option<V>)
        ensures
            final(self)@ == old(self)@.insert(k@, v),
            match r {
                Some(o) => old(self)@.contains_key(k@) && o == old(self)@[k@],
                None => !old(self)@.contains_key(k@),
            },
    {
        proof {
            use_type_invariant(&*self);
        }
        let (i, found) = self.locate(k.as_str());
        let ghost before = self.entries@;
        let ghost key = k@;
        let mut entries: Vec<(String, V)> = Vec::new();
        std::mem::swap(&mut entries, &mut self.entries);
        if found {
            let (_, o) = entries.remove(i);
            entries.insert(i, (k, v));
            proof {
                assert(entries@ =~= before.update(i as int, (entries@[i as int].0, v)));
                assert(entries@[i as int].0@ == key);
                assert forall|a: int, b: int| 0 <= a < b < entries@.len() implies crate::order::seq_lt(
                    entries@[a].0@,
                    entries@[b].0@,
                ) by {
                    assert(entries@[a].0@ == before[a].0@);
                    assert(entries@[b].0@ == before[b].0@);
                }
            }
            self.entries = entries;
            proof {
                self.lemma_view_update(*old(self), i as int, key, v);
                old(self).lemma_position(i as int);
            }
            Some(o)
        } else {
            entries.insert(i, (k, v));
            proof {
                assert(entries@ =~= before.insert(i as int, (entries@[i as int].0, v)));
                assert forall|a: int, b: int| 0 <= a < b < entries@.len() implies crate::order::seq_lt(
                    entries@[a].0@,
                    entries@[b].0@,
                ) by {
                    if b < i {
                        assert(entries@[a] == before[a]);
                        assert(entries@[b] == before[b]);
                    } else if b == i {
                        assert(entries@[a] == before[a]);
                    } else if a == i {
                        assert(entries@[b] == before[b - 1]);
                    } else if a < i {
                        assert(entries@[a] == before[a]);
                        assert(entries@[b] == before[b - 1]);
                    } else {
                        assert(entries@[a] == before[a - 1]);
                        assert(entries@[b] == before[b - 1]);
                    }
                }
            }
            self.entries = entries;
            proof {
                if old(self).has_key(key) {
                    let j = choose|j: int| 0 <= j < before.len() && before[j].0@ == key;
                    lemma_lt_irreflexive(key);
                }
                self.lemma_view_insert(*old(self), i as int, key, v);
            }
            None
        }
    }

    proof fn lemma_view_update(self, prev: Self, i: int, key: Seq<char>, v: V)
        requires
            self.sorted(),
            prev.sorted(),
            0 <= i < prev.entries@.len(),
            self.entries@.len() == prev.entries@.len(),
            prev.entries@[i].0@ == key,
            self.entries@[i].0@ == key,
            self.entries@[i].1 == v,
            forall|j: int| 0 <= j < prev.entries@.len() && j != i ==> self.entries@[j] == prev.entries@[j],
        ensures
            self@ == prev@.insert(key, v),
    {
        assert forall|q: Seq<char>| #[trigger] self@.contains_key(q) == prev@.insert(key, v).contains_key(q) by {
            if self.has_key(q) {
                let j = choose|j: int| 0 <= j < self.entries@.len() && self.entries@[j].0@ == q;
                if j != i {
                    assert(prev.entries@[j].0@ == q);
                }
            }
            if prev.has_key(q) {
                let j = choose|j: int| 0 <= j < prev.entries@.len() && prev.entries@[j].0@ == q;
                if j != i {
                    assert(self.entries@[j].0@ == q);
                } else {
                    assert(self.entries@[i].0@ == q);
                }
            }
            if q == key {
                assert(self.entries@[i].0@ == q);
            }
        }
        assert forall|q: Seq<char>| #[trigger] self@.contains_key(q) implies self@[q] == prev@.insert(key, v)[q] by {
            let j = self.position(q);
            self.lemma_position(j);
            if j != i {
                self.lemma_distinct(i, j);
                prev.lemma_position(j);
            }
        }
        assert(self@ =~= prev@.insert(key, v));
    }

    proof fn lemma_view_insert(self, prev: Self, i: int, key: Seq<char>, v: V)
        requires
            self.sorted(),
            prev.sorted(),
            0 <= i <= prev.entries@.len(),
            self.entries@ == prev.entries@.insert(i, self.entries@[i]),
            self.entries@[i].0@ == key,
            self.entries@[i].1 == v,
            !prev.has_key(key),
        ensures
            self@ == prev@.insert(key, v),
    {
        let n = prev.entries@.len();
        assert(self.entries@.len() == n + 1);
        assert forall|j: int| 0 <= j < i implies self.entries@[j] == prev.entries@[j] by {}
        assert forall|j: int| i < j <= n implies self.entries@[j] == prev.entries@[j - 1] by {}
        assert forall|q: Seq<char>| #[trigger] self@.contains_key(q) == prev@.insert(key, v).contains_key(q) by {
            if self.has_key(q) {
                let j = choose|j: int| 0 <= j < self.entries@.len() && self.entries@[j].0@ == q;
                if j < i {
                    assert(prev.entries@[j].0@ == q);
                } else if j > i {
                    assert(prev.entries@[j - 1].0@ == q);
                }
            }
            if prev.has_key(q) {
                let j = choose|j: int| 0 <= j < prev.entries@.len() && prev.entries@[j].0@ == q;
                if j < i {
                    assert(self.entries@[j].0@ == q);
                } else {
                    assert(self.entries@[j + 1].0@ == q);
                }
            }
            if q == key {
                assert(self.entries@[i].0@ == q);
            }
        }
        assert forall|q: Seq<char>| #[trigger] self@.contains_key(q) implies self@[q] == prev@.insert(key, v)[q] by {
            let j = self.position(q);
            self.lemma_position(j);
            if j < i {
                prev.lemma_position(j);
            } else if j > i {
                prev.lemma_position(j - 1);
            }
        }
        assert(self@ =~= prev@.insert(key, v));
    }

    /// Removes a key, returning its value.
    pub fn remove(&mut self, k: &str) -> (r: Option<V>)
        ensures
            final(self)@ == old(self)@.remove(k@),
            match r {
                Some(o) => old(self)@.contains_key(k@) && o == old(self)@[k@],
                None => !old(self)@.contains_key(k@),
            },
    {
        match self.find(k) {
            None => {
                assert(self@ =~= old(self)@.remove(k@));
                None
            },
            Some(i) => {
                proof {
                    use_type_invariant(&*self);
                }
                let ghost before = self.entries@;
                let mut entries: Vec<(String, V)> = Vec::new();
                std::mem::swap(&mut entries, &mut self.entries);
                let e = entries.remove(i);
                proof {
                    assert(entries@ == before.remove(i as int));
                    assert forall|a: int, b: int| 0 <= a < b < entries@.len() implies crate::order::seq_lt(
                        entries@[a].0@,
                        entries@[b].0@,
                    ) by {
                        let a2 = if a < i { a } else { a + 1 };
                        let b2 = if b < i { b } else { b + 1 };
                        assert(entries@[a] == before[a2]);
                        assert(entries@[b] == before[b2]);
                    }
                }
                self.entries = entries;
                proof {
                    assert forall|q: Seq<char>| #[trigger] self@.contains_key(q) == old(self)@.remove(
                        k@,
                    ).contains_key(q) by {
                        if self.has_key(q) {
                            let j = choose|j: int| 0 <= j < self.entries@.len() && self.entries@[j].0@ == q;
                            let j2 = if j < i { j } else { j + 1 };
                            assert(before[j2].0@ == q);
                            old(self).lemma_distinct(j2, i as int);
                        }
                        if q != k@ && old(self).has_key(q) {
                            let j = choose|j: int| 0 <= j < before.len() && before[j].0@ == q;
                            assert(j != i);
                            let j1 = if j < i { j } else { j - 1 };
                            assert(self.entries@[j1] == before[j]);
                        }
                    }
                    assert forall|q: Seq<char>| #[trigger] self@.contains_key(q) implies self@[q] == old(
                        self,
                    )@[q] by {
                        let j = self.position(q);
                        self.lemma_position(j);
                        let j2 = if j < i { j } else { j + 1 };
                        assert(before[j2] == self.entries@[j]);
                        old(self).lemma_position(j2);
                    }
                    assert(self@ =~= old(self)@.remove(k@));
                }
                Some(e.1)
            },
        }
    }
}

impl<V> View for StrMap<V> {
    type V = Map<Seq<char>, V>;

    closed spec fn view(&self) -> Map<Seq<char>, V> {
        Map::new(|k: Seq<char>| self.has_key(k), |k: Seq<char>| self.entries@[self.position(k)].1)
    }
}

} // verus!
