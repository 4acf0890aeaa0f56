//! A small map from names to values that keeps its entries in insertion order.
use vstd::prelude::*;

use crate::module_node::ModuleNodeId;

verus! {

/// A map keyed by strings, stored as a list of entries with pairwise distinct keys.
///
/// Entries keep the order in which their keys were first inserted; replacing the
/// value of a present key keeps its place, and removing a key keeps the order of
/// the others.
///
/// The module index walks these maps entry by entry: it drops the child entries
/// that name a given node, and it looks for the first name whose list holds a
/// given file. vstd's `StringHashMap` specifies lookups but no order of its
/// entries and no walk over them, so those walks could not be stated over it;
/// this map gives them a fixed order that the contracts can speak of.
pub struct NameMap<V> {
    entries: Vec<(String, V)>,
}

impl<V> NameMap<V> {
    #[verifier::type_invariant]
    spec fn keys_distinct(self) -> bool {
        self.keys().no_duplicates()
    }

    /// The keys, in entry order.
    pub closed spec fn keys(self) -> Seq<Seq<char>> {
        self.entries@.map_values(|e: (String, V)| e.0@)
    }

    /// The values, in entry order.
    pub closed spec fn values(self) -> Seq<V> {
        self.entries@.map_values(|e: (String, V)| e.1)
    }

    /// The keys are pairwise distinct and pair up with the values.
    pub open spec fn distinct(self) -> bool {
        &&& self.keys().no_duplicates()
        &&& self.keys().len() == self.values().len()
    }

    /// The number of entries.
    pub open spec fn spec_len(self) -> nat {
        self.keys().len()
    }

    /// An empty map.
    pub fn new() -> (r: Self)
        ensures
            r.keys() == Seq::<Seq<char>>::empty(),
            r.values() == Seq::<V>::empty(),
            r@ == Map::<Seq<char>, V>::empty(),
            r.distinct(),
    {
        let r = NameMap { entries: Vec::new() };
        proof {
            assert(r.keys() =~= Seq::<Seq<char>>::empty());
            assert(r.values() =~= Seq::<V>::empty());
            assert(r@ =~= Map::<Seq<char>, V>::empty());
        }
        r
    }

    /// The number of entries.
    pub fn len(&self) -> (r: usize)
        ensures
            r == self.spec_len(),
            r == self@.dom().len(),
            self.distinct(),
    {
        proof {
            use_type_invariant(self);
            self.keys().unique_seq_to_set();
            assert(self@.dom() =~= self.keys().to_set());
        }
        self.entries.len()
    }

    /// Whether there is no entry.
    pub fn is_empty(&self) -> (r: bool)
        ensures
            r == (self.spec_len() == 0),
            r == self@.is_empty(),
    {
        proof {
            if self.spec_len() > 0 {
                assert(self@.dom().contains(self.keys()[0]));
            } else {
                assert(self@.dom() =~= Set::<Seq<char>>::empty());
            }
        }
        self.entries.len() == 0
    }

    /// The position of `key`, if present.
    pub fn position(&self, key: &str) -> (r: Option<usize>)
        ensures
            self.distinct(),
            match r {
                Some(i) => i < self.spec_len() && self.keys()[i as int] == key@,
                None => !self.keys().contains(key@),
            },
            r is Some <==> self@.contains_key(key@),
    {
        proof {
            use_type_invariant(self);
            assert(self.keys().len() == self.values().len());
        }
        let k = key.to_owned();
        let mut i: usize = 0;
        while i < self.entries.len()
            invariant
                i <= self.entries@.len(),
                k@ == key@,
                self.distinct(),
                forall|j: int| 0 <= j < i ==> self.keys()[j] != key@,
            decreases self.entries.len() - i,
        {
            if self.entries[i].0 == k {
                proof {
                    assert(self.keys()[i as int] == key@);
                    assert(self@.dom().contains(key@));
                }
                return Some(i);
            }
            i = i + 1;
        }
        None
    }

    /// The key at position `i`.
    pub fn key_at(&self, i: usize) -> (r: &String)
        requires
            i < self.spec_len(),
        ensures
            r@ == self.keys()[i as int],
    {
        &self.entries[i].0
    }

    /// The value at position `i`.
    pub fn value_at(&self, i: usize) -> (r: &V)
        requires
            i < self.spec_len(),
        ensures
            *r == self.values()[i as int],
    {
        &self.entries[i].1
    }

    /// The value stored under `key`, if any.
    pub fn get(&self, key: &str) -> (r: Option<&V>)
        ensures
            match r {
                Some(v) => self@.contains_key(key@) && *v == self@[key@],
                None => !self@.contains_key(key@),
            },
    {
        match self.position(key) {
            Some(i) => {
                proof {
                    self.lemma_lookup_at(i as int);
                }
                Some(&self.entries[i].1)
            },
            None => None,
        }
    }

    /// Whether `key` is present.
    pub fn contains_key(&self, key: &str) -> (r: bool)
        ensures
            r == self@.contains_key(key@),
    {
        self.position(key).is_some()
    }

    /// Stores `value` under `key`, in place if the key is present and as a new last
    /// entry otherwise.
    pub fn insert(&mut self, key: String, value: V)
        ensures
            final(self)@ == old(self)@.insert(key@, value),
            final(self).distinct(),
            old(self).keys().contains(key@) ==> {
                &&& final(self).keys() == old(self).keys()
                &&& final(self).values() == old(self).values().update(
                    old(self).keys().index_of(key@),
                    value,
                )
            },
            !old(self).keys().contains(key@) ==> {
                &&& final(self).keys() == old(self).keys().push(key@)
                &&& final(self).values() == old(self).values().push(value)
            },
    {
        proof {
            use_type_invariant(&*self);
        }
        match self.position(key.as_str()) {
            Some(i) => {
                proof {
                    self.lemma_index_of(i as int);
                }
                let ghost k = key@;
                let mut es: Vec<(String, V)> = Vec::new();
                std::mem::swap(&mut es, &mut self.entries);
                es.set(i, (key, value));
                proof {
                    assert(es@.map_values(|e: (String, V)| e.0@) =~= old(self).keys());
                }
                self.entries = es;
                proof {
                    assert(self.keys() =~= old(self).keys());
                    assert(self.values() =~= old(self).values().update(i as int, value));
                    old(self).lemma_index_of(i as int);
                    self.lemma_index_of(i as int);
                    assert forall|q: Seq<char>| self.keys().contains(q) implies self.lookup(q)
                        == old(self)@.insert(k, value)[q] by {
                        let j = self.keys().index_of(q);
                        assert(self.keys()[j] == q);
                        if q != k {
                            assert(j != i);
                            assert(old(self).keys().index_of(q) == j);
                        }
                    }
                    assert(self@.dom() =~= old(self)@.insert(k, value).dom());
                    assert(self@ =~= old(self)@.insert(k, value));
                }
            },
            None => {
                let ghost k = key@;
                let mut es: Vec<(String, V)> = Vec::new();
                std::mem::swap(&mut es, &mut self.entries);
                es.push((key, value));
                proof {
                    assert(es@.map_values(|e: (String, V)| e.0@) =~= old(self).keys().push(k));
                }
                self.entries = es;
                proof {
                    assert(self.keys() =~= old(self).keys().push(k));
                    assert(self.values() =~= old(self).values().push(value));
                    let n = old(self).spec_len() as int;
                    self.lemma_index_of(n);
                    assert forall|q: Seq<char>| self.keys().contains(q) implies self.lookup(q)
                        == old(self)@.insert(k, value)[q] by {
                        let j = self.keys().index_of(q);
                        assert(self.keys()[j] == q);
                        if q != k {
                            assert(j != n);
                            assert(old(self).keys()[j] == q);
                            old(self).lemma_index_of(j);
                        }
                    }
                    assert forall|q: Seq<char>| old(self).keys().contains(q) implies self.keys().contains(q) by {
                        let j = old(self).keys().index_of(q);
                        assert(self.keys()[j] == q);
                    }
                    assert(self.keys()[n] == k);
                    assert(self@.dom() =~= old(self)@.insert(k, value).dom());
                    assert(self@ =~= old(self)@.insert(k, value));
                }
            },
        }
    }

    /// Removes the entry at position `i` and returns it; the other entries keep
    /// their order.
    pub fn remove_at(&mut self, i: usize) -> (r: (String, V))
        requires
            i < old(self).spec_len(),
        ensures
            r.0@ == old(self).keys()[i as int],
            r.1 == old(self).values()[i as int],
            final(self).keys() == old(self).keys().remove(i as int),
            final(self).values() == old(self).values().remove(i as int),
            final(self)@ == old(self)@.remove(r.0@),
            final(self).distinct(),
    {
        proof {
            use_type_invariant(&*self);
        }
        let mut es: Vec<(String, V)> = Vec::new();
        std::mem::swap(&mut es, &mut self.entries);
        let r = es.remove(i);
        proof {
            assert(es@.map_values(|e: (String, V)| e.0@) =~= old(self).keys().remove(i as int));
        }
        self.entries = es;
        proof {
            assert(self.keys() =~= old(self).keys().remove(i as int));
            assert(self.values() =~= old(self).values().remove(i as int));
            old(self).lemma_index_of(i as int);
            assert forall|q: Seq<char>| self.keys().contains(q) implies self.lookup(q)
                == old(self)@[q] by {
                let j = self.keys().index_of(q);
                assert(self.keys()[j] == q);
                if j < i {
                    assert(old(self).keys()[j] == q);
                    old(self).lemma_index_of(j);
                } else {
                    assert(old(self).keys()[j + 1] == q);
                    old(self).lemma_index_of(j + 1);
                }
            }
            assert forall|q: Seq<char>| old(self)@.remove(r.0@).contains_key(q) implies self.keys().contains(q) by {
                let j = old(self).keys().index_of(q);
                assert(old(self).keys()[j] == q);
                if j < i {
                    assert(self.keys()[j] == q);
                } else {
                    assert(j != i);
                    assert(self.keys()[j - 1] == q);
                }
            }
            assert forall|q: Seq<char>| self.keys().contains(q) implies old(self)@.remove(r.0@).contains_key(q) by {
                let j = self.keys().index_of(q);
                assert(self.keys()[j] == q);
                if j < i {
                    assert(old(self).keys()[j] == q);
                } else {
                    assert(old(self).keys()[j + 1] == q);
                }
            }
            assert(self@.dom() =~= old(self)@.remove(r.0@).dom());
            assert(self@ =~= old(self)@.remove(r.0@));
        }
        r
    }

    /// Puts a new entry at position `i`, moving the later entries back by one.
    pub fn insert_at(&mut self, i: usize, key: String, value: V)
        requires
            i <= old(self).spec_len(),
            !old(self).keys().contains(key@),
        ensures
            final(self).keys() == old(self).keys().insert(i as int, key@),
            final(self).values() == old(self).values().insert(i as int, value),
            final(self).distinct(),
    {
        proof {
            use_type_invariant(&*self);
        }
        let ghost k = key@;
        let mut es: Vec<(String, V)> = Vec::new();
        std::mem::swap(&mut es, &mut self.entries);
        es.insert(i, (key, value));
        proof {
            let ks = es@.map_values(|e: (String, V)| e.0@);
            assert(ks =~= old(self).keys().insert(i as int, k));
            assert forall|a: int, b: int| 0 <= a < ks.len() && 0 <= b < ks.len() && a != b implies ks[a]
                != ks[b] by {
                if a == i {
                    if b < i {
                        assert(ks[b] == old(self).keys()[b]);
                    } else {
                        assert(ks[b] == old(self).keys()[b - 1]);
                    }
                } else if b == i {
                    if a < i {
                        assert(ks[a] == old(self).keys()[a]);
                    } else {
                        assert(ks[a] == old(self).keys()[a - 1]);
                    }
                } else {
                    let a2 = if a < i { a } else { a - 1 };
                    let b2 = if b < i { b } else { b - 1 };
                    assert(ks[a] == old(self).keys()[a2]);
                    assert(ks[b] == old(self).keys()[b2]);
                }
            }
        }
        self.entries = es;
        proof {
            assert(self.keys() =~= old(self).keys().insert(i as int, k));
            assert(self.values() =~= old(self).values().insert(i as int, value));
        }
    }

    /// Removes `key` and returns its value, if present.
    pub fn remove(&mut self, key: &str) -> (r: Option<V>)
        ensures
            final(self)@ == old(self)@.remove(key@),
            final(self).distinct(),
            match r {
                Some(v) => old(self)@.contains_key(key@) && v == old(self)@[key@],
                None => !old(self)@.contains_key(key@),
            },
    {
        match self.position(key) {
            Some(i) => {
                proof {
                    self.lemma_lookup_at(i as int);
                }
                let e = self.remove_at(i);
                Some(e.1)
            },
            None => {
                proof {
                    assert(old(self)@ =~= old(self)@.remove(key@));
                }
                None
            },
        }
    }

    /// With distinct keys, `index_of` finds the one position of a key.
    pub proof fn lemma_index_of(self, i: int)
        requires
            self.distinct(),
            0 <= i < self.spec_len(),
        ensures
            self.keys().index_of(self.keys()[i]) == i,
            self.keys().contains(self.keys()[i]),
    {
        let k = self.keys()[i];
        assert(self.keys().contains(k));
        let j = self.keys().index_of(k);
        assert(self.keys()[j] == k);
    }

    /// The view maps the key at position `i` to the value at position `i`.
    pub proof fn lemma_lookup_at(self, i: int)
        requires
            self.distinct(),
            0 <= i < self.spec_len(),
        ensures
            self@.contains_key(self.keys()[i]),
            self@[self.keys()[i]] == self.values()[i],
    {
        self.lemma_index_of(i);
    }

    /// The value stored under `key` in the ordered view.
    pub open spec fn lookup(self, key: Seq<char>) -> V {
        self.values()[self.keys().index_of(key)]
    }
}

impl<V> View for NameMap<V> {
    type V = Map<Seq<char>, V>;

    open spec fn view(&self) -> Map<Seq<char>, V> {
        Map::new(|k: Seq<char>| self.keys().contains(k), |k: Seq<char>| self.lookup(k))
    }
}

impl NameMap<ModuleNodeId> {
    /// The position of the first entry whose value is `v`, if any.
    pub fn position_of_value(&self, v: ModuleNodeId) -> (r: Option<usize>)
        ensures
            self.distinct(),
            match r {
                Some(i) => i < self.spec_len() && self.values()[i as int] == v,
                None => forall|k: Seq<char>| #[trigger] self@.contains_key(k) ==> self@[k] != v,
            },
    {
        proof {
            use_type_invariant(self);
            assert(self.keys().len() == self.values().len());
        }
        let mut i: usize = 0;
        while i < self.entries.len()
            invariant
                i <= self.entries@.len(),
                self.distinct(),
                forall|j: int| 0 <= j < i ==> self.values()[j] != v,
            decreases self.entries.len() - i,
        {
            if self.entries[i].1 == v {
                return Some(i);
            }
            i = i + 1;
        }
        proof {
            assert forall|k: Seq<char>| #[trigger] self@.contains_key(k) implies self@[k] != v by {
                let j = self.keys().index_of(k);
                assert(self.keys()[j] == k);
            }
        }
        None
    }

    /// Removes every entry whose value is `v`; the other entries keep their order.
    pub fn remove_value(&mut self, v: ModuleNodeId)
        ensures
            final(self)@ == old(self)@.filter_keys(|k: Seq<char>| old(self)@[k] != v),
            final(self).distinct(),
        decreases old(self).spec_len(),
    {
        match self.position_of_value(v) {
            Some(i) => {
                let ghost mid0 = self@;
                proof {
                    self.lemma_lookup_at(i as int);
                }
                let e = self.remove_at(i);
                proof {
                    assert(mid0[e.0@] == v);
                }
                self.remove_value(v);
                proof {
                    assert(self@ =~= old(self)@.filter_keys(|k: Seq<char>| old(self)@[k] != v));
                }
            },
            None => {
                proof {
                    assert(self@ =~= old(self)@.filter_keys(|k: Seq<char>| old(self)@[k] != v));
                }
            },
        }
    }
}

} // verus!
