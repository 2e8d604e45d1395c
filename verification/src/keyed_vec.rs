//! `KeyedVec`: values looked up by a string key, kept in the order in which their
//! keys were first inserted. The host's registries and its widget state are built on it.
use vstd::prelude::*;
use crate::text::str_eq;

verus! {

/// Values indexed by distinct string keys, in insertion order.
pub struct KeyedVec<V> {
    keys: Vec<String>,
    vals: Vec<V>,
}

/// In a sequence without duplicates, the position found for an element is the one where it is.
pub proof fn lemma_index_of_unique(s: Seq<Seq<char>>, i: int)
    requires
        s.no_duplicates(),
        0 <= i < s.len(),
    ensures
        s.index_of(s[i]) == i,
        s.contains(s[i]),
{
    assert(s.contains(s[i]));
    let j = s.index_of(s[i]);
    assert(0 <= j < s.len() && s[j] == s[i]);
}

impl<V> KeyedVec<V> {
    /// The keys, in insertion order.
    pub closed spec fn keys(&self) -> Seq<Seq<char>> {
        self.keys@.map_values(|k: String| k@)
    }

    /// The values, in the order of their keys.
    pub closed spec fn values(&self) -> Seq<V> {
        self.vals@
    }

    /// Keys and values line up and no key occurs twice.
    pub closed spec fn wf(&self) -> bool {
        &&& self.keys@.len() == self.vals@.len()
        &&& self.keys().no_duplicates()
    }

    /// The value stored under `k`, if any.
    pub open spec fn lookup(&self, k: Seq<char>) -> Option<V> {
        if self.keys().contains(k) {
            Some(self.values()[self.keys().index_of(k)])
        } else {
            None
        }
    }

    /// The keys as a map to their values.
    pub open spec fn as_map(&self) -> Map<Seq<char>, V> {
        Map::new(|k: Seq<char>| self.keys().contains(k), |k: Seq<char>| self.values()[self.keys().index_of(k)])
    }

    /// What a well-formed `KeyedVec` guarantees about its keys and values.
    pub proof fn lemma_wf(&self)
        requires
            self.wf(),
        ensures
            self.keys().len() == self.values().len(),
            self.keys().no_duplicates(),
            forall|i: int|
                0 <= i < self.keys().len() ==> #[trigger] self.lookup(self.keys()[i]) == Some(
                    self.values()[i],
                ),
    {
        assert forall|i: int| 0 <= i < self.keys().len() implies #[trigger] self.lookup(
            self.keys()[i],
        ) == Some(self.values()[i]) by {
            lemma_index_of_unique(self.keys(), i);
        }
    }

    /// Maps of two well-formed collections agree when their keys and values do.
    proof fn lemma_map_ext(a: &Self, b: &Self)
        requires
            a.wf(),
            b.wf(),
            a.keys() == b.keys(),
            a.values() == b.values(),
        ensures
            a.as_map() == b.as_map(),
    {
        assert(a.as_map() =~= b.as_map());
    }

    /// The map of a well-formed collection: its domain is the keys, and each key maps
    /// to the value at its position.
    pub proof fn lemma_as_map(&self)
        requires
            self.wf(),
        ensures
            self.as_map().dom() == self.keys().to_set(),
            forall|i: int|
                0 <= i < self.keys().len() ==> #[trigger] self.as_map()[self.keys()[i]]
                    == self.values()[i],
    {
        assert(self.as_map().dom() =~= self.keys().to_set());
        assert forall|i: int| 0 <= i < self.keys().len() implies #[trigger] self.as_map()[self.keys()[i]]
            == self.values()[i] by {
            lemma_index_of_unique(self.keys(), i);
        }
    }

    /// An empty collection.
    pub fn new() -> (r: Self)
        ensures
            r.wf(),
            r.keys() == Seq::<Seq<char>>::empty(),
            r.values() == Seq::<V>::empty(),
    {
        let r = KeyedVec { keys: Vec::new(), vals: Vec::new() };
        proof {
            assert(r.keys() =~= Seq::<Seq<char>>::empty());
        }
        r
    }

    /// The number of keys.
    pub fn len(&self) -> (n: usize)
        requires
            self.wf(),
        ensures
            n == self.keys().len(),
    {
        self.keys.len()
    }

    /// The position of `key`, if it is present.
    pub fn find(&self, key: &str) -> (r: Option<usize>)
        requires
            self.wf(),
        ensures
            match r {
                Some(i) => i < self.keys().len() && self.keys()[i as int] == key@,
                None => !self.keys().contains(key@),
            },
    {
        let n = self.keys.len();
        for i in 0..n
            invariant
                n == self.keys@.len(),
                forall|j: int| 0 <= j < i ==> self.keys()[j] != key@,
        {
            if str_eq(self.keys[i].as_str(), key) {
                return Some(i);
            }
        }
        None
    }

    /// Whether `key` is present.
    pub fn contains(&self, key: &str) -> (r: bool)
        requires
            self.wf(),
        ensures
            r == self.keys().contains(key@),
    {
        self.find(key).is_some()
    }

    /// The value stored under `key`, if any.
    pub fn get(&self, key: &str) -> (r: Option<&V>)
        requires
            self.wf(),
        ensures
            match r {
                Some(v) => self.lookup(key@) == Some(*v),
                None => self.lookup(key@) is None,
            },
    {
        match self.find(key) {
            Some(i) => {
                proof {
                    lemma_index_of_unique(self.keys(), i as int);
                }
                Some(&self.vals[i])
            },
            None => None,
        }
    }

    /// The key at position `i`.
    pub fn key_at(&self, i: usize) -> (k: &String)
        requires
            self.wf(),
            i < self.keys().len(),
        ensures
            k@ == self.keys()[i as int],
    {
        &self.keys[i]
    }

    /// The value at position `i`.
    pub fn value_at(&self, i: usize) -> (v: &V)
        requires
            self.wf(),
            i < self.keys().len(),
        ensures
            *v == self.values()[i as int],
    {
        &self.vals[i]
    }

    /// The value at position `i`, to be changed in place; keys and the other values stay.
    pub fn value_at_mut(&mut self, i: usize) -> (v: &mut V)
        requires
            old(self).wf(),
            i < old(self).keys().len(),
        ensures
            *v == old(self).values()[i as int],
            final(self).keys() == old(self).keys(),
            final(self).values() == old(self).values().update(i as int, *final(v)),
            final(self).wf(),
    {
        &mut self.vals[i]
    }

    /// Stores `value` under `key`: in place of the old value when the key is present,
    /// at the end otherwise.
    pub fn insert(&mut self, key: String, value: V)
        requires
            old(self).wf(),
        ensures
            final(self).wf(),
            final(self).as_map() == old(self).as_map().insert(key@, value),
            old(self).keys().contains(key@) ==> {
                &&& final(self).keys() == old(self).keys()
                &&& final(self).values() == old(self).values().update(
                    old(self).keys().index_of(key@),
                    value,
                )
            },
            !old(self).keys().contains(key@) ==> {
                &&& final(self).keys() == old(self).keys().push(key@)
                &&& final(self).values() == old(self).values().push(value)
            },
    {
        match self.find(key.as_str()) {
            Some(i) => {
                proof {
                    lemma_index_of_unique(self.keys(), i as int);
                }
                self.vals.remove(i);
                self.vals.insert(i, value);
                proof {
                    assert(self.values() =~= old(self).values().update(i as int, value));
                    assert forall|k: Seq<char>| #[trigger] self.as_map().dom().contains(k) implies
                        self.as_map()[k] == old(self).as_map().insert(key@, value)[k] by {
                        let j = self.keys().index_of(k);
                        lemma_index_of_unique(self.keys(), j);
                    }
                    assert(self.as_map() =~= old(self).as_map().insert(key@, value));
                }
            },
            None => {
                let ghost kv = key@;
                self.keys.push(key);
                self.vals.push(value);
                proof {
                    assert(self.keys() =~= old(self).keys().push(kv));
                    assert(self.keys()[self.keys().len() - 1] == kv);
                    assert forall|k: Seq<char>|
                        #![trigger self.as_map().dom().contains(k)]
                        self.as_map().dom().contains(k) <==> old(self).as_map().insert(kv, value).dom().contains(k) by {
                        if old(self).keys().contains(k) {
                            let j = old(self).keys().index_of(k);
                            assert(self.keys()[j] == k);
                        }
                    }
                    assert forall|k: Seq<char>| #[trigger] self.as_map().dom().contains(k) implies
                        self.as_map()[k] == old(self).as_map().insert(kv, value)[k] by {
                        let j = self.keys().index_of(k);
                        lemma_index_of_unique(self.keys(), j);
                        if k != kv {
                            let oj = old(self).keys().index_of(k);
                            lemma_index_of_unique(old(self).keys(), oj);
                            assert(self.keys()[oj] == k);
                            lemma_index_of_unique(self.keys(), oj);
                        }
                    }
                    assert(self.as_map() =~= old(self).as_map().insert(kv, value));
                }
            },
        }
    }

    /// Takes out the key and value at position `i`; later entries move up by one.
    pub fn remove_at(&mut self, i: usize) -> (r: (String, V))
        requires
            old(self).wf(),
            i < old(self).keys().len(),
        ensures
            final(self).wf(),
            r.0@ == old(self).keys()[i as int],
            r.1 == old(self).values()[i as int],
            final(self).keys() == old(self).keys().remove(i as int),
            final(self).values() == old(self).values().remove(i as int),
    {
        let k = self.keys.remove(i);
        let v = self.vals.remove(i);
        proof {
            assert(self.keys() =~= old(self).keys().remove(i as int));
        }
        (k, v)
    }

    /// Puts a key that is not present, with its value, at position `i`.
    pub fn insert_at(&mut self, i: usize, key: String, value: V)
        requires
            old(self).wf(),
            i <= old(self).keys().len(),
            !old(self).keys().contains(key@),
        ensures
            final(self).wf(),
            final(self).keys() == old(self).keys().insert(i as int, key@),
            final(self).values() == old(self).values().insert(i as int, value),
    {
        let ghost kv = key@;
        self.keys.insert(i, key);
        self.vals.insert(i, value);
        proof {
            assert(self.keys() =~= old(self).keys().insert(i as int, kv));
            assert forall|a: int, b: int|
                0 <= a < self.keys().len() && 0 <= b < self.keys().len() && a != b implies self.keys()[a]
                != self.keys()[b] by {
                if a == i {
                    assert(old(self).keys()[if b < i {
                        b
                    } else {
                        b - 1
                    }] == self.keys()[b]);
                } else if b == i {
                    assert(old(self).keys()[if a < i {
                        a
                    } else {
                        a - 1
                    }] == self.keys()[a]);
                }
            }
        }
    }

    /// Removes `key` and returns its value, if it was present.
    pub fn remove(&mut self, key: &str) -> (r: Option<V>)
        requires
            old(self).wf(),
        ensures
            final(self).wf(),
            final(self).as_map() == old(self).as_map().remove(key@),
            match r {
                Some(v) => {
                    &&& old(self).lookup(key@) == Some(v)
                    &&& final(self).keys() == old(self).keys().remove(old(self).keys().index_of(key@))
                    &&& final(self).values() == old(self).values().remove(
                        old(self).keys().index_of(key@),
                    )
                },
                None => {
                    &&& !old(self).keys().contains(key@)
                    &&& final(self).keys() == old(self).keys()
                    &&& final(self).values() == old(self).values()
                },
            },
    {
        match self.find(key) {
            Some(i) => {
                proof {
                    lemma_index_of_unique(self.keys(), i as int);
                }
                let (_, v) = self.remove_at(i);
                proof {
                    old(self).keys().remove_ensures(i as int);
                    old(self).values().remove_ensures(i as int);
                    assert forall|k: Seq<char>|
                        #![trigger self.as_map().dom().contains(k)]
                        self.as_map().dom().contains(k) <==> old(self).as_map().remove(key@).dom().contains(k) by {
                        if old(self).keys().contains(k) && k != key@ {
                            let j = old(self).keys().index_of(k);
                            if j < i {
                                assert(self.keys()[j] == k);
                            } else {
                                assert(self.keys()[j - 1] == k);
                            }
                        }
                        if self.keys().contains(k) {
                            let j = self.keys().index_of(k);
                            if j < i {
                                assert(old(self).keys()[j] == k);
                            } else {
                                assert(old(self).keys()[j + 1] == k);
                            }
                        }
                    }
                    assert forall|k: Seq<char>| #[trigger] self.as_map().dom().contains(k) implies
                        self.as_map()[k] == old(self).as_map().remove(key@)[k] by {
                        let j = self.keys().index_of(k);
                        lemma_index_of_unique(self.keys(), j);
                        let oj = if j < i { j } else { j + 1 };
                        assert(old(self).keys()[oj] == k);
                        lemma_index_of_unique(old(self).keys(), oj);
                    }
                    assert(self.as_map() =~= old(self).as_map().remove(key@));
                }
                Some(v)
            },
            None => {
                proof {
                    assert(self.as_map() =~= old(self).as_map().remove(key@));
                }
                None
            },
        }
    }
}

} // verus!
