//! A small insertion-ordered map keyed by text.
//!
//! The model is a pair of equally long sequences, keys and values, in which no
//! key occurs twice. The map view is derived from them.

use vstd::prelude::*;

verus! {

/// A map from text to `V` that remembers the order in which keys came.
#[derive(Clone, Debug)]
pub struct StrMap<V> {
    keys: Vec<String>,
    vals: Vec<V>,
}

impl<V> StrMap<V> {
    /// The keys in insertion order.
    pub closed spec fn keys(&self) -> Seq<Seq<char>> {
        Seq::new(self.keys@.len(), |i: int| self.keys@[i]@)
    }

    /// The values, each at the position of its key.
    pub closed spec fn values(&self) -> Seq<V> {
        self.vals@
    }

    /// Keys and values line up and no key occurs twice.
    pub open spec fn wf(&self) -> bool {
        &&& self.keys().len() == self.values().len()
        &&& self.keys().no_duplicates()
    }

    /// Position of `key`, where it is present.
    pub open spec fn position(&self, key: Seq<char>) -> int {
        self.keys().index_of(key)
    }

    /// Whether `key` is a key of the map.
    pub open spec fn contains(&self, key: Seq<char>) -> bool {
        self.keys().contains(key)
    }

    /// The value stored under `key`, if any.
    pub open spec fn lookup(&self, key: Seq<char>) -> Option<V> {
        if self.contains(key) {
            Some(self.values()[self.position(key)])
        } else {
            None
        }
    }

    /// The map without its order.
    pub open spec fn view(&self) -> Map<Seq<char>, V> {
        Map::new(|k: Seq<char>| self.contains(k), |k: Seq<char>| self.values()[self.position(k)])
    }

    /// An empty map.
    pub fn new() -> (m: Self)
        ensures
            m.wf(),
            m.keys() == Seq::<Seq<char>>::empty(),
            m.values() == Seq::<V>::empty(),
            m@ == Map::<Seq<char>, V>::empty(),
    {
        let m = StrMap { keys: Vec::new(), vals: Vec::new() };
        assert(m.keys() =~= Seq::<Seq<char>>::empty());
        assert(m@ =~= Map::<Seq<char>, V>::empty());
        m
    }

    /// Number of entries.
    pub fn len(&self) -> (n: usize)
        requires
            self.wf(),
        ensures
            n == self.keys().len(),
            n == self@.dom().len(),
    {
        proof {
            self.lemma_dom();
            self.keys().unique_seq_to_set();
        }
        self.keys.len()
    }

    /// The domain of the view is the set of keys.
    pub proof fn lemma_dom(&self)
        ensures
            self@.dom() == self.keys().to_set(),
            self@.dom().finite(),
    {
        assert(self@.dom() =~= self.keys().to_set());
        vstd::seq_lib::seq_to_set_is_finite(self.keys());
    }

    /// In a well-formed map the key at position `i` is found at `i`.
    pub proof fn lemma_position(&self, i: int)
        requires
            self.wf(),
            0 <= i < self.keys().len(),
        ensures
            self.contains(self.keys()[i]),
            self.position(self.keys()[i]) == i,
            self.lookup(self.keys()[i]) == Some(self.values()[i]),
    {
        let k = self.keys()[i];
        assert(self.keys().contains(k));
        self.keys().index_of_first_ensures(k);
        let j = self.keys().index_of(k);
        assert(0 <= j < self.keys().len() && self.keys()[j] == k);
    }

    /// Position of `key` among the keys, if it is present.
    pub fn find(&self, key: &String) -> (r: Option<usize>)
        requires
            self.wf(),
        ensures
            match r {
                Some(i) => i < self.keys().len() && self.keys()[i as int] == key@
                    && self.position(key@) == i && self.contains(key@),
                None => !self.contains(key@),
            },
    {
        let mut i: usize = 0;
        while i < self.keys.len()
            invariant
                self.wf(),
                i <= self.keys@.len(),
                forall|j: int| 0 <= j < i ==> self.keys()[j] != key@,
            decreases self.keys@.len() - i,
        {
            if self.keys[i] == *key {
                proof {
                    self.lemma_position(i as int);
                }
                return Some(i);
            }
            i = i + 1;
        }
        None
    }

    /// Whether `key` is a key of the map.
    pub fn contains_key(&self, key: &String) -> (b: bool)
        requires
            self.wf(),
        ensures
            b == self.contains(key@),
            b == self@.dom().contains(key@),
    {
        self.find(key).is_some()
    }

    /// The value stored under `key`, if any.
    pub fn get(&self, key: &String) -> (r: Option<&V>)
        requires
            self.wf(),
        ensures
            match r {
                Some(v) => self.lookup(key@) == Some(*v),
                None => self.lookup(key@).is_none(),
            },
    {
        match self.find(key) {
            Some(i) => Some(&self.vals[i]),
            None => None,
        }
    }

    /// The key at position `i`.
    pub fn key_at(&self, i: usize) -> (k: &String)
        requires
            self.wf(),
            i < self.keys().len(),
        ensures
            k@ == self.keys()[i as int],
    {
        &self.keys[i]
    }

    /// The value at position `i`.
    pub fn value_at(&self, i: usize) -> (v: &V)
        requires
            self.wf(),
            i < self.keys().len(),
        ensures
            *v == self.values()[i as int],
    {
        &self.vals[i]
    }

    /// Mutable access to the value at position `i`. Keys are untouched.
    pub fn value_at_mut(&mut self, i: usize) -> (v: &mut V)
        requires
            old(self).wf(),
            i < old(self).keys().len(),
        ensures
            *v == old(self).values()[i as int],
            final(self).keys() == old(self).keys(),
            final(self).values() == old(self).values().update(i as int, *final(v)),
    {
        &mut self.vals[i]
    }

    /// Takes the entry at position `i` out and hands it over; later entries
    /// move up by one.
    pub fn take_at(&mut self, i: usize) -> (entry: (String, V))
        requires
            old(self).wf(),
            i < old(self).keys().len(),
        ensures
            final(self).wf(),
            entry.0@ == old(self).keys()[i as int],
            entry.1 == old(self).values()[i as int],
            final(self).keys() == old(self).keys().remove(i as int),
            final(self).values() == old(self).values().remove(i as int),
            final(self)@ == old(self)@.remove(old(self).keys()[i as int]),
            final(self).lookup(old(self).keys()[i as int]).is_none(),
            forall|k: Seq<char>|
                k != old(self).keys()[i as int] ==> final(self).lookup(k) == old(self).lookup(k),
    {
        let ghost before = *self;
        let key = self.keys.remove(i);
        let value = self.vals.remove(i);
        assert(self.keys() =~= before.keys().remove(i as int));
        proof {
            Self::lemma_remove(before, *self, i as int);
        }
        (key, value)
    }

    /// Puts `value` at position `i` and hands over what was there. Keys are
    /// untouched.
    pub fn replace_at(&mut self, i: usize, value: V) -> (previous: V)
        requires
            old(self).wf(),
            i < old(self).keys().len(),
        ensures
            final(self).wf(),
            previous == old(self).values()[i as int],
            final(self).keys() == old(self).keys(),
            final(self).values() == old(self).values().update(i as int, value),
    {
        let ghost before = *self;
        let mut held = value;
        core::mem::swap(&mut self.vals[i], &mut held);
        assert(self.keys() =~= before.keys());
        held
    }

    /// Copies of the keys, in order.
    pub fn key_list(&self) -> (list: Vec<String>)
        requires
            self.wf(),
        ensures
            list@.len() == self.keys().len(),
            forall|i: int| 0 <= i < list@.len() ==> (#[trigger] list@[i])@ == self.keys()[i],
    {
        let mut list: Vec<String> = Vec::new();
        let mut i: usize = 0;
        while i < self.keys.len()
            invariant
                i <= self.keys@.len(),
                list@.len() == i,
                forall|j: int| 0 <= j < i ==> (#[trigger] list@[j])@ == self.keys()[j],
            decreases self.keys@.len() - i,
        {
            list.push(self.keys[i].clone());
            i = i + 1;
        }
        list
    }

    /// Stores `value` under `key`: in place where the key is present, at the
    /// end otherwise.
    pub fn insert(&mut self, key: String, value: V)
        requires
            old(self).wf(),
        ensures
            final(self).wf(),
            old(self).contains(key@) ==> final(self).keys() == old(self).keys()
                && final(self).values() == old(self).values().update(
                old(self).position(key@),
                value,
            ),
            !old(self).contains(key@) ==> final(self).keys() == old(self).keys().push(key@)
                && final(self).values() == old(self).values().push(value),
            final(self)@ == old(self)@.insert(key@, value),
            final(self).lookup(key@) == Some(value),
            forall|k: Seq<char>| k != key@ ==> final(self).lookup(k) == old(self).lookup(k),
    {
        let ghost before = *self;
        match self.find(&key) {
            Some(i) => {
                self.vals.set(i, value);
                assert(self.keys() =~= before.keys());
                proof {
                    Self::lemma_update(before, *self, key@, value);
                }
            },
            None => {
                self.keys.push(key);
                self.vals.push(value);
                assert(self.keys() =~= before.keys().push(key@));
                proof {
                    Self::lemma_push(before, *self, key@, value);
                }
            },
        }
    }

    /// Takes the entry at position `i` out; later entries move up by one.
    pub fn remove_at(&mut self, i: usize)
        requires
            old(self).wf(),
            i < old(self).keys().len(),
        ensures
            final(self).wf(),
            final(self).keys() == old(self).keys().remove(i as int),
            final(self).values() == old(self).values().remove(i as int),
            final(self)@ == old(self)@.remove(old(self).keys()[i as int]),
            final(self).lookup(old(self).keys()[i as int]).is_none(),
            forall|k: Seq<char>|
                k != old(self).keys()[i as int] ==> final(self).lookup(k) == old(self).lookup(k),
    {
        let ghost before = *self;
        self.keys.remove(i);
        self.vals.remove(i);
        assert(self.keys() =~= before.keys().remove(i as int));
        proof {
            Self::lemma_remove(before, *self, i as int);
        }
    }

    /// Takes the entry under `key` out, if there is one. Says whether there
    /// was.
    pub fn remove(&mut self, key: &String) -> (was_present: bool)
        requires
            old(self).wf(),
        ensures
            final(self).wf(),
            was_present == old(self).contains(key@),
            final(self)@ == old(self)@.remove(key@),
            final(self).lookup(key@).is_none(),
            forall|k: Seq<char>| k != key@ ==> final(self).lookup(k) == old(self).lookup(k),
            !was_present ==> final(self).keys() == old(self).keys() && final(self).values() == old(
                self,
            ).values(),
            was_present ==> final(self).keys() == old(self).keys().remove(old(self).position(key@))
                && final(self).values() == old(self).values().remove(old(self).position(key@)),
    {
        match self.find(key) {
            Some(i) => {
                self.remove_at(i);
                true
            },
            None => {
                assert(self@ =~= self@.remove(key@));
                false
            },
        }
    }

    /// Keeps exactly the entries whose key is also a key of `other`.
    pub fn retain_in<W>(&mut self, other: &StrMap<W>)
        requires
            old(self).wf(),
            other.wf(),
        ensures
            final(self).wf(),
            forall|k: Seq<char>|
                final(self).lookup(k) == if other.contains(k) {
                    old(self).lookup(k)
                } else {
                    None
                },
            final(self)@ == old(self)@.restrict(other@.dom()),
    {
        let ghost orig = *self;
        let mut i: usize = 0;
        while i < self.keys.len()
            invariant
                self.wf(),
                orig.wf(),
                other.wf(),
                i <= self.keys().len(),
                self.keys().len() == self.keys@.len(),
                forall|k: Seq<char>| self.contains(k) ==> self.lookup(k) == orig.lookup(k),
                forall|k: Seq<char>|
                    orig.contains(k) && other.contains(k) ==> #[trigger] self.contains(k),
                forall|j: int| 0 <= j < i ==> other.contains(#[trigger] self.keys()[j]),
            decreases self.keys().len() - i,
        {
            let ghost prev = *self;
            let keep = other.contains_key(&self.keys[i]);
            if keep {
                i = i + 1;
            } else {
                self.remove_at(i);
                assert forall|k: Seq<char>| self.contains(k) implies self.lookup(k) == orig.lookup(
                    k,
                ) by {
                    assert(prev.lookup(k) == self.lookup(k));
                    assert(prev.contains(k));
                }
                assert forall|k: Seq<char>|
                    orig.contains(k) && other.contains(k) implies #[trigger] self.contains(k) by {
                    assert(prev.contains(k));
                    assert(k != prev.keys()[i as int]);
                    assert(prev.lookup(k) == self.lookup(k));
                }
            }
        }
        assert forall|k: Seq<char>|
            self.lookup(k) == if other.contains(k) {
                orig.lookup(k)
            } else {
                None
            } by {
            if self.contains(k) {
                let j = choose|j: int| 0 <= j < self.keys().len() && self.keys()[j] == k;
                assert(other.contains(self.keys()[j]));
            } else if other.contains(k) {
                assert(!orig.contains(k));
            }
        }
        assert(self@ =~= orig@.restrict(other@.dom())) by {
            assert forall|k: Seq<char>| self@.dom().contains(k) <==> orig@.restrict(
                other@.dom(),
            ).dom().contains(k) by {
                assert(self.lookup(k) == if other.contains(k) {
                    orig.lookup(k)
                } else {
                    None
                });
            }
            assert forall|k: Seq<char>| self@.dom().contains(k) implies #[trigger] self@[k]
                == orig@.restrict(other@.dom())[k] by {
                assert(self.lookup(k) == if other.contains(k) {
                    orig.lookup(k)
                } else {
                    None
                });
            }
        }
    }

    proof fn lemma_remove(before: Self, after: Self, i: int)
        requires
            before.wf(),
            0 <= i < before.keys().len(),
            after.keys() == before.keys().remove(i),
            after.values() == before.values().remove(i),
        ensures
            after.wf(),
            after@ == before@.remove(before.keys()[i]),
            after.lookup(before.keys()[i]).is_none(),
            forall|k: Seq<char>|
                k != before.keys()[i] ==> after.lookup(k) == before.lookup(k),
    {
        let gone = before.keys()[i];
        assert(after.keys().no_duplicates()) by {
            assert forall|a: int, b: int|
                0 <= a < after.keys().len() && 0 <= b < after.keys().len() && a != b implies #[trigger] after.keys()[a]
                != #[trigger] after.keys()[b] by {
                let a0 = if a < i { a } else { a + 1 };
                let b0 = if b < i { b } else { b + 1 };
                assert(before.keys()[a0] != before.keys()[b0]);
            }
        }
        assert(!after.contains(gone)) by {
            if after.contains(gone) {
                let a = choose|a: int| 0 <= a < after.keys().len() && after.keys()[a] == gone;
                let a0 = if a < i { a } else { a + 1 };
                assert(before.keys()[a0] == before.keys()[i]);
            }
        }
        assert forall|k: Seq<char>| k != gone implies after.lookup(k) == before.lookup(k) by {
            if before.contains(k) {
                before.keys().index_of_first_ensures(k);
                let j = before.keys().index_of(k);
                let j1 = if j < i { j } else { j - 1 };
                assert(after.keys()[j1] == k);
                after.lemma_position(j1);
            } else if after.contains(k) {
                let a = choose|a: int| 0 <= a < after.keys().len() && after.keys()[a] == k;
                let a0 = if a < i { a } else { a + 1 };
                assert(before.keys()[a0] == k);
                assert(before.keys().contains(k));
            }
        }
        assert(after@ =~= before@.remove(gone)) by {
            assert forall|k: Seq<char>| after@.dom().contains(k) <==> before@.remove(
                gone,
            ).dom().contains(k) by {
                if k != gone {
                    assert(after.lookup(k) == before.lookup(k));
                }
            }
            assert forall|k: Seq<char>| after@.dom().contains(k) implies #[trigger] after@[k]
                == before@.remove(gone)[k] by {
                if k != gone {
                    assert(after.lookup(k) == before.lookup(k));
                }
            }
        }
    }

    proof fn lemma_update(before: Self, after: Self, key: Seq<char>, value: V)
        requires
            before.wf(),
            before.contains(key),
            after.keys() == before.keys(),
            after.values() == before.values().update(before.position(key), value),
        ensures
            after.wf(),
            after@ == before@.insert(key, value),
            after.lookup(key) == Some(value),
            forall|k: Seq<char>| k != key ==> after.lookup(k) == before.lookup(k),
    {
        before.keys().index_of_first_ensures(key);
        assert forall|k: Seq<char>| k != key implies after.lookup(k) == before.lookup(k) by {
            if before.contains(k) {
                before.keys().index_of_first_ensures(k);
            }
        }
        assert(after@ =~= before@.insert(key, value)) by {
            assert forall|k: Seq<char>| after@.dom().contains(k) implies #[trigger] after@[k]
                == before@.insert(key, value)[k] by {
                if k != key {
                    assert(after.lookup(k) == before.lookup(k));
                }
            }
        }
    }

    proof fn lemma_push(before: Self, after: Self, key: Seq<char>, value: V)
        requires
            before.wf(),
            !before.contains(key),
            after.keys() == before.keys().push(key),
            after.values() == before.values().push(value),
        ensures
            after.wf(),
            after@ == before@.insert(key, value),
            after.lookup(key) == Some(value),
            forall|k: Seq<char>| k != key ==> after.lookup(k) == before.lookup(k),
    {
        let n = before.keys().len() as int;
        assert(after.keys().no_duplicates()) by {
            assert forall|i: int, j: int|
                0 <= i < after.keys().len() && 0 <= j < after.keys().len() && i != j implies #[trigger] after.keys()[i]
                != #[trigger] after.keys()[j] by {
                if i < n && j < n {
                    assert(before.keys()[i] != before.keys()[j]);
                } else if i < n {
                    assert(before.keys().contains(before.keys()[i]));
                } else {
                    assert(before.keys().contains(before.keys()[j]));
                }
            }
        }
        assert(after.keys()[n] == key);
        assert(after.contains(key));
        after.lemma_position(n);
        assert forall|k: Seq<char>| k != key implies after.lookup(k) == before.lookup(k) by {
            if before.contains(k) {
                before.keys().index_of_first_ensures(k);
                let i = before.keys().index_of(k);
                assert(after.keys()[i] == k);
                after.lemma_position(i);
            } else {
                if after.contains(k) {
                    let i = choose|i: int| 0 <= i < after.keys().len() && after.keys()[i] == k;
                    assert(i < n);
                    assert(before.keys()[i] == k);
                    assert(before.keys().contains(k));
                }
            }
        }
        assert(after@ =~= before@.insert(key, value)) by {
            assert forall|k: Seq<char>| after@.dom().contains(k) <==> before@.insert(
                key,
                value,
            ).dom().contains(k) by {
                if k != key {
                    assert(after.lookup(k) == before.lookup(k));
                }
            }
            assert forall|k: Seq<char>| after@.dom().contains(k) implies #[trigger] after@[k]
                == before@.insert(key, value)[k] by {
                if k != key {
                    assert(after.lookup(k) == before.lookup(k));
                }
            }
        }
    }
}

} // verus!
