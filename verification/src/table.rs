//! A table from text keys to values.
//!
//! The values stand in a vector, and a hash map gives the place of each key, so
//! that a value can be taken out of the table and that the table can be walked.

use vstd::hash_map::StringHashMap;
use vstd::prelude::*;

verus! {

/// A table from text keys to values of type `V`.
#[verifier::reject_recursive_types(V)]
pub struct Table<V> {
    index: StringHashMap<usize>,
    entries: Vec<(String, V)>,
}

impl<V> View for Table<V> {
    type V = Map<Seq<char>, V>;

    closed spec fn view(&self) -> Map<Seq<char>, V> {
        Map::new(
            |k: Seq<char>| self.index@.contains_key(k),
            |k: Seq<char>| self.entries@[self.index@[k] as int].1,
        )
    }
}

impl<V> Table<V> {
    /// The index and the vector agree: each key has one place, and each place
    /// belongs to one key.
    pub closed spec fn wf(&self) -> bool {
        &&& forall|k: Seq<char>| #[trigger]
            self.index@.contains_key(k) ==> {
                &&& self.index@[k] < self.entries@.len()
                &&& self.entries@[self.index@[k] as int].0@ == k
            }
        &&& forall|i: int|
            #![trigger self.entries@[i]]
            0 <= i < self.entries@.len() ==> {
                &&& self.index@.contains_key(self.entries@[i].0@)
                &&& self.index@[self.entries@[i].0@] == i
            }
    }

    /// The keys in the order in which `at` hands them out.
    pub closed spec fn keys(&self) -> Seq<Seq<char>> {
        Seq::new(self.entries@.len(), |i: int| self.entries@[i].0@)
    }

    /// The walk over a table meets every key, and nothing else.
    pub proof fn lemma_keys(&self)
        requires
            self.wf(),
        ensures
            forall|k: Seq<char>| #[trigger] self@.contains_key(k) <==> self.keys().contains(k),
            self.keys().no_duplicates(),
    {
        assert forall|k: Seq<char>| #[trigger]
            self@.contains_key(k) implies self.keys().contains(k) by {
            assert(self.keys()[self.index@[k] as int] == k);
        }
        assert forall|k: Seq<char>| self.keys().contains(k) implies #[trigger] self@.contains_key(
            k,
        ) by {
            let i = choose|i: int| 0 <= i < self.keys().len() && self.keys()[i] == k;
            assert(self.entries@[i].0@ == k);
        }
        assert forall|i: int, j: int|
            0 <= i < self.keys().len() && 0 <= j < self.keys().len() && i
                != j implies self.keys()[i] != self.keys()[j] by {
            assert(self.index@[self.entries@[i].0@] == i);
            assert(self.index@[self.entries@[j].0@] == j);
        }
    }

    /// An empty table.
    pub fn new() -> (r: Self)
        ensures
            r.wf(),
            r@ == Map::<Seq<char>, V>::empty(),
    {
        let r = Table { index: StringHashMap::new(), entries: Vec::new() };
        proof {
            assert(r@ =~= Map::<Seq<char>, V>::empty());
        }
        r
    }

    /// The number of keys.
    pub fn len(&self) -> (n: usize)
        requires
            self.wf(),
        ensures
            n == self.keys().len(),
    {
        self.entries.len()
    }

    /// The key at a place of the walk, with its value.
    pub fn at(&self, i: usize) -> (r: (&String, &V))
        requires
            self.wf(),
            i < self.keys().len(),
        ensures
            r.0@ == self.keys()[i as int],
            self@.contains_key(r.0@),
            *r.1 == self@[r.0@],
    {
        (&self.entries[i].0, &self.entries[i].1)
    }

    /// The value of a key.
    pub fn get(&self, key: &str) -> (r: Option<&V>)
        requires
            self.wf(),
        ensures
            match r {
                Some(v) => self@.contains_key(key@) && *v == self@[key@],
                None => !self@.contains_key(key@),
            },
    {
        match self.index.get(key) {
            Some(i) => Some(&self.entries[*i].1),
            None => None,
        }
    }

    /// Gives a key a value, in place of the one that it has.
    pub fn insert(&mut self, key: String, value: V)
        requires
            old(self).wf(),
        ensures
            final(self).wf(),
            final(self)@ == old(self)@.insert(key@, value),
    {
        let place = match self.index.get(key.as_str()) {
            Some(i) => Some(*i),
            None => None,
        };
        match place {
            Some(i) => {
                self.entries.set(i, (key, value));
            },
            None => {
                let i = self.entries.len();
                self.index.insert(key.clone(), i);
                self.entries.push((key, value));
            },
        }
        proof {
            assert(self@ =~= old(self)@.insert(key@, value));
        }
    }

    /// Takes a key and its value out of the table.
    pub fn take(&mut self, key: &str) -> (r: Option<V>)
        requires
            old(self).wf(),
        ensures
            final(self).wf(),
            final(self)@ == old(self)@.remove(key@),
            match r {
                Some(v) => old(self)@.contains_key(key@) && v == old(self)@[key@],
                None => !old(self)@.contains_key(key@),
            },
    {
        let place = match self.index.get(key) {
            Some(i) => *i,
            None => {
                proof {
                    assert(self@ =~= old(self)@.remove(key@));
                }
                return None;
            },
        };
        self.index.remove(key);
        let taken = self.entries.swap_remove(place);
        if place < self.entries.len() {
            let moved = self.entries[place].0.clone();
            self.index.insert(moved, place);
        }
        proof {
            assert(forall|i: int|
                #![trigger self.entries@[i]]
                0 <= i < self.entries@.len() && i != place ==> self.entries@[i] == old(
                    self,
                ).entries@[i]);
            assert(self@ =~= old(self)@.remove(key@));
        }
        Some(taken.1)
    }

    /// Removes every key.
    pub fn clear(&mut self)
        ensures
            final(self).wf(),
            final(self)@ == Map::<Seq<char>, V>::empty(),
    {
        self.index.clear();
        self.entries.clear();
        proof {
            assert(self@ =~= Map::<Seq<char>, V>::empty());
        }
    }
}

} // verus!
