//! The keyed table of a shard: every key with its value and, where one is
//! set, its expiry instant.
//!
//! The entries lie in a vector, so that they can be walked for a snapshot; a
//! hash map from key to position finds them.
use vstd::prelude::*;
use vstd::hash_map::StringHashMap;

verus! {

/// One key with what is stored under it.
pub struct Slot {
    pub key: String,
    pub value: String,
    pub expiry: Option<u64>,
}

/// Keys with their values and expiry instants.
pub struct KeyTable {
    slots: Vec<Slot>,
    lookup: StringHashMap<usize>,
}

impl KeyTable {
    /// The position map and the slots agree.
    pub closed spec fn wf(&self) -> bool {
        &&& forall|i: int|
            0 <= i < self.slots@.len() ==> self.lookup@.contains_key(
                (#[trigger] self.slots@[i]).key@,
            ) && self.lookup@[self.slots@[i].key@] == i
        &&& forall|k: Seq<char>| #[trigger]
            self.lookup@.contains_key(k) ==> self.lookup@[k] < self.slots@.len()
                && self.slots@[self.lookup@[k] as int].key@ == k
    }

    /// The value stored under each key.
    pub closed spec fn data(&self) -> Map<Seq<char>, Seq<char>> {
        Map::new(
            |k: Seq<char>| self.lookup@.contains_key(k),
            |k: Seq<char>| self.slots@[self.lookup@[k] as int].value@,
        )
    }

    /// The expiry instant of each key that has one.
    pub closed spec fn ttl(&self) -> Map<Seq<char>, u64> {
        Map::new(
            |k: Seq<char>|
                self.lookup@.contains_key(k) && self.slots@[self.lookup@[k] as int].expiry is Some,
            |k: Seq<char>| self.slots@[self.lookup@[k] as int].expiry->0,
        )
    }

    /// The entries in the order in which a snapshot walks them.
    pub closed spec fn listing(&self) -> Seq<Slot> {
        self.slots@
    }

    /// Only keys that hold a value have an expiry.
    pub proof fn lemma_ttl_within_data(&self)
        ensures
            self.ttl().dom().subset_of(self.data().dom()),
    {
    }

    /// The listing names every key once, with what is stored under it.
    pub proof fn lemma_listing(&self)
        requires
            self.wf(),
        ensures
            forall|i: int, j: int|
                0 <= i < j < self.listing().len() ==> (#[trigger] self.listing()[i]).key@ != (
                #[trigger] self.listing()[j]).key@,
            forall|i: int|
                0 <= i < self.listing().len() ==> {
                    let s = #[trigger] self.listing()[i];
                    &&& self.data().contains_key(s.key@)
                    &&& self.data()[s.key@] == s.value@
                    &&& self.ttl().contains_key(s.key@) == (s.expiry is Some)
                    &&& s.expiry matches Some(at) ==> self.ttl()[s.key@] == at
                },
            forall|k: Seq<char>|
                self.data().contains_key(k) ==> exists|i: int|
                    0 <= i < self.listing().len() && (#[trigger] self.listing()[i]).key@ == k,
    {
        assert forall|k: Seq<char>| self.data().contains_key(k) implies exists|i: int|
            0 <= i < self.listing().len() && (#[trigger] self.listing()[i]).key@ == k by {
            assert(self.lookup@.contains_key(k));
            let i = self.lookup@[k] as int;
            assert(self.listing()[i].key@ == k);
        }
    }

    /// The keys of the listing, in its order.
    pub open spec fn listed_keys(&self) -> Seq<Seq<char>> {
        self.listing().map_values(|s: Slot| s.key@)
    }

    /// The table holds as many keys as the listing has entries.
    pub proof fn lemma_key_count(&self)
        requires
            self.wf(),
        ensures
            self.data().dom().finite(),
            self.data().dom().len() == self.listing().len(),
    {
        let keys = self.listed_keys();
        self.lemma_listing();
        assert(keys.no_duplicates()) by {
            assert forall|i: int, j: int| 0 <= i < keys.len() && 0 <= j < keys.len() && i != j implies keys[i]
                != keys[j] by {
                if i < j {
                    assert(self.listing()[i].key@ != self.listing()[j].key@);
                } else {
                    assert(self.listing()[j].key@ != self.listing()[i].key@);
                }
            }
        }
        assert(keys.to_set() =~= self.data().dom()) by {
            assert forall|k: Seq<char>| keys.to_set().contains(k) == self.data().dom().contains(
                k,
            ) by {
                if keys.to_set().contains(k) {
                    let i = choose|i: int| 0 <= i < keys.len() && keys[i] == k;
                    assert(self.listing()[i].key@ == k);
                }
                if self.data().dom().contains(k) {
                    let i = choose|i: int|
                        0 <= i < self.listing().len() && (#[trigger] self.listing()[i]).key@ == k;
                    assert(keys[i] == k);
                }
            }
        }
        keys.unique_seq_to_set();
        vstd::seq_lib::seq_to_set_is_finite(keys);
    }

    /// A table with no key in it.
    pub fn new() -> (r: Self)
        ensures
            r.wf(),
            r.data() == Map::<Seq<char>, Seq<char>>::empty(),
            r.ttl() == Map::<Seq<char>, u64>::empty(),
            r.listing().len() == 0,
    {
        let r = KeyTable { slots: Vec::new(), lookup: StringHashMap::new() };
        assert(r.data() =~= Map::<Seq<char>, Seq<char>>::empty());
        assert(r.ttl() =~= Map::<Seq<char>, u64>::empty());
        r
    }

    /// How many keys are held.
    pub fn len(&self) -> (n: usize)
        requires
            self.wf(),
        ensures
            n == self.listing().len(),
            n == self.data().dom().len(),
    {
        proof {
            self.lemma_key_count();
        }
        self.slots.len()
    }

    /// The entry at position `i` of the listing.
    pub fn slot(&self, i: usize) -> (s: &Slot)
        requires
            i < self.listing().len(),
        ensures
            *s == self.listing()[i as int],
    {
        &self.slots[i]
    }

    /// Whether `key` holds a value.
    pub fn contains(&self, key: &str) -> (r: bool)
        ensures
            r == self.data().contains_key(key@),
    {
        self.lookup.contains_key(key)
    }

    /// The value under `key`, if it holds one.
    pub fn get(&self, key: &str) -> (r: Option<&String>)
        requires
            self.wf(),
        ensures
            r is Some == self.data().contains_key(key@),
            r matches Some(v) ==> v@ == self.data()[key@],
    {
        match self.lookup.get(key) {
            None => None,
            Some(i) => Some(&self.slots[*i].value),
        }
    }

    /// The expiry instant of `key`, if it has one.
    pub fn expiry(&self, key: &str) -> (r: Option<u64>)
        requires
            self.wf(),
        ensures
            r is Some == self.ttl().contains_key(key@),
            r matches Some(at) ==> at == self.ttl()[key@],
    {
        match self.lookup.get(key) {
            None => None,
            Some(i) => self.slots[*i].expiry,
        }
    }

    /// Stores `value` under `key`, with the expiry `expiry` or with none.
    pub fn put(&mut self, key: String, value: String, expiry: Option<u64>)
        requires
            old(self).wf(),
        ensures
            final(self).wf(),
            final(self).data() == old(self).data().insert(key@, value@),
            final(self).ttl() == match expiry {
                Some(at) => old(self).ttl().insert(key@, at),
                None => old(self).ttl().remove(key@),
            },
    {
        let found: Option<usize> = match self.lookup.get(key.as_str()) {
            None => None,
            Some(i) => Some(*i),
        };
        let ghost k = key@;
        match found {
            Some(i) => {
                self.slots[i] = Slot { key, value, expiry };
            },
            None => {
                let n: usize = self.slots.len();
                let index_key = key.clone();
                self.slots.push(Slot { key, value, expiry });
                self.lookup.insert(index_key, n);
            },
        }
        proof {
            assert(final(self).data() =~= old(self).data().insert(k, value@));
            match expiry {
                Some(at) => {
                    assert(final(self).ttl() =~= old(self).ttl().insert(k, at));
                },
                None => {
                    assert(final(self).ttl() =~= old(self).ttl().remove(k));
                },
            }
        }
    }

    /// Gives `key` the expiry `at` if it holds a value; says whether it did.
    pub fn set_expiry(&mut self, key: &str, at: u64) -> (r: bool)
        requires
            old(self).wf(),
        ensures
            final(self).wf(),
            r == old(self).data().contains_key(key@),
            final(self).data() == old(self).data(),
            final(self).ttl() == if r {
                old(self).ttl().insert(key@, at)
            } else {
                old(self).ttl()
            },
    {
        let found: Option<usize> = match self.lookup.get(key) {
            None => None,
            Some(i) => Some(*i),
        };
        match found {
            None => false,
            Some(i) => {
                self.slots[i].expiry = Some(at);
                proof {
                    assert(final(self).data() =~= old(self).data());
                    assert(final(self).ttl() =~= old(self).ttl().insert(key@, at));
                }
                true
            },
        }
    }

    /// Takes `key` out with its value and expiry; says whether it held a
    /// value.
    pub fn remove(&mut self, key: &str) -> (r: bool)
        requires
            old(self).wf(),
        ensures
            final(self).wf(),
            r == old(self).data().contains_key(key@),
            final(self).data() == old(self).data().remove(key@),
            final(self).ttl() == old(self).ttl().remove(key@),
    {
        let found: Option<usize> = match self.lookup.get(key) {
            None => None,
            Some(i) => Some(*i),
        };
        match found {
            None => {
                proof {
                    assert(final(self).data() =~= old(self).data().remove(key@));
                    assert(final(self).ttl() =~= old(self).ttl().remove(key@));
                }
                false
            },
            Some(i) => {
                let last: usize = self.slots.len() - 1;
                if i != last {
                    let moved = self.slots[last].key.clone();
                    self.lookup.insert(moved, i);
                }
                self.lookup.remove(key);
                self.slots.swap_remove(i);
                proof {
                    assert(final(self).data() =~= old(self).data().remove(key@));
                    assert(final(self).ttl() =~= old(self).ttl().remove(key@));
                }
                true
            },
        }
    }
}

} // verus!
