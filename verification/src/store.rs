//! What a run remembers: sets of names, and texts by name.
use vstd::prelude::*;

use crate::text::{str_eq, texts};

verus! {

/// A set of names.
#[derive(Debug)]
pub struct PathSet {
    names: Vec<String>,
}

impl View for PathSet {
    type V = Set<Seq<char>>;

    closed spec fn view(&self) -> Set<Seq<char>> {
        texts(self.names@).to_set()
    }
}

impl PathSet {
    /// No name comes twice.
    pub closed spec fn well_formed(&self) -> bool {
        texts(self.names@).no_duplicates()
    }

    /// The empty set.
    pub fn new() -> (r: PathSet)
        ensures
            r.well_formed(),
            r@ == Set::<Seq<char>>::empty(),
    {
        let r = PathSet { names: Vec::new() };
        assert(r@ =~= Set::<Seq<char>>::empty());
        r
    }

    /// Whether a name is in the set.
    pub fn contains(&self, name: &str) -> (r: bool)
        requires
            self.well_formed(),
        ensures
            r == self@.contains(name@),
    {
        let ghost all = texts(self.names@);
        let mut i: usize = 0;
        while i < self.names.len()
            invariant
                all == texts(self.names@),
                i <= self.names@.len(),
                forall|j: int| 0 <= j < i ==> all[j] != name@,
            decreases self.names@.len() - i,
        {
            assert(all[i as int] == self.names@[i as int]@);
            if str_eq(self.names[i].as_str(), name) {
                assert(all.contains(name@));
                return true;
            }
            i = i + 1;
        }
        assert(!all.contains(name@));
        false
    }

    /// Puts a name into the set; whether it was not there.
    pub fn insert(&mut self, name: &str) -> (r: bool)
        requires
            old(self).well_formed(),
        ensures
            final(self).well_formed(),
            final(self)@ == old(self)@.insert(name@),
            r == !old(self)@.contains(name@),
    {
        if self.contains(name) {
            assert(self@ =~= self@.insert(name@));
            return false;
        }
        let ghost before = texts(self.names@);
        self.names.push(name.to_owned());
        proof {
            let after = texts(self.names@);
            assert(after =~= before.push(name@));
            assert(!before.contains(name@));
            assert forall|x: Seq<char>| after.contains(x) == (before.contains(x) || x == name@) by {
                if before.contains(x) {
                    let i = before.index_of(x);
                    assert(after[i] == x);
                }
                if x == name@ {
                    assert(after[before.len() as int] == x);
                }
            }
            assert(after.to_set() =~= before.to_set().insert(name@));
            assert(after.no_duplicates()) by {
                assert forall|i: int, j: int|
                    0 <= i < after.len() && 0 <= j < after.len() && i != j implies after[i]
                    != after[j] by {
                    if i < before.len() {
                        assert(before.contains(before[i]));
                    }
                    if j < before.len() {
                        assert(before.contains(before[j]));
                    }
                }
            }
        }
        true
    }
}

/// The place of a key.
spec fn key_at(keys: Seq<Seq<char>>, key: Seq<char>) -> int {
    choose|i: int| 0 <= i < keys.len() && #[trigger] keys[i] == key
}

/// Texts by name.
#[derive(Debug)]
pub struct Cache {
    keys: Vec<String>,
    values: Vec<String>,
}

impl View for Cache {
    type V = Map<Seq<char>, Seq<char>>;

    closed spec fn view(&self) -> Map<Seq<char>, Seq<char>> {
        let keys = texts(self.keys@);
        let values = texts(self.values@);
        Map::new(|k: Seq<char>| keys.contains(k), |k: Seq<char>| values[key_at(keys, k)])
    }
}

impl Cache {
    /// Every key has a value, and no key comes twice.
    pub closed spec fn well_formed(&self) -> bool {
        self.keys@.len() == self.values@.len() && texts(self.keys@).no_duplicates()
    }

    /// No texts.
    pub fn new() -> (r: Cache)
        ensures
            r.well_formed(),
            r@ == Map::<Seq<char>, Seq<char>>::empty(),
    {
        let r = Cache { keys: Vec::new(), values: Vec::new() };
        assert(r@ =~= Map::<Seq<char>, Seq<char>>::empty());
        r
    }

    /// The place of a key.
    fn find(&self, key: &str) -> (r: Option<usize>)
        requires
            self.well_formed(),
        ensures
            match r {
                Some(i) => {
                    &&& i < self.keys@.len()
                    &&& self.keys@[i as int]@ == key@
                    &&& key_at(texts(self.keys@), key@) == i
                    &&& self@.contains_key(key@)
                },
                None => !self@.contains_key(key@) && !texts(self.keys@).contains(key@),
            },
    {
        let ghost all = texts(self.keys@);
        let mut i: usize = 0;
        while i < self.keys.len()
            invariant
                self.well_formed(),
                all == texts(self.keys@),
                i <= self.keys@.len(),
                forall|j: int| 0 <= j < i ==> all[j] != key@,
            decreases self.keys@.len() - i,
        {
            assert(all[i as int] == self.keys@[i as int]@);
            if str_eq(self.keys[i].as_str(), key) {
                assert(all.contains(key@));
                return Some(i);
            }
            i = i + 1;
        }
        assert(!all.contains(key@));
        None
    }

    /// The text with this name.
    pub fn get(&self, key: &str) -> (r: Option<&String>)
        requires
            self.well_formed(),
        ensures
            match r {
                Some(text) => self@.contains_key(key@) && self@[key@] == text@,
                None => !self@.contains_key(key@),
            },
    {
        match self.find(key) {
            Some(i) => {
                assert(texts(self.values@)[i as int] == self.values@[i as int]@);
                Some(&self.values[i])
            },
            None => None,
        }
    }

    /// Gives a text this name.
    pub fn insert(&mut self, key: &str, value: &str)
        requires
            old(self).well_formed(),
        ensures
            final(self).well_formed(),
            final(self)@ == old(self)@.insert(key@, value@),
    {
        let ghost keys0 = texts(self.keys@);
        let ghost values0 = texts(self.values@);
        let ghost map0 = self@;
        match self.find(key) {
            Some(i) => {
                self.values.set(i, value.to_owned());
                proof {
                    let values1 = texts(self.values@);
                    assert(values1 =~= values0.update(i as int, value@));
                    assert forall|k: Seq<char>| keys0.contains(k) && k != key@ implies key_at(
                        keys0,
                        k,
                    ) != i by {
                        let j = key_at(keys0, k);
                        let w = keys0.index_of(k);
                        assert(keys0[w] == k);
                    }
                    assert(self@ =~= map0.insert(key@, value@));
                }
            },
            None => {
                self.keys.push(key.to_owned());
                self.values.push(value.to_owned());
                proof {
                    let n = keys0.len() as int;
                    let keys1 = texts(self.keys@);
                    let values1 = texts(self.values@);
                    assert(keys1 =~= keys0.push(key@));
                    assert(values1 =~= values0.push(value@));
                    assert(keys1[n] == key@);
                    assert forall|i: int, j: int|
                        0 <= i < keys1.len() && 0 <= j < keys1.len() && i != j implies keys1[i]
                        != keys1[j] by {
                        if i < n {
                            assert(keys0.contains(keys0[i]));
                        }
                        if j < n {
                            assert(keys0.contains(keys0[j]));
                        }
                    }
                    assert forall|k: Seq<char>| keys1.contains(k) == (keys0.contains(k) || k
                        == key@) by {
                        if keys0.contains(k) {
                            let i = keys0.index_of(k);
                            assert(keys1[i] == k);
                        }
                    }
                    assert forall|k: Seq<char>| keys0.contains(k) implies key_at(keys1, k)
                        == key_at(keys0, k) by {
                        let w = keys0.index_of(k);
                        assert(keys0[w] == k);
                        let i = key_at(keys0, k);
                        assert(keys0[i] == k);
                        assert(keys1[i] == k);
                        let j = key_at(keys1, k);
                        assert(keys1[j] == k);
                    }
                    assert(key_at(keys1, key@) == n) by {
                        let j = key_at(keys1, key@);
                        assert(keys1[j] == key@);
                    }
                    assert(self@ =~= map0.insert(key@, value@));
                }
            },
        }
    }

    /// Gives a text this name if no text has it.
    pub fn insert_if_absent(&mut self, key: &str, value: &str)
        requires
            old(self).well_formed(),
        ensures
            final(self).well_formed(),
            final(self)@ == if old(self)@.contains_key(key@) {
                old(self)@
            } else {
                old(self)@.insert(key@, value@)
            },
    {
        if self.get(key).is_none() {
            self.insert(key, value);
        }
    }
}

} // verus!
