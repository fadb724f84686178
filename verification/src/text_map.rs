//! A hash map from texts to values whose keys can be walked.
use crate::text::same_text;
use vstd::hash_map::StringHashMap;
use vstd::prelude::*;

verus! {

#[verifier::reject_recursive_types(V)]
pub struct TextMap<V> {
    values: StringHashMap<V>,
    /// The keys that have a value, in the order in which they were first put in.
    keys: Vec<String>,
}

impl<V> View for TextMap<V> {
    type V = Map<Seq<char>, V>;

    closed spec fn view(&self) -> Map<Seq<char>, V> {
        self.values@
    }
}

/// Whether a key is among the keys.
spec fn is_named(keys: Seq<String>, key: Seq<char>) -> bool {
    exists|k: int| 0 <= k < keys.len() && (#[trigger] keys[k])@ == key
}

impl<V> TextMap<V> {
    #[verifier::type_invariant]
    closed spec fn every_key_is_named(self) -> bool {
        forall|key: Seq<char>| #[trigger]
            self.values@.contains_key(key) ==> is_named(self.keys@, key)
    }

    pub fn new() -> (map: TextMap<V>)
        ensures
            map@ == Map::<Seq<char>, V>::empty(),
    {
        TextMap { values: StringHashMap::new(), keys: Vec::new() }
    }

    pub fn is_empty(&self) -> (result: bool)
        ensures
            result == (forall|key: Seq<char>| !#[trigger] self@.contains_key(key)),
    {
        let result = self.values.is_empty();
        proof {
            if forall|key: Seq<char>| !#[trigger] self@.contains_key(key) {
                assert forall|key: Seq<char>| !#[trigger] self.values@.dom().contains(key) by {
                    assert(!self@.contains_key(key));
                }
                assert(self.values@.dom() =~= Set::empty());
                assert(self.values@ =~= Map::empty());
            }
        }
        result
    }

    pub fn get(&self, key: &str) -> (value: Option<&V>)
        ensures
            match value {
                Some(value) => self@.contains_key(key@) && self@[key@] == *value,
                None => !self@.contains_key(key@),
            },
    {
        self.values.get(key)
    }

    /// Puts a value in, in place of the one that the key had.
    pub fn insert(&mut self, key: String, value: V)
        ensures
            final(self)@ == old(self)@.insert(key@, value),
    {
        proof {
            use_type_invariant(&*self);
        }
        let ghost before = self.keys@;
        let mut values: StringHashMap<V> = StringHashMap::new();
        std::mem::swap(&mut values, &mut self.values);
        let mut keys: Vec<String> = Vec::new();
        std::mem::swap(&mut keys, &mut self.keys);
        let ghost known = values@;
        if !values.contains_key(key.as_str()) {
            keys.push(key.clone());
        }
        values.insert(key, value);
        proof {
            assert forall|other: Seq<char>| #[trigger]
                values@.contains_key(other) implies is_named(keys@, other) by {
                if known.contains_key(other) {
                    assert(is_named(before, other));
                    let k = choose|k: int|
                        0 <= k < before.len() && (#[trigger] before[k])@ == other;
                    assert(keys@[k] == before[k]);
                } else {
                    assert(keys@[keys@.len() - 1]@ == other);
                }
            }
        }
        self.keys = keys;
        self.values = values;
    }

    /// The keys, each at least once.
    pub fn keys(&self) -> (keys: Vec<&String>)
        ensures
            forall|k: int| 0 <= k < keys@.len() ==> self@.contains_key((#[trigger] keys@[k])@),
            forall|key: Seq<char>| #[trigger]
                self@.contains_key(key) ==> exists|k: int|
                    0 <= k < keys@.len() && (#[trigger] keys@[k])@ == key,
    {
        proof {
            use_type_invariant(&*self);
        }
        let mut keys: Vec<&String> = Vec::new();
        let mut i: usize = 0;
        while i < self.keys.len()
            invariant
                i <= self.keys@.len(),
                forall|k: int| 0 <= k < keys@.len() ==> self@.contains_key((#[trigger] keys@[k])@),
                forall|k: int|
                    0 <= k < i && self@.contains_key((#[trigger] self.keys@[k])@) ==> exists|l: int|
                        0 <= l < keys@.len() && (#[trigger] keys@[l])@ == self.keys@[k]@,
            decreases self.keys@.len() - i,
        {
            let ghost before = keys@;
            if self.values.contains_key(self.keys[i].as_str()) {
                keys.push(&self.keys[i]);
            }
            proof {
                assert forall|k: int| 0 <= k < i + 1 && self@.contains_key(
                    (#[trigger] self.keys@[k])@,
                ) implies exists|l: int|
                    0 <= l < keys@.len() && (#[trigger] keys@[l])@ == self.keys@[k]@ by {
                    if k < i {
                        let l = choose|l: int|
                            0 <= l < before.len() && (#[trigger] before[l])@ == self.keys@[k]@;
                        assert(keys@[l] == before[l]);
                    } else {
                        assert(keys@[keys@.len() - 1]@ == self.keys@[k]@);
                    }
                }
            }
            i = i + 1;
        }
        proof {
            assert forall|key: Seq<char>| #[trigger] self@.contains_key(key) implies exists|k: int|
                0 <= k < keys@.len() && (#[trigger] keys@[k])@ == key by {
                assert(is_named(self.keys@, key));
                let k = choose|k: int| 0 <= k < self.keys@.len() && (#[trigger] self.keys@[k])@ == key;
                assert(self@.contains_key(self.keys@[k]@));
            }
        }
        keys
    }

    /// Takes the value of a key out.
    pub fn remove(&mut self, key: &str)
        ensures
            final(self)@ == old(self)@.remove(key@),
    {
        proof {
            use_type_invariant(&*self);
        }
        let mut values: StringHashMap<V> = StringHashMap::new();
        std::mem::swap(&mut values, &mut self.values);
        values.remove(key);
        let ghost all = self.keys@;
        let mut kept: Vec<String> = Vec::new();
        let mut i: usize = 0;
        while i < self.keys.len()
            invariant
                i <= self.keys@.len(),
                self.keys@ == all,
                forall|k: int|
                    0 <= k < i && (#[trigger] all[k])@ != key@ ==> is_named(kept@, all[k]@),
            decreases self.keys@.len() - i,
        {
            let ghost before = kept@;
            if !same_text(self.keys[i].as_str(), key) {
                kept.push(self.keys[i].clone());
            }
            proof {
                assert forall|k: int| 0 <= k < i + 1 && (#[trigger] all[k])@ != key@ implies is_named(
                    kept@,
                    all[k]@,
                ) by {
                    if k < i {
                        assert(is_named(before, all[k]@));
                        let l = choose|l: int|
                            0 <= l < before.len() && (#[trigger] before[l])@ == all[k]@;
                        assert(kept@[l] == before[l]);
                    } else {
                        assert(kept@[kept@.len() - 1]@ == all[k]@);
                    }
                }
            }
            i = i + 1;
        }
        proof {
            assert forall|other: Seq<char>| #[trigger]
                values@.contains_key(other) implies is_named(kept@, other) by {
                assert(is_named(all, other));
                let k = choose|k: int| 0 <= k < all.len() && (#[trigger] all[k])@ == other;
                assert(all[k]@ != key@);
            }
        }
        self.keys = kept;
        self.values = values;
    }
}

} // verus!
