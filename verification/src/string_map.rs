//! A map from strings to values that lists its entries in the order of the keys.
use crate::text::{lemma_text_order, str_eq, str_lt, text_lt};
use vstd::prelude::*;

verus! {

/// Whether `keys` stand in strictly ascending order, so that none occurs twice.
pub open spec fn ascending(keys: Seq<Seq<char>>) -> bool {
    forall|i: int, j: int| 0 <= i < j < keys.len() ==> text_lt(#[trigger] keys[i], #[trigger] keys[j])
}

/// A map from strings to values, ordered by key.
#[derive(Debug, PartialEq)]
pub struct StringMap<V> {
    entries: Vec<(String, V)>,
}

impl<V> StringMap<V> {
    #[verifier::type_invariant]
    spec fn ordered(self) -> bool {
        ascending(self.keys())
    }

    /// The entries, in the order of their keys.
    pub closed spec fn entries(self) -> Seq<(String, V)> {
        self.entries@
    }

    /// The keys, in their order.
    pub open spec fn keys(self) -> Seq<Seq<char>> {
        Seq::new(self.entries().len(), |i: int| self.entries()[i].0@)
    }

    /// Whether there is an entry for `key`.
    pub open spec fn has(self, key: Seq<char>) -> bool {
        exists|i: int| 0 <= i < self.entries().len() && #[trigger] self.keys()[i] == key
    }

    /// The value of the entry for `key`.
    pub open spec fn at(self, key: Seq<char>) -> V
        recommends
            self.has(key),
    {
        self.entries()[choose|i: int|
            0 <= i < self.entries().len() && #[trigger] self.keys()[i] == key].1
    }
}

impl<V> View for StringMap<V> {
    type V = Map<Seq<char>, V>;

    open spec fn view(&self) -> Map<Seq<char>, V> {
        Map::new(|key: Seq<char>| self.has(key), |key: Seq<char>| self.at(key))
    }
}

/// The values of a map are smaller than the map.
pub broadcast proof fn lemma_value_decreases<V>(map: StringMap<V>, key: Seq<char>)
    requires
        map.has(key),
    ensures
        #![trigger map.at(key)]
        decreases_to!(map => map.at(key)),
{
    let i = choose|i: int| 0 <= i < map.entries().len() && #[trigger] map.keys()[i] == key;
    assert(decreases_to!(map => map.entries));
    assert(decreases_to!(map.entries => map.entries@));
    assert(decreases_to!(map.entries@ => map.entries@[i]));
    assert(decreases_to!(map.entries@[i] => map.entries@[i].1));
}

proof fn lemma_at_index<V>(map: StringMap<V>, i: int)
    requires
        ascending(map.keys()),
        0 <= i < map.entries().len(),
    ensures
        map.has(map.keys()[i]),
        map.at(map.keys()[i]) == map.entries()[i].1,
{
    let key = map.keys()[i];
    let j = choose|j: int| 0 <= j < map.entries().len() && #[trigger] map.keys()[j] == key;
    assert(0 <= i < map.entries().len() && map.keys()[i] == key);
    lemma_text_order(key, key, key);
    assert(i == j);
}

impl<V> StringMap<V> {
    /// The map without entries.
    pub fn new() -> (map: Self)
        ensures
            map@ == Map::<Seq<char>, V>::empty(),
            map.entries().len() == 0,
    {
        let map = StringMap { entries: Vec::new() };
        assert(map@ =~= Map::<Seq<char>, V>::empty());
        map
    }

    /// The number of entries.
    pub fn len(&self) -> (n: usize)
        ensures
            n == self.entries().len(),
            ascending(self.keys()),
            n == 0 <==> self@ == Map::<Seq<char>, V>::empty(),
    {
        proof {
            use_type_invariant(self);
            if self.entries().len() == 0 {
                assert(self@ =~= Map::<Seq<char>, V>::empty());
            } else {
                lemma_at_index(*self, 0);
                assert(self@.contains_key(self.keys()[0]));
            }
        }
        self.entries.len()
    }

    /// The key of the `i`th entry.
    pub fn key_at(&self, i: usize) -> (key: &String)
        requires
            i < self.entries().len(),
        ensures
            key@ == self.keys()[i as int],
            *key == self.entries()[i as int].0,
    {
        &self.entries[i].0
    }

    /// The value of the `i`th entry.
    pub fn value_at(&self, i: usize) -> (value: &V)
        requires
            i < self.entries().len(),
        ensures
            *value == self.entries()[i as int].1,
            self@.contains_pair(self.keys()[i as int], *value),
            *value == self.at(self.keys()[i as int]),
    {
        proof {
            use_type_invariant(self);
            lemma_at_index(*self, i as int);
        }
        &self.entries[i].1
    }

    /// The value for `key`, if there is an entry for it.
    pub fn get(&self, key: &str) -> (value: Option<&V>)
        ensures
            match value {
                Some(v) => self@.contains_pair(key@, *v),
                None => !self@.contains_key(key@),
            },
    {
        proof {
            use_type_invariant(self);
        }
        let mut i: usize = 0;
        while i < self.entries.len()
            invariant
                i <= self.entries@.len(),
                ascending(self.keys()),
                forall|j: int| 0 <= j < i ==> self.keys()[j] != key@,
            decreases self.entries@.len() - i,
        {
            if str_eq(self.entries[i].0.as_str(), key) {
                proof {
                    lemma_at_index(*self, i as int);
                }
                return Some(&self.entries[i].1);
            }
            i += 1;
        }
        None
    }

    /// Whether there is an entry for `key`.
    pub fn contains_key(&self, key: &str) -> (r: bool)
        ensures
            r == self@.contains_key(key@),
    {
        self.get(key).is_some()
    }

    /// Sets the value for `key`.
    pub fn insert(&mut self, key: String, value: V)
        ensures
            final(self)@ == old(self)@.insert(key@, value),
    {
        proof {
            use_type_invariant(&*self);
        }
        let ghost before = *self;
        let mut entries: Vec<(String, V)> = Vec::new();
        std::mem::swap(&mut entries, &mut self.entries);
        let ghost old_entries = entries@;
        let mut i: usize = 0;
        while i < entries.len() && str_lt(entries[i].0.as_str(), key.as_str())
            invariant
                i <= entries@.len(),
                entries@ == before.entries(),
                forall|j: int| 0 <= j < i ==> text_lt(#[trigger] before.keys()[j], key@),
            decreases entries@.len() - i,
        {
            i += 1;
        }
        let ghost name = key@;
        let replaces = i < entries.len() && str_eq(entries[i].0.as_str(), key.as_str());
        if replaces {
            let _ = entries.remove(i);
        }
        entries.insert(i, (key, value));
        let ghost after = StringMap { entries };
        proof {
            let shift = if replaces {
                0int
            } else {
                1int
            };
            assert forall|a: int, b: int|
                0 <= a < b < after.keys().len() implies text_lt(
                #[trigger] after.keys()[a],
                #[trigger] after.keys()[b],
            ) by {
                let ka = if a < i {
                    before.keys()[a]
                } else if a == i {
                    name
                } else {
                    before.keys()[a - shift]
                };
                assert(ka == after.keys()[a]);
                if b > i {
                    let kb = before.keys()[b - shift];
                    assert(kb == after.keys()[b]);
                    if a <= i {
                        let first = before.keys()[i as int];
                        lemma_text_order(first, name, kb);
                        lemma_text_order(name, first, kb);
                        lemma_text_order(ka, name, kb);
                    }
                } else if b == i {
                    assert(after.keys()[b] == name);
                } else {
                    assert(after.keys()[b] == before.keys()[b]);
                }
            }
            assert(after.keys()[i as int] == name);
            lemma_at_index(after, i as int);
            assert forall|k: Seq<char>| k != name implies before.has(k) == after.has(k) && (
            before.has(k) ==> before.at(k) == after.at(k)) by {
                if before.has(k) {
                    let j = choose|j: int|
                        0 <= j < before.entries().len() && #[trigger] before.keys()[j] == k;
                    let j2 = if j < i {
                        j
                    } else {
                        j + shift
                    };
                    assert(after.keys()[j2] == k);
                    lemma_at_index(before, j);
                    lemma_at_index(after, j2);
                }
                if after.has(k) {
                    let j = choose|j: int|
                        0 <= j < after.entries().len() && #[trigger] after.keys()[j] == k;
                    let j2 = if j < i {
                        j
                    } else {
                        j - shift
                    };
                    assert(before.keys()[j2] == k);
                }
            }
            assert(after@ =~= before@.insert(name, after.at(name)));
        }
        self.entries = entries;
    }
}

impl<V: Clone> Clone for StringMap<V> {
    fn clone(&self) -> (map: Self)
        ensures
            map.entries().len() == self.entries().len(),
            forall|i: int|
                #![trigger map.entries()[i]]
                0 <= i < self.entries().len() ==> map.entries()[i].0 == self.entries()[i].0
                    && cloned(self.entries()[i].1, map.entries()[i].1),
    {
        proof {
            use_type_invariant(self);
        }
        let mut entries: Vec<(String, V)> = Vec::new();
        let mut i: usize = 0;
        while i < self.entries.len()
            invariant
                i == entries@.len() <= self.entries@.len(),
                forall|j: int| 0 <= j < i ==> #[trigger] entries@[j].0 == self.entries@[j].0,
                forall|j: int|
                    #![trigger entries@[j]]
                    0 <= j < i ==> cloned(self.entries@[j].1, entries@[j].1),
            decreases self.entries@.len() - i,
        {
            entries.push((self.entries[i].0.clone(), self.entries[i].1.clone()));
            i += 1;
        }
        assert(StringMap { entries }.keys() =~= self.keys());
        StringMap { entries }
    }
}

impl StringMap<String> {
    /// A map with the same entries.
    pub fn copy(&self) -> (map: Self)
        ensures
            map@ == self@,
    {
        let map = self.clone();
        proof {
            use_type_invariant(self);
            assert(map.entries() =~= self.entries());
            assert(map.keys() =~= self.keys());
            assert forall|key: Seq<char>| self.has(key) implies #[trigger] map.at(key) == self.at(
                key,
            ) by {
                let i = choose|i: int|
                    0 <= i < self.entries().len() && #[trigger] self.keys()[i] == key;
                lemma_at_index(*self, i);
                lemma_at_index(map, i);
            }
            assert(map@ =~= self@);
        }
        map
    }
}

// ---------------------------------------------------------------------------
// Laws
// ---------------------------------------------------------------------------


/// A map with ascending keys has exactly the entries that it lists.
pub proof fn law_map_lists_its_entries<V>(map: StringMap<V>, key: Seq<char>)
    requires
        ascending(map.keys()),
    ensures
        map.keys().len() == map.entries().len(),
        forall|i: int|
            0 <= i < map.entries().len() ==> #[trigger] map.keys()[i] == map.entries()[i].0@,
        forall|i: int|
            0 <= i < map.entries().len() ==> map@.contains_pair(
                #[trigger] map.keys()[i],
                map.entries()[i].1,
            ),
        map@.contains_key(key) ==> exists|i: int|
            0 <= i < map.entries().len() && #[trigger] map.keys()[i] == key,
{
    assert forall|i: int| 0 <= i < map.entries().len() implies map@.contains_pair(
        #[trigger] map.keys()[i],
        map.entries()[i].1,
    ) by {
        lemma_at_index(map, i);
    }
}

/// Ascending keys stand in the order of text, each before all that follow.
pub proof fn law_ascending(keys: Seq<Seq<char>>)
    ensures
        ascending(keys) <==> forall|i: int, j: int|
            0 <= i < j < keys.len() ==> text_lt(#[trigger] keys[i], #[trigger] keys[j]),
{
}

} // verus!
