//! A map from strings, kept in ascending order of its keys.
use vstd::prelude::*;

use crate::order::{ascending, lemma_ascending_unique, lemma_insert_ascending, splits};
use crate::text::{is_before, precedes, same_text};
use crate::values::{lemma_text_order, Plain};

verus! {

/// A map from strings to values, walked in ascending order of the keys.
#[derive(Debug, PartialEq)]
pub struct StringMap<T> {
    entries: Vec<(String, T)>,
}

/// The order of the keys.
pub open spec fn key_order() -> spec_fn(Seq<char>, Seq<char>) -> bool {
    |a: Seq<char>, b: Seq<char>| precedes(a, b)
}

/// The map with the given keys and, at the same positions, values.
pub open spec fn map_of<A>(keys: Seq<Seq<char>>, values: Seq<A>) -> Map<Seq<char>, A> {
    Map::new(|k: Seq<char>| keys.contains(k), |k: Seq<char>| values[keys.index_of(k)])
}

impl<T> StringMap<T> {
    #[verifier::type_invariant]
    spec fn in_order(&self) -> bool {
        ascending(self.keys(), key_order())
    }

    /// The keys, in ascending order.
    pub closed spec fn keys(&self) -> Seq<Seq<char>> {
        self.entries@.map_values(|e: (String, T)| e.0@)
    }

    /// The values, each at the position of its key.
    pub closed spec fn values(&self) -> Seq<T> {
        self.entries@.map_values(|e: (String, T)| e.1)
    }
}

impl<T: View> View for StringMap<T> {
    type V = Map<Seq<char>, T::V>;

    open spec fn view(&self) -> Map<Seq<char>, T::V> {
        map_of(self.keys(), self.values().map_values(|v: T| v@))
    }
}

proof fn lemma_index_of<A>(keys: Seq<Seq<char>>, values: Seq<A>, i: int)
    requires
        ascending(keys, key_order()),
        keys.len() == values.len(),
        0 <= i < keys.len(),
    ensures
        keys.index_of(keys[i]) == i,
        map_of(keys, values).contains_key(keys[i]),
        map_of(keys, values)[keys[i]] == values[i],
{
    lemma_text_order();
    assert(keys.contains(keys[i]));
    let j = keys.index_of(keys[i]);
    if i < j {
        assert(key_order()(keys[i], keys[j]));
    }
    if j < i {
        assert(key_order()(keys[j], keys[i]));
    }
}

proof fn lemma_is_map_of<A>(keys: Seq<Seq<char>>, values: Seq<A>, m: Map<Seq<char>, A>)
    requires
        ascending(keys, key_order()),
        keys.len() == values.len(),
        forall|k: Seq<char>| #[trigger] m.contains_key(k) ==> keys.contains(k),
        forall|i: int|
            0 <= i < keys.len() ==> m.contains_key(#[trigger] keys[i]) && m[keys[i]] == values[i],
    ensures
        map_of(keys, values) == m,
{
    let n = map_of(keys, values);
    assert forall|k: Seq<char>| #[trigger] n.contains_key(k) implies m.contains_key(k) && n[k]
        == m[k] by {
        let i = keys.index_of(k);
        assert(keys[i] == k);
        lemma_index_of(keys, values, i);
    }
    assert(n =~= m);
}

proof fn lemma_updated<A>(keys: Seq<Seq<char>>, values: Seq<A>, i: int, value: A)
    requires
        ascending(keys, key_order()),
        keys.len() == values.len(),
        0 <= i < keys.len(),
    ensures
        map_of(keys, values.update(i, value)) == map_of(keys, values).insert(keys[i], value),
{
    let m = map_of(keys, values).insert(keys[i], value);
    assert forall|j: int| 0 <= j < keys.len() implies m.contains_key(#[trigger] keys[j])
        && m[keys[j]] == values.update(i, value)[j] by {
        lemma_index_of(keys, values, j);
        lemma_index_of(keys, values, i);
    }
    assert(keys.contains(keys[i]));
    lemma_is_map_of(keys, values.update(i, value), m);
}

proof fn lemma_inserted<A>(keys: Seq<Seq<char>>, values: Seq<A>, i: int, key: Seq<char>, value: A)
    requires
        ascending(keys, key_order()),
        keys.len() == values.len(),
        0 <= i <= keys.len(),
        ascending(keys.insert(i, key), key_order()),
        !keys.contains(key),
    ensures
        map_of(keys.insert(i, key), values.insert(i, value)) == map_of(keys, values).insert(
            key,
            value,
        ),
{
    let m = map_of(keys, values).insert(key, value);
    let k2 = keys.insert(i, key);
    let v2 = values.insert(i, value);
    assert forall|j: int| 0 <= j < k2.len() implies m.contains_key(#[trigger] k2[j]) && m[k2[j]]
        == v2[j] by {
        if j < i {
            assert(keys.contains(keys[j]));
            lemma_index_of(keys, values, j);
        } else if j > i {
            assert(keys.contains(keys[j - 1]));
            lemma_index_of(keys, values, j - 1);
        }
    }
    assert forall|k: Seq<char>| #[trigger] m.contains_key(k) implies k2.contains(k) by {
        if k == key {
            assert(k2[i] == k);
        } else {
            let j = keys.index_of(k);
            assert(keys[j] == k);
            if j < i {
                assert(k2[j] == k);
            } else {
                assert(k2[j + 1] == k);
            }
        }
    }
    lemma_is_map_of(k2, v2, m);
}

proof fn lemma_removed<A>(keys: Seq<Seq<char>>, values: Seq<A>, i: int)
    requires
        ascending(keys, key_order()),
        keys.len() == values.len(),
        0 <= i < keys.len(),
    ensures
        ascending(keys.remove(i), key_order()),
        map_of(keys.remove(i), values.remove(i)) == map_of(keys, values).remove(keys[i]),
{
    lemma_text_order();
    let m = map_of(keys, values).remove(keys[i]);
    let k2 = keys.remove(i);
    let v2 = values.remove(i);
    let before = key_order();
    assert forall|p: int, q: int| 0 <= p < q < k2.len() implies before(
        #[trigger] k2[p],
        #[trigger] k2[q],
    ) by {
        let p0 = if p < i { p } else { p + 1 };
        let q0 = if q < i { q } else { q + 1 };
        assert(before(keys[p0], keys[q0]));
    }
    assert forall|j: int| 0 <= j < k2.len() implies m.contains_key(#[trigger] k2[j]) && m[k2[j]]
        == v2[j] by {
        let j0 = if j < i { j } else { j + 1 };
        lemma_index_of(keys, values, j0);
        lemma_index_of(keys, values, i);
    }
    assert forall|k: Seq<char>| #[trigger] m.contains_key(k) implies k2.contains(k) by {
        let j = keys.index_of(k);
        assert(keys[j] == k);
        if j < i {
            assert(k2[j] == k);
        } else {
            assert(k2[j - 1] == k);
        }
    }
    lemma_is_map_of(k2, v2, m);
}

impl<T: View> StringMap<T> {
    /// The keys are listed once each in ascending order, next to their values.
    proof fn lemma_keys(&self)
        requires
            self.in_order(),
        ensures
            ascending(self.keys(), key_order()),
            self.keys().len() == self.values().len(),
            forall|k: Seq<char>| #[trigger] self.keys().contains(k) <==> self@.contains_key(k),
            forall|i: int|
                0 <= i < self.keys().len() ==> self@.contains_key(#[trigger] self.keys()[i])
                    && self@[self.keys()[i]] == self.values()[i]@,
    {
        let vs = self.values().map_values(|v: T| v@);
        assert forall|i: int| 0 <= i < self.keys().len() implies self@.contains_key(
            #[trigger] self.keys()[i],
        ) && self@[self.keys()[i]] == self.values()[i]@ by {
            lemma_index_of(self.keys(), vs, i);
        }
    }

    /// The map without entries.
    pub fn new() -> (r: Self)
        ensures
            r@ == Map::<Seq<char>, T::V>::empty(),
            r.keys().len() == 0,
    {
        let r = StringMap { entries: Vec::new() };
        proof {
            assert(r@ =~= Map::<Seq<char>, T::V>::empty());
        }
        r
    }

    /// The number of entries. The keys are listed once each in ascending order, next
    /// to their values.
    pub fn len(&self) -> (r: usize)
        ensures
            r == self.keys().len(),
            r == self.values().len(),
            self@.dom().finite(),
            r == self@.dom().len(),
            ascending(self.keys(), key_order()),
            forall|k: Seq<char>| #[trigger] self.keys().contains(k) <==> self@.contains_key(k),
            forall|i: int|
                0 <= i < self.keys().len() ==> self@.contains_key(#[trigger] self.keys()[i])
                    && self@[self.keys()[i]] == self.values()[i]@,
    {
        proof {
            use_type_invariant(self);
            self.lemma_keys();
            lemma_text_order();
            let keys = self.keys();
            assert forall|i: int, j: int| 0 <= i < j < keys.len() implies keys[i] != keys[j] by {
                assert(key_order()(keys[i], keys[j]));
            }
            keys.unique_seq_to_set();
            assert(keys.to_set() =~= self@.dom());
        }
        self.entries.len()
    }

    /// The key at a position.
    pub fn key_at(&self, i: usize) -> (r: &String)
        requires
            i < self.keys().len(),
        ensures
            r@ == self.keys()[i as int],
    {
        &self.entries[i].0
    }

    /// The value at a position.
    pub fn value_at(&self, i: usize) -> (r: &T)
        requires
            i < self.keys().len(),
        ensures
            *r == self.values()[i as int],
            r@ == self@[self.keys()[i as int]],
            self@.contains_key(self.keys()[i as int]),
    {
        proof {
            use_type_invariant(&*self);
            self.lemma_keys();
        }
        &self.entries[i].1
    }

    /// The position at which a key stands or belongs.
    fn position(&self, key: &str) -> (r: usize)
        ensures
            splits(self.keys(), key@, r as int, key_order()),
            self@.contains_key(key@) <==> (r < self.keys().len() && self.keys()[r as int] == key@),
    {
        proof {
            use_type_invariant(&*self);
            self.lemma_keys();
            lemma_text_order();
        }
        let ghost keys = self.keys();
        let ghost before = key_order();
        let mut i: usize = 0;
        while i < self.entries.len() && is_before(&self.entries[i].0, key)
            invariant
                keys == self.keys(),
                before == key_order(),
                i <= self.entries.len(),
                forall|j: int| 0 <= j < i ==> before(#[trigger] keys[j], key@),
            decreases self.entries.len() - i,
        {
            proof {
                assert(keys[i as int] == self.entries@[i as int].0@);
            }
            i += 1;
        }
        proof {
            assert forall|j: int| i <= j < keys.len() implies !before(#[trigger] keys[j], key@) by {
                assert(keys[i as int] == self.entries@[i as int].0@);
                assert(!before(keys[i as int], key@));
                if i < j && before(keys[j], key@) {
                    assert(before(keys[i as int], keys[j]));
                }
            }
            if keys.contains(key@) {
                let j = choose|j: int| 0 <= j < keys.len() && keys[j] == key@;
                assert(!before(key@, key@));
                if i < j {
                    assert(before(keys[i as int], keys[j]));
                }
                assert(i == j);
            }
            if i < keys.len() && keys[i as int] == key@ {
                assert(keys.contains(keys[i as int]));
            }
        }
        i
    }

    /// Whether the map has the key.
    pub fn contains_key(&self, key: &str) -> (r: bool)
        ensures
            r == self@.contains_key(key@),
    {
        let i: usize = self.position(key);
        proof {
            if i < self.keys().len() {
                assert(self.keys()[i as int] == self.entries@[i as int].0@);
            }
        }
        i < self.entries.len() && same_text(&self.entries[i].0, key)
    }

    /// The value of a key.
    pub fn get(&self, key: &str) -> (r: Option<&T>)
        ensures
            r is Some <==> self@.contains_key(key@),
            r is Some ==> r->0@ == self@[key@],
            r is Some ==> exists|i: int|
                0 <= i < self.keys().len() && #[trigger] self.keys()[i] == key@ && *r->0
                    == self.values()[i],
    {
        let i: usize = self.position(key);
        proof {
            use_type_invariant(&*self);
            self.lemma_keys();
            if i < self.keys().len() {
                assert(self.keys()[i as int] == self.entries@[i as int].0@);
            }
        }
        if i < self.entries.len() && same_text(&self.entries[i].0, key) {
            Some(&self.entries[i].1)
        } else {
            None
        }
    }

    /// Gives the key the value, in place of the one it had.
    pub fn insert(&mut self, key: String, value: T)
        ensures
            final(self)@ == old(self)@.insert(key@, value@),
    {
        let ghost keys = self.keys();
        let ghost vals = self.values();
        let ghost seen = vals.map_values(|v: T| v@);
        proof {
            use_type_invariant(&*self);
            self.lemma_keys();
            lemma_text_order();
        }
        let i: usize = self.position(&key);
        let mut entries: Vec<(String, T)> = Vec::new();
        core::mem::swap(&mut entries, &mut self.entries);
        proof {
            if i < keys.len() {
                assert(keys[i as int] == entries@[i as int].0@);
            }
        }
        if i < entries.len() && same_text(&entries[i].0, &key) {
            proof {
                lemma_updated(keys, seen, i as int, value@);
            }
            entries.set(i, (key, value));
            proof {
                assert(entries@.map_values(|e: (String, T)| e.0@) =~= keys);
                assert(entries@.map_values(|e: (String, T)| e.1).map_values(|v: T| v@)
                    =~= seen.update(i as int, value@));
            }
        } else {
            proof {
                lemma_insert_ascending(keys, key@, i as int, key_order());
                lemma_inserted(keys, seen, i as int, key@, value@);
            }
            entries.insert(i, (key, value));
            proof {
                assert(entries@.map_values(|e: (String, T)| e.0@) =~= keys.insert(i as int, key@));
                assert(entries@.map_values(|e: (String, T)| e.1).map_values(|v: T| v@)
                    =~= seen.insert(i as int, value@));
            }
        }
        *self = StringMap { entries };
    }

    /// Takes the key out, with its value.
    pub fn remove(&mut self, key: &str) -> (r: Option<T>)
        ensures
            final(self)@ == old(self)@.remove(key@),
            r is Some <==> old(self)@.contains_key(key@),
            r is Some ==> r->0@ == old(self)@[key@],
    {
        let ghost keys = self.keys();
        let ghost vals = self.values();
        let ghost seen = vals.map_values(|v: T| v@);
        proof {
            use_type_invariant(&*self);
            self.lemma_keys();
            lemma_text_order();
        }
        let i: usize = self.position(key);
        proof {
            if i < keys.len() {
                assert(keys[i as int] == self.entries@[i as int].0@);
            }
        }
        if i < self.entries.len() && same_text(&self.entries[i].0, key) {
            let mut entries: Vec<(String, T)> = Vec::new();
            core::mem::swap(&mut entries, &mut self.entries);
            proof {
                lemma_removed(keys, seen, i as int);
            }
            let (_, value) = entries.remove(i);
            proof {
                assert(entries@.map_values(|e: (String, T)| e.0@) =~= keys.remove(i as int));
                assert(entries@.map_values(|e: (String, T)| e.1).map_values(|v: T| v@)
                    =~= seen.remove(i as int));
            }
            *self = StringMap { entries };
            Some(value)
        } else {
            proof {
                assert(self@.remove(key@) =~= self@);
            }
            None
        }
    }
}

impl<T: Plain> Plain for StringMap<T> {
    fn same(&self, other: &Self) -> (r: bool) {
        proof {
            use_type_invariant(self);
            self.lemma_keys();
            use_type_invariant(other);
            other.lemma_keys();
            lemma_text_order();
            if self@ == other@ {
                lemma_ascending_unique(self.keys(), other.keys(), key_order());
            }
        }
        if self.entries.len() != other.entries.len() {
            return false;
        }
        let mut i: usize = 0;
        while i < self.entries.len()
            invariant
                self.entries.len() == other.entries.len(),
                self.entries.len() == self.keys().len(),
                other.entries.len() == other.keys().len(),
                self.entries.len() == self.values().len(),
                other.entries.len() == other.values().len(),
                self@ == other@ ==> self.keys() == other.keys(),
                i <= self.entries.len(),
                forall|j: int| 0 <= j < i ==> #[trigger] self.keys()[j] == other.keys()[j],
                forall|j: int| 0 <= j < i ==> (#[trigger] self.values()[j])@ == other.values()[j]@,
            decreases self.entries.len() - i,
        {
            proof {
                use_type_invariant(&*self);
            self.lemma_keys();
                use_type_invariant(other);
            other.lemma_keys();
                assert(self.keys()[i as int] == self.entries@[i as int].0@);
                assert(other.keys()[i as int] == other.entries@[i as int].0@);
                assert(self.values()[i as int] == self.entries@[i as int].1);
                assert(other.values()[i as int] == other.entries@[i as int].1);
            }
            if !same_text(&self.entries[i].0, &other.entries[i].0) {
                return false;
            }
            if !self.entries[i].1.same(&other.entries[i].1) {
                return false;
            }
            i += 1;
        }
        proof {
            assert(self.keys() =~= other.keys());
            assert(self.values().map_values(|v: T| v@) =~= other.values().map_values(|v: T| v@));
        }
        true
    }

    fn duplicate(&self) -> (r: Self) {
        let mut entries: Vec<(String, T)> = Vec::new();
        let mut i: usize = 0;
        while i < self.entries.len()
            invariant
                i <= self.entries.len(),
                entries.len() == i,
                forall|j: int|
                    0 <= j < i ==> entries@[j].0@ == self.entries@[j].0@ && entries@[j].1@
                        == self.entries@[j].1@,
            decreases self.entries.len() - i,
        {
            entries.push((self.entries[i].0.clone(), self.entries[i].1.duplicate()));
            i += 1;
        }
        proof {
            use_type_invariant(self);
            assert(entries@.map_values(|e: (String, T)| e.0@) =~= self.keys());
        }
        let r = StringMap { entries };
        proof {
            assert(r.keys() =~= self.keys());
            assert(r.values().map_values(|v: T| v@) =~= self.values().map_values(|v: T| v@));
        }
        r
    }
}

impl<T: Plain> Clone for StringMap<T> {
    fn clone(&self) -> (r: Self)
        ensures
            r@ == self@,
    {
        self.duplicate()
    }
}

impl<T> Default for StringMap<T> {
    fn default() -> (r: Self)
        ensures
            r.keys().len() == 0,
    {
        StringMap { entries: Vec::new() }
    }
}

} // verus!
