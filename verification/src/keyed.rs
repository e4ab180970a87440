//! A small map from text keys to values, kept as a list without repeated keys.
//!
//! Its view is a `Map` from the key's characters to the value's view. The
//! entries keep the order in which their keys were first inserted.
use vstd::prelude::*;
use crate::text::str_eq;

verus! {

/// A map from text keys to values.
pub struct KeyedMap<V> {
    entries: Vec<(String, V)>,
}

/// The keys of a list of entries, in order.
spec fn keys_of<V>(entries: Seq<(String, V)>) -> Seq<Seq<char>> {
    Seq::new(entries.len(), |i: int| entries[i].0@)
}

/// Where `k` stands in a list of distinct keys.
proof fn lemma_index_of_distinct(keys: Seq<Seq<char>>, i: int)
    requires
        keys.no_duplicates(),
        0 <= i < keys.len(),
    ensures
        keys.index_of(keys[i]) == i,
        keys.contains(keys[i]),
{
    let j = keys.index_of(keys[i]);
    assert(0 <= j < keys.len() && keys[j] == keys[i]);
}

impl<V: View> View for KeyedMap<V> {
    type V = Map<Seq<char>, V::V>;

    closed spec fn view(&self) -> Map<Seq<char>, V::V> {
        Map::new(
            |k: Seq<char>| self.keys().contains(k),
            |k: Seq<char>| self.entry_values()[self.keys().index_of(k)],
        )
    }
}

impl<V> KeyedMap<V> {
    /// The keys, in the order of the entries.
    pub closed spec fn keys(&self) -> Seq<Seq<char>> {
        keys_of(self.entries@)
    }

    #[verifier::type_invariant]
    spec fn distinct_keys(&self) -> bool {
        self.keys().no_duplicates()
    }
}

impl<V: View> KeyedMap<V> {
    /// The values' views, in the order of the entries.
    pub closed spec fn entry_values(&self) -> Seq<V::V> {
        Seq::new(self.entries@.len(), |i: int| self.entries@[i].1@)
    }

    /// The entries list the map: each key once, with the value the map gives it.
    pub open spec fn listed(&self) -> bool {
        &&& self.keys().len() == self.entry_values().len()
        &&& self.keys().no_duplicates()
        &&& self@.dom() == self.keys().to_set()
        &&& self@.dom().finite()
        &&& self@.len() == self.keys().len()
        &&& forall|i: int|
            0 <= i < self.keys().len() ==> self@[#[trigger] self.keys()[i]]
                == self.entry_values()[i]
    }

    proof fn lemma_listed(&self)
        requires
            self.keys().no_duplicates(),
        ensures
            self.listed(),
    {
        let keys = self.keys();
        assert(self@.dom() =~= keys.to_set());
        keys.unique_seq_to_set();
        assert forall|i: int| 0 <= i < keys.len() implies self@[#[trigger] keys[i]]
            == self.entry_values()[i] by {
            lemma_index_of_distinct(keys, i);
        }
    }

    /// An empty map.
    pub fn new() -> (m: Self)
        ensures
            m@ == Map::<Seq<char>, V::V>::empty(),
            m.keys() == Seq::<Seq<char>>::empty(),
    {
        let m = KeyedMap { entries: Vec::new() };
        proof {
            assert(m.keys() =~= Seq::<Seq<char>>::empty());
            assert(m@ =~= Map::<Seq<char>, V::V>::empty());
        }
        m
    }

    /// The number of entries.
    pub fn len(&self) -> (n: usize)
        ensures
            n == self.keys().len(),
            self.listed(),
    {
        proof {
            use_type_invariant(self);
            self.lemma_listed();
        }
        self.entries.len()
    }

    /// The key of entry `i`.
    pub fn key_at(&self, i: usize) -> (k: &String)
        requires
            i < self.keys().len(),
        ensures
            k@ == self.keys()[i as int],
            self@.contains_key(k@),
    {
        proof {
            use_type_invariant(self);
            lemma_index_of_distinct(self.keys(), i as int);
        }
        &self.entries[i].0
    }

    /// The value of entry `i`.
    pub fn value_at(&self, i: usize) -> (v: &V)
        requires
            i < self.keys().len(),
        ensures
            v@ == self.entry_values()[i as int],
            v@ == self@[self.keys()[i as int]],
    {
        proof {
            use_type_invariant(self);
            lemma_index_of_distinct(self.keys(), i as int);
        }
        &self.entries[i].1
    }

    /// The entry that holds `key`, if there is one.
    pub fn position(&self, key: &str) -> (r: Option<usize>)
        ensures
            match r {
                Some(i) => i < self.keys().len() && self.keys()[i as int] == key@,
                None => !self@.contains_key(key@),
            },
            r is Some == self@.contains_key(key@),
    {
        let mut i: usize = 0;
        while i < self.entries.len()
            invariant
                i <= self.entries@.len(),
                forall|j: int| 0 <= j < i ==> self.keys()[j] != key@,
            decreases self.entries@.len() - i,
        {
            if str_eq(self.entries[i].0.as_str(), key) {
                assert(self.keys()[i as int] == key@);
                return Some(i);
            }
            i += 1;
        }
        None
    }

    /// Whether the map holds `key`.
    pub fn contains_key(&self, key: &str) -> (r: bool)
        ensures
            r == self@.contains_key(key@),
    {
        self.position(key).is_some()
    }

    /// The value for `key`, if the map holds one.
    pub fn get(&self, key: &str) -> (r: Option<&V>)
        ensures
            match r {
                Some(v) => self@.contains_key(key@) && v@ == self@[key@],
                None => !self@.contains_key(key@),
            },
    {
        match self.position(key) {
            Some(i) => Some(self.value_at(i)),
            None => None,
        }
    }

    /// Sets the value for `key`, replacing the one it had.
    pub fn insert(&mut self, key: String, value: V)
        ensures
            final(self)@ == old(self)@.insert(key@, value@),
    {
        proof {
            use_type_invariant(&*self);
        }
        let ghost before = *self;
        match self.position(key.as_str()) {
            Some(i) => {
                let ghost k = key@;
                let ghost v = value@;
                let mut entries: Vec<(String, V)> = Vec::new();
                core::mem::swap(&mut entries, &mut self.entries);
                entries.set(i, (key, value));
                assert(keys_of(entries@) =~= before.keys());
                core::mem::swap(&mut entries, &mut self.entries);
                proof {
                    assert(self.keys() =~= before.keys());
                    assert(self.entry_values() =~= before.entry_values().update(i as int, v));
                    assert forall|x: Seq<char>| #[trigger]
                        self@.contains_key(x) implies self@[x] == before@.insert(k, v)[x] by {
                        let j = self.keys().index_of(x);
                        lemma_index_of_distinct(self.keys(), i as int);
                    }
                    assert(self@ =~= before@.insert(k, v));
                }
            },
            None => {
                let ghost k = key@;
                let ghost v = value@;
                let mut entries: Vec<(String, V)> = Vec::new();
                core::mem::swap(&mut entries, &mut self.entries);
                entries.push((key, value));
                assert(keys_of(entries@) =~= before.keys().push(k));
                core::mem::swap(&mut entries, &mut self.entries);
                proof {
                    assert(self.keys() =~= before.keys().push(k));
                    assert(self.entry_values() =~= before.entry_values().push(v));
                    assert(self.keys().no_duplicates());
                    assert forall|x: Seq<char>| #[trigger]
                        self@.contains_key(x) implies self@[x] == before@.insert(k, v)[x] by {
                        let j = self.keys().index_of(x);
                        if x == k {
                            lemma_index_of_distinct(self.keys(), before.keys().len() as int);
                        } else {
                            assert(before.keys()[j] == x);
                            lemma_index_of_distinct(before.keys(), j);
                        }
                    }
                    assert forall|x: Seq<char>| #[trigger]
                        before@.insert(k, v).contains_key(x) implies self@.contains_key(x) by {
                        if x == k {
                            assert(self.keys()[before.keys().len() as int] == k);
                        } else {
                            let j = before.keys().index_of(x);
                            assert(self.keys()[j] == x);
                        }
                    }
                    assert(self@ =~= before@.insert(k, v));
                }
            },
        }
    }

    /// Removes `key` and its value, if the map holds them.
    pub fn remove(&mut self, key: &str)
        ensures
            final(self)@ == old(self)@.remove(key@),
    {
        proof {
            use_type_invariant(&*self);
        }
        let ghost before = *self;
        match self.position(key) {
            Some(i) => {
                let mut entries: Vec<(String, V)> = Vec::new();
                core::mem::swap(&mut entries, &mut self.entries);
                let _ = entries.remove(i);
                proof {
                    let now = keys_of(entries@);
                    assert(now =~= before.keys().remove(i as int));
                    assert forall|a: int, b: int|
                        0 <= a < now.len() && 0 <= b < now.len() && a != b implies now[a]
                        != now[b] by {
                        let a0 = if a < i { a } else { a + 1 };
                        let b0 = if b < i { b } else { b + 1 };
                        assert(now[a] == before.keys()[a0]);
                        assert(now[b] == before.keys()[b0]);
                    }
                }
                core::mem::swap(&mut entries, &mut self.entries);
                proof {
                    assert(self.keys() =~= before.keys().remove(i as int));
                    assert(self.entry_values() =~= before.entry_values().remove(i as int));
                    assert forall|x: Seq<char>| #[trigger]
                        self@.contains_key(x) implies before@.remove(key@).contains_key(x)
                        && self@[x] == before@.remove(key@)[x] by {
                        let j = self.keys().index_of(x);
                        let j0 = if j < i { j } else { j + 1 };
                        assert(before.keys()[j0] == x);
                        lemma_index_of_distinct(before.keys(), j0);
                    }
                    assert forall|x: Seq<char>| #[trigger]
                        before@.remove(key@).contains_key(x) implies self@.contains_key(x) by {
                        let j0 = before.keys().index_of(x);
                        let j = if j0 < i { j0 } else { j0 - 1 };
                        assert(self.keys()[j] == x);
                    }
                    assert(self@ =~= before@.remove(key@));
                }
            },
            None => {
                proof {
                    assert(self@ =~= before@.remove(key@));
                }
            },
        }
    }
}

/// A type with a notion of two values being alike, decided on their views.
pub trait Alike: View + Sized {
    /// `a` and `b` are alike.
    spec fn alike(a: Self::V, b: Self::V) -> bool;

    /// Decides whether two values are alike.
    fn is_alike(&self, other: &Self) -> (r: bool)
        ensures
            r == Self::alike(self@, other@),
    ;
}

/// Two maps have the same keys, with values that are alike.
pub open spec fn alike_maps<V: Alike>(a: Map<Seq<char>, V::V>, b: Map<Seq<char>, V::V>) -> bool {
    &&& a.dom() == b.dom()
    &&& forall|k: Seq<char>| #[trigger] a.contains_key(k) ==> V::alike(a[k], b[k])
}

impl<V: Alike> KeyedMap<V> {
    /// Whether two maps have the same keys, with values that are alike.
    pub fn is_alike(&self, other: &KeyedMap<V>) -> (r: bool)
        ensures
            r == alike_maps::<V>(self@, other@),
    {
        let n = self.len();
        let m = other.len();
        if n != m {
            return false;
        }
        let mut i: usize = 0;
        while i < n
            invariant
                i <= n,
                n == self.keys().len(),
                self.listed(),
                other.listed(),
                self@.len() == other@.len(),
                forall|j: int|
                    0 <= j < i ==> other@.contains_key(#[trigger] self.keys()[j]) && V::alike(
                        self@[self.keys()[j]],
                        other@[self.keys()[j]],
                    ),
            decreases n - i,
        {
            let key = self.key_at(i);
            match other.get(key.as_str()) {
                None => {
                    return false;
                },
                Some(theirs) => {
                    if !self.value_at(i).is_alike(theirs) {
                        return false;
                    }
                },
            }
            i += 1;
        }
        proof {
            assert forall|k: Seq<char>| self@.dom().contains(k) implies other@.dom().contains(
                k,
            ) && V::alike(self@[k], other@[k]) by {
                assert(self.keys().to_set().contains(k));
                let j = choose|j: int| 0 <= j < self.keys().len() && self.keys()[j] == k;
                assert(other@.contains_key(self.keys()[j]));
            }
            vstd::set_lib::lemma_subset_equality(self@.dom(), other@.dom());
        }
        true
    }
}

} // verus!
