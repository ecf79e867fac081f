//! A small map from text keys to values that remembers the order in which
//! its keys were first bound. Node and port identifiers are text, and the
//! collections of the runtime are keyed by them.

use vstd::prelude::*;

verus! {

/// The map that binds `keys[i]` to `values[i]` for every `i`.
pub open spec fn bindings<V>(keys: Seq<Seq<char>>, values: Seq<V>) -> Map<Seq<char>, V> {
    Map::new(|k: Seq<char>| keys.contains(k), |k: Seq<char>| values[keys.index_of(k)])
}

/// In a sequence without duplicates an element is found where it stands.
pub proof fn lemma_index_of_unique(keys: Seq<Seq<char>>, i: int)
    requires
        keys.no_duplicates(),
        0 <= i < keys.len(),
    ensures
        keys.contains(keys[i]),
        keys.index_of(keys[i]) == i,
{
    assert(keys.contains(keys[i]));
    let j = keys.index_of(keys[i]);
    assert(0 <= j < keys.len() && keys[j] == keys[i]);
}

/// Binding a key that is already bound, at `i`, replaces its value in place.
pub proof fn lemma_bindings_update<V>(keys: Seq<Seq<char>>, values: Seq<V>, i: int, value: V)
    requires
        keys.no_duplicates(),
        keys.len() == values.len(),
        0 <= i < keys.len(),
    ensures
        bindings(keys, values.update(i, value)) == bindings(keys, values).insert(keys[i], value),
{
    let updated = bindings(keys, values.update(i, value));
    let inserted = bindings(keys, values).insert(keys[i], value);
    lemma_index_of_unique(keys, i);
    assert forall|k: Seq<char>| updated.contains_key(k) implies #[trigger] inserted.contains_key(k)
        && updated[k] == inserted[k] by {
        let j = keys.index_of(k);
        assert(0 <= j < keys.len() && keys[j] == k);
    }
    assert(updated =~= inserted);
}

/// Binding a key that is not bound yet appends it.
pub proof fn lemma_bindings_push<V>(keys: Seq<Seq<char>>, values: Seq<V>, key: Seq<char>, value: V)
    requires
        keys.no_duplicates(),
        keys.len() == values.len(),
        !keys.contains(key),
    ensures
        keys.push(key).no_duplicates(),
        bindings(keys.push(key), values.push(value)) == bindings(keys, values).insert(key, value),
{
    let longer = keys.push(key);
    assert(longer.no_duplicates()) by {
        assert forall|a: int, b: int| 0 <= a < longer.len() && 0 <= b < longer.len() && a != b
            implies longer[a] != longer[b] by {
            if a < keys.len() && b < keys.len() {
            } else if a < keys.len() {
                assert(keys.contains(keys[a]));
            } else {
                assert(keys.contains(keys[b]));
            }
        }
    }
    let pushed = bindings(longer, values.push(value));
    let inserted = bindings(keys, values).insert(key, value);
    assert forall|k: Seq<char>| pushed.contains_key(k) <==> inserted.contains_key(k) by {
        if longer.contains(k) {
            let j = longer.index_of(k);
            assert(0 <= j < longer.len() && longer[j] == k);
            if j < keys.len() {
                assert(keys[j] == k);
            }
        }
        if keys.contains(k) {
            let j = keys.index_of(k);
            assert(longer[j] == k);
        }
        if k == key {
            assert(longer[keys.len() as int] == k);
        }
    }
    assert forall|k: Seq<char>| pushed.contains_key(k) implies pushed[k] == inserted[k] by {
        let j = longer.index_of(k);
        assert(0 <= j < longer.len() && longer[j] == k);
        if j < keys.len() {
            assert(keys[j] == k);
            lemma_index_of_unique(keys, j);
        }
    }
    assert(pushed =~= inserted);
}

/// Removing the key at `i` removes its binding and keeps the others in order.
pub proof fn lemma_bindings_remove<V>(keys: Seq<Seq<char>>, values: Seq<V>, i: int)
    requires
        keys.no_duplicates(),
        keys.len() == values.len(),
        0 <= i < keys.len(),
    ensures
        keys.remove(i).no_duplicates(),
        !keys.remove(i).contains(keys[i]),
        bindings(keys.remove(i), values.remove(i)) == bindings(keys, values).remove(keys[i]),
{
    let shorter = keys.remove(i);
    let rest = values.remove(i);
    assert forall|a: int| 0 <= a < shorter.len() implies shorter[a] == keys[if a < i {
        a
    } else {
        a + 1
    }] && rest[a] == values[if a < i {
        a
    } else {
        a + 1
    }] by {}
    assert(shorter.no_duplicates());
    if shorter.contains(keys[i]) {
        let a = shorter.index_of(keys[i]);
        assert(0 <= a < shorter.len() && shorter[a] == keys[i]);
    }
    let removed = bindings(keys, values).remove(keys[i]);
    let shrunk = bindings(shorter, rest);
    assert forall|k: Seq<char>| shrunk.contains_key(k) <==> removed.contains_key(k) by {
        if shorter.contains(k) {
            let a = shorter.index_of(k);
            assert(0 <= a < shorter.len() && shorter[a] == k);
            assert(keys.contains(k));
        }
        if keys.contains(k) && k != keys[i] {
            let j = keys.index_of(k);
            assert(0 <= j < keys.len() && keys[j] == k);
            let a = if j < i {
                j
            } else {
                j - 1
            };
            assert(shorter[a] == k);
        }
    }
    assert forall|k: Seq<char>| shrunk.contains_key(k) implies shrunk[k] == removed[k] by {
        let a = shorter.index_of(k);
        assert(0 <= a < shorter.len() && shorter[a] == k);
        let j = if a < i {
            a
        } else {
            a + 1
        };
        lemma_index_of_unique(keys, j);
    }
    assert(shrunk =~= removed);
}

/// The keys of a sequence of `(key, value)` pairs, in order.
pub open spec fn keys_of<V>(entries: Seq<(String, V)>) -> Seq<Seq<char>> {
    Seq::new(entries.len(), |i: int| entries[i].0@)
}

/// The values of a sequence of `(key, value)` pairs, in order.
pub open spec fn values_of<V>(entries: Seq<(String, V)>) -> Seq<V> {
    Seq::new(entries.len(), |i: int| entries[i].1)
}

/// A map from text keys to values, in the order in which the keys were
/// first bound.
#[derive(Debug)]
pub struct Keyed<V> {
    entries: Vec<(String, V)>,
}

impl<V> View for Keyed<V> {
    type V = Map<Seq<char>, V>;

    closed spec fn view(&self) -> Map<Seq<char>, V> {
        bindings(self.keys(), self.values())
    }
}

impl<V> Keyed<V> {
    /// The keys, in the order in which they were first bound.
    pub closed spec fn keys(&self) -> Seq<Seq<char>> {
        keys_of(self.entries@)
    }

    /// The values, each at the place of its key.
    pub closed spec fn values(&self) -> Seq<V> {
        values_of(self.entries@)
    }

    #[verifier::type_invariant]
    spec fn distinct(&self) -> bool {
        self.keys().no_duplicates()
    }

    /// What holds of every map: each key stands once, and the view binds
    /// each key to the value at its place.
    pub open spec fn consistent(&self) -> bool {
        &&& self.keys().no_duplicates()
        &&& self.keys().len() == self.values().len()
        &&& self@.dom() == self.keys().to_set()
        &&& forall|i: int|
            0 <= i < self.keys().len() ==> self@[#[trigger] self.keys()[i]] == self.values()[i]
    }

    proof fn lemma_consistent(&self)
        requires
            self.distinct(),
        ensures
            self.consistent(),
    {
        let keys = self.keys();
        assert(self@.dom() =~= keys.to_set());
        assert forall|i: int| 0 <= i < keys.len() implies self@[#[trigger] keys[i]]
            == self.values()[i] by {
            lemma_index_of_unique(keys, i);
        }
    }

    /// The empty map.
    pub fn new() -> (r: Self)
        ensures
            r@ == Map::<Seq<char>, V>::empty(),
            r.keys() == Seq::<Seq<char>>::empty(),
            r.values() == Seq::<V>::empty(),
            r.consistent(),
    {
        let r = Keyed { entries: Vec::new() };
        proof {
            r.lemma_consistent();
        }
        assert(r.keys() =~= Seq::<Seq<char>>::empty());
        assert(r.values() =~= Seq::<V>::empty());
        assert(r@ =~= Map::<Seq<char>, V>::empty());
        r
    }

    /// The number of keys.
    pub fn len(&self) -> (r: usize)
        ensures
            r == self.keys().len(),
            self.consistent(),
    {
        proof {
            use_type_invariant(self);
            self.lemma_consistent();
        }
        self.entries.len()
    }

    /// The bindings as pairs, in the order of the keys.
    pub fn entries(&self) -> (r: &Vec<(String, V)>)
        ensures
            keys_of(r@) == self.keys(),
            values_of(r@) == self.values(),
            self.consistent(),
    {
        proof {
            use_type_invariant(self);
            self.lemma_consistent();
        }
        &self.entries
    }

    /// The key at place `i`.
    pub fn key(&self, i: usize) -> (r: &String)
        requires
            i < self.keys().len(),
        ensures
            r@ == self.keys()[i as int],
    {
        &self.entries[i].0
    }

    /// The value at place `i`.
    pub fn value(&self, i: usize) -> (r: &V)
        requires
            i < self.keys().len(),
        ensures
            *r == self.values()[i as int],
    {
        &self.entries[i].1
    }

    /// The place of `key`, if it is bound.
    pub fn position(&self, key: &str) -> (r: Option<usize>)
        ensures
            self.consistent(),
            match r {
                Some(i) => i < self.keys().len() && self.keys()[i as int] == key@,
                None => !self.keys().contains(key@),
            },
    {
        proof {
            use_type_invariant(self);
            self.lemma_consistent();
        }
        let wanted = key.to_owned();
        let mut i: usize = 0;
        while i < self.entries.len()
            invariant
                0 <= i <= self.entries.len(),
                wanted@ == key@,
                self.consistent(),
                forall|j: int| 0 <= j < i ==> self.keys()[j] != key@,
            decreases self.entries.len() - i,
        {
            if self.entries[i].0 == wanted {
                return Some(i);
            }
            i += 1;
        }
        None
    }

    /// Whether `key` is bound.
    pub fn contains_key(&self, key: &str) -> (r: bool)
        ensures
            r == self@.contains_key(key@),
    {
        self.position(key).is_some()
    }

    /// The value bound to `key`, if any.
    pub fn get(&self, key: &str) -> (r: Option<&V>)
        ensures
            match r {
                Some(value) => self@.contains_key(key@) && *value == self@[key@],
                None => !self@.contains_key(key@),
            },
    {
        match self.position(key) {
            Some(i) => Some(&self.entries[i].1),
            None => None,
        }
    }

    /// Binds `key` to `value`. A key that was bound keeps its place and
    /// hands back its former value; a new key goes to the end.
    pub fn insert(&mut self, key: String, value: V) -> (r: Option<V>)
        ensures
            final(self)@ == old(self)@.insert(key@, value),
            r == if old(self)@.contains_key(key@) {
                Some(old(self)@[key@])
            } else {
                None::<V>
            },
            final(self).keys() == if old(self)@.contains_key(key@) {
                old(self).keys()
            } else {
                old(self).keys().push(key@)
            },
            final(self).values() == if old(self)@.contains_key(key@) {
                old(self).values().update(old(self).keys().index_of(key@), value)
            } else {
                old(self).values().push(value)
            },
            final(self).consistent(),
    {
        match self.position(key.as_str()) {
            Some(i) => {
                proof {
                    use_type_invariant(&*self);
                    lemma_index_of_unique(self.keys(), i as int);
                }
                Some(self.replace(i, value))
            },
            None => {
                proof {
                    use_type_invariant(&*self);
                    lemma_bindings_push(self.keys(), self.values(), key@, value);
                }
                let mut entries: Vec<(String, V)> = Vec::new();
                std::mem::swap(&mut self.entries, &mut entries);
                entries.push((key, value));
                proof {
                    assert(keys_of(entries@) =~= old(self).keys().push(key@));
                    assert(values_of(entries@) =~= old(self).values().push(value));
                }
                self.entries = entries;
                proof {
                    self.lemma_consistent();
                }
                None
            },
        }
    }

    /// Puts `value` at place `i` and hands back the value that stood there.
    pub fn replace(&mut self, i: usize, value: V) -> (r: V)
        requires
            i < old(self).keys().len(),
        ensures
            r == old(self).values()[i as int],
            final(self).keys() == old(self).keys(),
            final(self).values() == old(self).values().update(i as int, value),
            final(self)@ == old(self)@.insert(old(self).keys()[i as int], value),
            final(self).consistent(),
    {
        proof {
            use_type_invariant(&*self);
            lemma_bindings_update(self.keys(), self.values(), i as int, value);
        }
        let mut entries: Vec<(String, V)> = Vec::new();
        std::mem::swap(&mut self.entries, &mut entries);
        let mut slot = value;
        std::mem::swap(&mut entries[i].1, &mut slot);
        proof {
            assert(keys_of(entries@) =~= old(self).keys());
            assert(values_of(entries@) =~= old(self).values().update(i as int, value));
        }
        self.entries = entries;
        proof {
            self.lemma_consistent();
        }
        slot
    }

    /// Removes the binding of `key` and hands back its value, if it was
    /// bound. The other keys keep their order.
    pub fn remove(&mut self, key: &str) -> (r: Option<V>)
        ensures
            final(self)@ == old(self)@.remove(key@),
            r == if old(self)@.contains_key(key@) {
                Some(old(self)@[key@])
            } else {
                None::<V>
            },
            match old(self).keys().index_of_first(key@) {
                Some(i) => final(self).keys() == old(self).keys().remove(i),
                None => final(self).keys() == old(self).keys(),
            },
            final(self).consistent(),
    {
        proof {
            old(self).keys().index_of_first_ensures(key@);
        }
        match self.position(key) {
            Some(i) => {
                proof {
                    use_type_invariant(&*self);
                    lemma_bindings_remove(self.keys(), self.values(), i as int);
                    lemma_index_of_unique(self.keys(), i as int);
                }
                let mut entries: Vec<(String, V)> = Vec::new();
                std::mem::swap(&mut self.entries, &mut entries);
                let (_, value) = entries.remove(i);
                proof {
                    assert(keys_of(entries@) =~= old(self).keys().remove(i as int));
                    assert(values_of(entries@) =~= old(self).values().remove(i as int));
                }
                self.entries = entries;
                proof {
                    self.lemma_consistent();
                }
                Some(value)
            },
            None => {
                assert(self@ =~= old(self)@.remove(key@));
                proof {
                    use_type_invariant(&*self);
                    self.lemma_consistent();
                }
                None
            },
        }
    }
}

/// The texts of a sequence of strings.
pub open spec fn texts(values: Seq<String>) -> Seq<Seq<char>> {
    Seq::new(values.len(), |i: int| values[i]@)
}

/// A map to texts as specifications see it: each value by its characters.
pub open spec fn text_map(map: Map<Seq<char>, String>) -> Map<Seq<char>, Seq<char>> {
    Map::new(|key: Seq<char>| map.contains_key(key), |key: Seq<char>| map[key]@)
}

} // verus!
