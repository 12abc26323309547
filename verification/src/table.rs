//! A string-keyed table that remembers the order in which keys were added.

use vstd::prelude::*;
use vstd::hash_map::StringHashMap;

verus! {

/// A map from strings to values.  Lookup goes through a hash index; walking
/// the table goes through the entries in the order in which their keys were
/// first inserted.
pub struct Table<V> {
    keys: Vec<String>,
    vals: Vec<V>,
    index: StringHashMap<usize>,
}

/// The position of `key` in `entries`, counting from `from`, or the length.
pub open spec fn entry_position<V>(entries: Seq<(Seq<char>, V)>, key: Seq<char>, from: int) -> int
    decreases entries.len() - from,
{
    if from < 0 || from >= entries.len() {
        entries.len() as int
    } else if entries[from].0 == key {
        from
    } else {
        entry_position(entries, key, from + 1)
    }
}

/// No key stands twice in `entries`.
pub open spec fn distinct_keys<V>(entries: Seq<(Seq<char>, V)>) -> bool {
    forall|i: int, j: int|
        0 <= i < j < entries.len() ==> (#[trigger] entries[i]).0 != (#[trigger] entries[j]).0
}

/// The entries once `key` is bound to `value`: in place when the key is
/// present, at the end otherwise.
pub open spec fn entries_insert<V>(
    entries: Seq<(Seq<char>, V)>,
    key: Seq<char>,
    value: V,
) -> Seq<(Seq<char>, V)> {
    let p = entry_position(entries, key, 0);
    if p < entries.len() {
        entries.update(p, (key, value))
    } else {
        entries.push((key, value))
    }
}

/// The entries without `key`.
pub open spec fn entries_remove<V>(
    entries: Seq<(Seq<char>, V)>,
    key: Seq<char>,
) -> Seq<(Seq<char>, V)> {
    let p = entry_position(entries, key, 0);
    if p < entries.len() {
        entries.remove(p)
    } else {
        entries
    }
}

/// What the entries bind `key` to.
pub open spec fn entries_get<V>(entries: Seq<(Seq<char>, V)>, key: Seq<char>) -> Option<V> {
    let p = entry_position(entries, key, 0);
    if p < entries.len() {
        Some(entries[p].1)
    } else {
        None
    }
}

pub proof fn lemma_entry_position<V>(entries: Seq<(Seq<char>, V)>, key: Seq<char>, from: int)
    requires
        0 <= from <= entries.len(),
    ensures
        from <= entry_position(entries, key, from) <= entries.len(),
        entry_position(entries, key, from) < entries.len() ==> entries[entry_position(
            entries,
            key,
            from,
        )].0 == key,
        forall|i: int|
            from <= i < entry_position(entries, key, from) ==> (#[trigger] entries[i]).0 != key,
    decreases entries.len() - from,
{
    if from < entries.len() && entries[from].0 != key {
        lemma_entry_position(entries, key, from + 1);
    }
}

/// A position that holds `key`, with distinct keys, is the position of `key`.
pub proof fn lemma_entry_position_at<V>(entries: Seq<(Seq<char>, V)>, i: int)
    requires
        0 <= i < entries.len(),
        distinct_keys(entries),
    ensures
        entry_position(entries, entries[i].0, 0) == i,
{
    lemma_entry_position(entries, entries[i].0, 0);
    let p = entry_position(entries, entries[i].0, 0);
    if p < i {
        assert(entries[p].0 != entries[i].0);
    } else if p > i {
        assert(entries[i].0 != entries[i].0);
    }
}

/// A key that no entry holds has no position.
pub proof fn lemma_entry_absent<V>(entries: Seq<(Seq<char>, V)>, key: Seq<char>)
    requires
        forall|i: int| 0 <= i < entries.len() ==> (#[trigger] entries[i]).0 != key,
    ensures
        entry_position(entries, key, 0) == entries.len(),
{
    lemma_entry_position(entries, key, 0);
}

impl<V> Table<V> {
    spec fn indexed(keys: Seq<String>, vals: Seq<V>, index: Map<Seq<char>, usize>) -> bool {
        &&& keys.len() == vals.len()
        &&& forall|i: int|
            0 <= i < keys.len() ==> index.contains_key((#[trigger] keys[i])@) && index[keys[i]@]
                == i
        &&& forall|k: Seq<char>| #[trigger]
            index.contains_key(k) ==> index[k] < keys.len() && keys[index[k] as int]@ == k
    }

    #[verifier::type_invariant]
    spec fn inv(self) -> bool {
        Self::indexed(self.keys@, self.vals@, self.index@)
    }

    /// The entries in insertion order.
    pub closed spec fn entries(&self) -> Seq<(Seq<char>, V)> {
        Seq::new(self.keys@.len(), |i: int| (self.keys@[i]@, self.vals@[i]))
    }

    /// What the table binds `key` to.
    pub open spec fn lookup(&self, key: Seq<char>) -> Option<V> {
        entries_get(self.entries(), key)
    }

    /// The table as a map.
    pub open spec fn map(&self) -> Map<Seq<char>, V> {
        Map::new(|k: Seq<char>| self.lookup(k) is Some, |k: Seq<char>| self.lookup(k)->0)
    }

    proof fn lemma_indexed(&self)
        requires
            self.inv(),
        ensures
            distinct_keys(self.entries()),
            forall|k: Seq<char>|
                #![trigger self.index@.contains_key(k)]
                self.index@.contains_key(k) ==> entry_position(self.entries(), k, 0)
                    == self.index@[k] as int,
            forall|k: Seq<char>|
                #![trigger self.index@.contains_key(k)]
                !self.index@.contains_key(k) ==> entry_position(self.entries(), k, 0)
                    == self.entries().len(),
    {
        let e = self.entries();
        assert forall|i: int, j: int| 0 <= i < j < e.len() implies (#[trigger] e[i]).0 != (
        #[trigger] e[j]).0 by {
            assert(self.index@[self.keys@[i]@] == i);
            assert(self.index@[self.keys@[j]@] == j);
        }
        assert forall|k: Seq<char>| #[trigger] self.index@.contains_key(k) implies entry_position(
            e,
            k,
            0,
        ) == self.index@[k] as int by {
            lemma_entry_position_at(e, self.index@[k] as int);
        }
        assert forall|k: Seq<char>| !(#[trigger] self.index@.contains_key(k)) implies entry_position(
            e,
            k,
            0,
        ) == e.len() by {
            assert forall|i: int| 0 <= i < e.len() implies (#[trigger] e[i]).0 != k by {
                assert(self.index@.contains_key(self.keys@[i]@));
            }
            lemma_entry_absent(e, k);
        }
    }

    pub fn new() -> (r: Self)
        ensures
            r.entries() == Seq::<(Seq<char>, V)>::empty(),
            r.map() == Map::<Seq<char>, V>::empty(),
    {
        let r = Table { keys: Vec::new(), vals: Vec::new(), index: StringHashMap::new() };
        assert(r.entries() =~= Seq::<(Seq<char>, V)>::empty());
        assert(r.map() =~= Map::<Seq<char>, V>::empty());
        r
    }

    /// The number of keys, no two of which are equal.
    pub fn len(&self) -> (r: usize)
        ensures
            r == self.entries().len(),
            distinct_keys(self.entries()),
    {
        proof {
            use_type_invariant(self);
            self.lemma_indexed();
        }
        self.keys.len()
    }

    /// The position of `key` among the entries.
    pub fn position(&self, key: &str) -> (r: Option<usize>)
        ensures
            match r {
                Some(i) => i == entry_position(self.entries(), key@, 0) && i
                    < self.entries().len() && self.entries()[i as int].0 == key@,
                None => entry_position(self.entries(), key@, 0) == self.entries().len(),
            },
            distinct_keys(self.entries()),
    {
        proof {
            use_type_invariant(self);
            self.lemma_indexed();
        }
        match self.index.get(key) {
            Some(i) => Some(*i),
            None => None,
        }
    }

    pub fn contains_key(&self, key: &str) -> (r: bool)
        ensures
            r == (self.lookup(key@) is Some),
    {
        proof {
            use_type_invariant(self);
            self.lemma_indexed();
        }
        self.index.contains_key(key)
    }

    pub fn get(&self, key: &str) -> (r: Option<&V>)
        ensures
            match r {
                Some(v) => self.lookup(key@) == Some(*v) && self.map().contains_key(key@)
                    && self.map()[key@] == *v,
                None => self.lookup(key@) is None && !self.map().contains_key(key@),
            },
    {
        match self.position(key) {
            Some(i) => {
                proof {
                    use_type_invariant(self);
                }
                Some(&self.vals[i])
            },
            None => None,
        }
    }

    pub fn key_at(&self, i: usize) -> (r: &String)
        requires
            i < self.entries().len(),
        ensures
            r@ == self.entries()[i as int].0,
    {
        proof {
            use_type_invariant(self);
        }
        &self.keys[i]
    }

    pub fn value_at(&self, i: usize) -> (r: &V)
        requires
            i < self.entries().len(),
        ensures
            *r == self.entries()[i as int].1,
    {
        proof {
            use_type_invariant(self);
        }
        &self.vals[i]
    }

    /// Binds `key` to `value`, keeping the key's place when it is present.
    pub fn insert(&mut self, key: String, value: V)
        ensures
            final(self).entries() == entries_insert(old(self).entries(), key@, value),
            final(self).map() == old(self).map().insert(key@, value),
            distinct_keys(final(self).entries()),
    {
        let mut whole = Table::new();
        std::mem::swap(self, &mut whole);
        proof {
            use_type_invariant(&whole);
            whole.lemma_indexed();
        }
        let ghost before = whole;
        let Table { mut keys, mut vals, mut index } = whole;
        let found: Option<usize> = match index.get(key.as_str()) {
            Some(i) => Some(*i),
            None => None,
        };
        match found {
            Some(i) => {
                vals.set(i, value);
            },
            None => {
                let n: usize = keys.len();
                index.insert(key.clone(), n);
                keys.push(key);
                vals.push(value);
                proof {
                    assert forall|i: int| 0 <= i < keys@.len() implies index@.contains_key(
                        (#[trigger] keys@[i])@,
                    ) && index@[keys@[i]@] == i by {
                        if i < n {
                            assert(before.index@.contains_key(before.keys@[i]@));
                        }
                    }
                }
            },
        }
        *self = Table { keys, vals, index };
        proof {
            self.lemma_indexed();
            assert(self.entries() =~= entries_insert(before.entries(), key@, value));
            assert forall|k: Seq<char>| self.lookup(k) == (if k == key@ {
                Some(value)
            } else {
                before.lookup(k)
            }) by {
                law_insert_get(before.entries(), key@, value, k);
            }
            assert(self.map() =~= before.map().insert(key@, value));
        }
    }

    /// Puts `value` into the `i`-th entry and hands back what was there.
    pub fn replace_at(&mut self, i: usize, value: V) -> (r: V)
        requires
            i < old(self).entries().len(),
        ensures
            r == old(self).entries()[i as int].1,
            final(self).entries() == old(self).entries().update(
                i as int,
                (old(self).entries()[i as int].0, value),
            ),
            final(self).map() == old(self).map().insert(
                old(self).entries()[i as int].0,
                value,
            ),
            old(self).lookup(old(self).entries()[i as int].0) == Some(r),
    {
        let mut whole = Table::new();
        std::mem::swap(self, &mut whole);
        proof {
            use_type_invariant(&whole);
            whole.lemma_indexed();
        }
        let ghost before = whole;
        let Table { keys, mut vals, index } = whole;
        let mut slot = value;
        vals.set_and_swap(i, &mut slot);
        *self = Table { keys, vals, index };
        assert(self.entries() =~= before.entries().update(
            i as int,
            (before.entries()[i as int].0, value),
        ));
        proof {
            let key = before.entries()[i as int].0;
            lemma_entry_position_at(before.entries(), i as int);
            assert(self.entries() =~= entries_insert(before.entries(), key, value));
            assert forall|k: Seq<char>| self.lookup(k) == (if k == key {
                Some(value)
            } else {
                before.lookup(k)
            }) by {
                law_insert_get(before.entries(), key, value, k);
            }
            assert(self.map() =~= before.map().insert(key, value));
        }
        slot
    }

    /// Takes `key` out of the table.
    pub fn remove(&mut self, key: &str) -> (r: Option<V>)
        ensures
            r == old(self).lookup(key@),
            final(self).entries() == entries_remove(old(self).entries(), key@),
            final(self).map() == old(self).map().remove(key@),
            distinct_keys(final(self).entries()),
    {
        let mut whole = Table::new();
        std::mem::swap(self, &mut whole);
        proof {
            use_type_invariant(&whole);
            whole.lemma_indexed();
        }
        let ghost before = whole;
        let Table { mut keys, mut vals, mut index } = whole;
        let found: Option<usize> = match index.get(key) {
            Some(i) => Some(*i),
            None => None,
        };
        let r = match found {
            Some(i) => {
                keys.remove(i);
                let out = vals.remove(i);
                index.clear();
                let mut j: usize = 0;
                while j < keys.len()
                    invariant
                        j <= keys.len(),
                        keys@ == before.keys@.remove(i as int),
                        i < before.keys@.len(),
                        Self::indexed(before.keys@, before.vals@, before.index@),
                        forall|a: int|
                            0 <= a < j ==> index@.contains_key((#[trigger] keys@[a])@)
                                && index@[keys@[a]@] == a,
                        forall|k: Seq<char>| #[trigger]
                            index@.contains_key(k) ==> index@[k] < j && keys@[index@[k] as int]@
                                == k,
                    decreases keys.len() - j,
                {
                    proof {
                        assert forall|a: int| 0 <= a < j implies (#[trigger] keys@[a])@
                            != keys@[j as int]@ by {
                            let a0: int = if a < i {
                                a
                            } else {
                                a + 1
                            };
                            let j0: int = if j < i {
                                j as int
                            } else {
                                j + 1
                            };
                            assert(before.index@[before.keys@[a0]@] == a0);
                            assert(before.index@[before.keys@[j0]@] == j0);
                        }
                    }
                    index.insert(keys[j].clone(), j);
                    j = j + 1;
                }
                Some(out)
            },
            None => None,
        };
        *self = Table { keys, vals, index };
        proof {
            self.lemma_indexed();
            assert(self.entries() =~= entries_remove(before.entries(), key@));
            assert forall|k: Seq<char>| self.lookup(k) == (if k == key@ {
                None
            } else {
                before.lookup(k)
            }) by {
                law_remove_get(before.entries(), key@, k);
            }
            assert(self.map() =~= before.map().remove(key@));
        }
        r
    }
}

/// Looking a key up gives back what was last bound to it, and binding one key
/// leaves the others alone.
pub proof fn law_insert_get<V>(
    entries: Seq<(Seq<char>, V)>,
    key: Seq<char>,
    value: V,
    other: Seq<char>,
)
    requires
        distinct_keys(entries),
    ensures
        entries_get(entries_insert(entries, key, value), key) == Some(value),
        other != key ==> entries_get(entries_insert(entries, key, value), other) == entries_get(
            entries,
            other,
        ),
        distinct_keys(entries_insert(entries, key, value)),
{
    let after = entries_insert(entries, key, value);
    let p = entry_position(entries, key, 0);
    lemma_entry_position(entries, key, 0);
    assert forall|i: int, j: int| 0 <= i < j < after.len() implies (#[trigger] after[i]).0 != (
    #[trigger] after[j]).0 by {
        if i < entries.len() {
            let ei = entries[i];
            if j < entries.len() {
                let ej = entries[j];
            }
        }
    }
    if p < entries.len() {
        assert(after[p].0 == key);
        lemma_entry_position_at(after, p);
    } else {
        assert(after[entries.len() as int].0 == key);
        lemma_entry_position_at(after, entries.len() as int);
    }
    if other != key {
        lemma_entry_position(entries, other, 0);
        let q = entry_position(entries, other, 0);
        if q < entries.len() {
            assert(after[q] == entries[q]);
            lemma_entry_position_at(after, q);
        } else {
            assert forall|i: int| 0 <= i < after.len() implies (#[trigger] after[i]).0 != other by {
                if i < entries.len() {
                    let ei = entries[i];
                }
            }
            lemma_entry_absent(after, other);
        }
    }
}

/// A removed key is gone, and the others are still bound as they were.
pub proof fn law_remove_get<V>(entries: Seq<(Seq<char>, V)>, key: Seq<char>, other: Seq<char>)
    requires
        distinct_keys(entries),
    ensures
        entries_get(entries_remove(entries, key), key) is None,
        other != key ==> entries_get(entries_remove(entries, key), other) == entries_get(
            entries,
            other,
        ),
        distinct_keys(entries_remove(entries, key)),
{
    let after = entries_remove(entries, key);
    let p = entry_position(entries, key, 0);
    lemma_entry_position(entries, key, 0);
    if p < entries.len() {
        assert forall|i: int, j: int| 0 <= i < j < after.len() implies (#[trigger] after[i]).0 != (
        #[trigger] after[j]).0 by {
            let i0: int = if i < p {
                i
            } else {
                i + 1
            };
            let j0: int = if j < p {
                j
            } else {
                j + 1
            };
            assert(entries[i0].0 != entries[j0].0);
        }
        assert forall|i: int| 0 <= i < after.len() implies (#[trigger] after[i]).0 != key by {
            let i0: int = if i < p {
                i
            } else {
                i + 1
            };
            if i0 < p {
                assert(entries[i0].0 != entries[p].0);
            } else {
                assert(entries[p].0 != entries[i0].0);
            }
        }
        lemma_entry_absent(after, key);
        if other != key {
            lemma_entry_position(entries, other, 0);
            let q = entry_position(entries, other, 0);
            if q < entries.len() {
                let q1: int = if q < p {
                    q
                } else {
                    q - 1
                };
                assert(after[q1] == entries[q]);
                lemma_entry_position_at(after, q1);
            } else {
                assert forall|i: int| 0 <= i < after.len() implies (#[trigger] after[i]).0
                    != other by {
                    let i0: int = if i < p {
                        i
                    } else {
                        i + 1
                    };
                    assert(entries[i0].0 != other);
                }
                lemma_entry_absent(after, other);
            }
        }
    }
}

} // verus!
