//! The attributes of a distinguished name: a map from attribute types to values.

use vstd::prelude::*;

verus! {

/// A finite map from attribute types to attribute values, both strings.
///
/// No type is held twice: inserting a type that is present replaces its value.
#[derive(Debug)]
pub struct AttributeMap {
    entries: Vec<(String, String)>,
}

/// The types of a sequence of entries, in their order.
spec fn entry_keys(entries: Seq<(String, String)>) -> Seq<Seq<char>> {
    Seq::new(entries.len(), |i: int| entries[i].0@)
}

/// The map from the type of each entry to its value. Where a type stands in
/// one entry only, that entry gives its value.
spec fn entry_map(entries: Seq<(String, String)>) -> Map<Seq<char>, Seq<char>> {
    Map::new(
        |key: Seq<char>| entry_keys(entries).contains(key),
        |key: Seq<char>| entries[entry_keys(entries).index_of(key)].1@,
    )
}

/// Where no type stands twice, each entry is what the map holds for its type.
proof fn lemma_entry(entries: Seq<(String, String)>, i: int)
    requires
        entry_keys(entries).no_duplicates(),
        0 <= i < entries.len(),
    ensures
        entry_map(entries).contains_key(entries[i].0@),
        entry_map(entries)[entries[i].0@] == entries[i].1@,
{
    let keys = entry_keys(entries);
    let key = entries[i].0@;
    assert(keys[i] == key);
    assert(keys.contains(key));
    assert(keys[keys.index_of(key)] == key);
}

/// Replacing the value of the entry at `i` sets the value of its type.
proof fn lemma_replace(entries: Seq<(String, String)>, i: int, entry: (String, String))
    requires
        entry_keys(entries).no_duplicates(),
        0 <= i < entries.len(),
        entry.0@ == entries[i].0@,
    ensures
        entry_keys(entries.update(i, entry)) == entry_keys(entries),
        entry_map(entries.update(i, entry)) == entry_map(entries).insert(entry.0@, entry.1@),
{
    let after = entries.update(i, entry);
    assert(entry_keys(after) =~= entry_keys(entries));
    lemma_entry(after, i);
    assert forall|key: Seq<char>| #[trigger] entry_map(entries).contains_key(key) && key != entry.0@
        implies entry_map(after)[key] == entry_map(entries)[key] by {
        let j = entry_keys(entries).index_of(key);
        assert(entry_keys(entries)[j] == key);
        assert(j != i);
    }
    assert(entry_map(after) =~= entry_map(entries).insert(entry.0@, entry.1@));
}

/// Adding an entry with a type that is not yet held sets the value of that type.
proof fn lemma_append(entries: Seq<(String, String)>, entry: (String, String))
    requires
        entry_keys(entries).no_duplicates(),
        !entry_keys(entries).contains(entry.0@),
    ensures
        entry_keys(entries.push(entry)) == entry_keys(entries).push(entry.0@),
        entry_keys(entries.push(entry)).no_duplicates(),
        entry_map(entries.push(entry)) == entry_map(entries).insert(entry.0@, entry.1@),
{
    let after = entries.push(entry);
    let n = entries.len() as int;
    assert(entry_keys(after) =~= entry_keys(entries).push(entry.0@));
    assert forall|a: int, b: int| 0 <= a < after.len() && 0 <= b < after.len() && a != b
        implies entry_keys(after)[a] != entry_keys(after)[b] by {
        if a < n {
            assert(entry_keys(entries)[a] == entry_keys(after)[a]);
        }
        if b < n {
            assert(entry_keys(entries)[b] == entry_keys(after)[b]);
        }
    }
    lemma_entry(after, n);
    assert forall|key: Seq<char>| #[trigger] entry_map(entries).contains_key(key)
        implies entry_map(after).contains_key(key) && entry_map(after)[key] == entry_map(
        entries,
    )[key] by {
        let j = entry_keys(entries).index_of(key);
        assert(entry_keys(entries)[j] == key);
        assert(after[j] == entries[j]);
        lemma_entry(after, j);
    }
    assert forall|key: Seq<char>| #[trigger] entry_map(after).contains_key(key) && key != entry.0@
        implies entry_map(entries).contains_key(key) by {
        let j = entry_keys(after).index_of(key);
        assert(entry_keys(after)[j] == key);
        assert(entry_keys(entries)[j] == key);
    }
    assert(entry_map(after) =~= entry_map(entries).insert(entry.0@, entry.1@));
}

impl View for AttributeMap {
    type V = Map<Seq<char>, Seq<char>>;

    /// The map from each type held to its value.
    closed spec fn view(&self) -> Map<Seq<char>, Seq<char>> {
        entry_map(self.entries@)
    }
}

impl Clone for AttributeMap {
    /// A map that holds the same attributes.
    fn clone(&self) -> (copy: AttributeMap)
        ensures
            copy@ == self@,
    {
        proof {
            use_type_invariant(self);
        }
        let mut entries: Vec<(String, String)> = Vec::new();
        let mut i: usize = 0;
        while i < self.entries.len()
            invariant
                i <= self.entries@.len(),
                entries@.len() == i,
                forall|j: int|
                    0 <= j < i ==> (#[trigger] entries@[j]).0@ == self.entries@[j].0@
                        && entries@[j].1@ == self.entries@[j].1@,
            decreases self.entries@.len() - i,
        {
            entries.push((self.entries[i].0.clone(), self.entries[i].1.clone()));
            i += 1;
        }
        proof {
            assert(entry_keys(entries@) =~= entry_keys(self.entries@));
            assert(entry_map(entries@) =~= entry_map(self.entries@));
        }
        AttributeMap { entries }
    }
}

impl AttributeMap {
    #[verifier::type_invariant]
    spec fn well_formed(&self) -> bool {
        entry_keys(self.entries@).no_duplicates()
    }

    /// An empty map.
    pub fn new() -> (m: AttributeMap)
        ensures
            m@ == Map::<Seq<char>, Seq<char>>::empty(),
    {
        let m = AttributeMap { entries: Vec::new() };
        assert(m@ =~= Map::<Seq<char>, Seq<char>>::empty());
        m
    }

    /// The number of attributes.
    pub fn len(&self) -> (n: usize)
        ensures
            self@.dom().finite(),
            n == self@.len(),
    {
        proof {
            use_type_invariant(self);
            let keys = entry_keys(self.entries@);
            assert(self@.dom() =~= keys.to_set());
            vstd::seq_lib::seq_to_set_is_finite(keys);
            keys.unique_seq_to_set();
        }
        self.entries.len()
    }

    /// The index of the entry with the type `key`, if there is one.
    fn position(&self, key: &String) -> (r: Option<usize>)
        ensures
            match r {
                Some(i) => i < self.entries@.len() && self.entries@[i as int].0@ == key@,
                None => !entry_keys(self.entries@).contains(key@),
            },
    {
        let mut i: usize = 0;
        while i < self.entries.len()
            invariant
                i <= self.entries@.len(),
                forall|j: int| 0 <= j < i ==> entry_keys(self.entries@)[j] != key@,
            decreases self.entries@.len() - i,
        {
            if self.entries[i].0 == *key {
                return Some(i);
            }
            i += 1;
        }
        None
    }

    /// The value of the attribute with the type `key`, if the map holds one.
    /// Types are compared character by character: `cn` is not `CN`.
    pub fn get(&self, key: &str) -> (r: Option<&String>)
        ensures
            match r {
                Some(value) => self@.contains_key(key@) && value@ == self@[key@],
                None => !self@.contains_key(key@),
            },
    {
        let owned = key.to_owned();
        match self.position(&owned) {
            Some(i) => {
                proof {
                    use_type_invariant(self);
                    lemma_entry(self.entries@, i as int);
                }
                Some(&self.entries[i].1)
            },
            None => None,
        }
    }

    /// Whether the map holds an attribute with the type `key`.
    pub fn contains_key(&self, key: &str) -> (b: bool)
        ensures
            b == self@.contains_key(key@),
    {
        self.get(key).is_some()
    }

    /// The attributes, each once, in no particular order.
    pub fn as_slice(&self) -> (entries: &[(String, String)])
        ensures
            entries@.len() == self@.len(),
            forall|i: int|
                0 <= i < entries@.len() ==> self@.contains_key((#[trigger] entries@[i]).0@)
                    && self@[entries@[i].0@] == entries@[i].1@,
            forall|i: int, j: int|
                0 <= i < j < entries@.len() ==> (#[trigger] entries@[i]).0@ != (
                #[trigger] entries@[j]).0@,
    {
        proof {
            use_type_invariant(self);
            let keys = entry_keys(self.entries@);
            assert(self@.dom() =~= keys.to_set());
            keys.unique_seq_to_set();
            assert forall|i: int| 0 <= i < self.entries@.len() implies self@.contains_key(
                (#[trigger] self.entries@[i]).0@,
            ) && self@[self.entries@[i].0@] == self.entries@[i].1@ by {
                lemma_entry(self.entries@, i);
            }
            assert forall|i: int, j: int| 0 <= i < j < self.entries@.len() implies (
            #[trigger] self.entries@[i]).0@ != (#[trigger] self.entries@[j]).0@ by {
                assert(entry_keys(self.entries@)[i] != entry_keys(self.entries@)[j]);
            }
        }
        self.entries.as_slice()
    }

    /// Sets the value of the attribute with the type `key` to `value`,
    /// whether or not the map held that type before.
    pub fn insert(&mut self, key: String, value: String)
        ensures
            final(self)@ == old(self)@.insert(key@, value@),
    {
        proof {
            use_type_invariant(&*self);
        }
        let found = self.position(&key);
        // The entries leave the map while they change, so that the map never
        // holds a type twice.
        let mut entries: Vec<(String, String)> = Vec::new();
        core::mem::swap(&mut self.entries, &mut entries);
        let ghost before = entries@;
        match found {
            Some(i) => {
                proof {
                    lemma_replace(before, i as int, (key, value));
                }
                entries.set(i, (key, value));
            },
            None => {
                proof {
                    lemma_append(before, (key, value));
                }
                entries.push((key, value));
            },
        }
        self.entries = entries;
    }
}

} // verus!
