//! A small map keyed by node name.
//!
//! The entries are kept in a list. Where a name occurs more than once, the
//! first entry is the one that counts, so the map needs no invariant.

use vstd::prelude::*;

verus! {

/// The map that a list of entries stands for: each name leads to the value of
/// its first entry.
pub open spec fn entries_map<V>(entries: Seq<(String, V)>) -> Map<Seq<char>, V>
    decreases entries.len(),
{
    if entries.len() == 0 {
        Map::empty()
    } else {
        entries_map(entries.drop_first()).insert(entries[0].0@, entries[0].1)
    }
}

/// No entry before position `upto` has the name `name`.
pub open spec fn absent_before<V>(entries: Seq<(String, V)>, name: Seq<char>, upto: int) -> bool {
    forall|j: int| 0 <= j < upto && j < entries.len() ==> (#[trigger] entries[j]).0@ != name
}

/// A name that no entry has is not in the map.
pub proof fn lemma_absent<V>(entries: Seq<(String, V)>, name: Seq<char>)
    requires
        absent_before(entries, name, entries.len() as int),
    ensures
        !entries_map(entries).contains_key(name),
    decreases entries.len(),
{
    if entries.len() > 0 {
        let rest = entries.drop_first();
        assert forall|j: int| 0 <= j < rest.len() implies (#[trigger] rest[j]).0@ != name by {
            assert(rest[j] == entries[j + 1]);
        }
        lemma_absent(rest, name);
        assert(entries[0].0@ != name);
    }
}

/// The first entry with a name is the one the map shows.
pub proof fn lemma_first<V>(entries: Seq<(String, V)>, i: int)
    requires
        0 <= i < entries.len(),
        absent_before(entries, entries[i].0@, i),
    ensures
        entries_map(entries).contains_key(entries[i].0@),
        entries_map(entries)[entries[i].0@] == entries[i].1,
    decreases i,
{
    if i > 0 {
        let rest = entries.drop_first();
        assert(rest[i - 1] == entries[i]);
        assert forall|j: int| 0 <= j < i - 1 && j < rest.len() implies (#[trigger] rest[j]).0@
            != entries[i].0@ by {
            assert(rest[j] == entries[j + 1]);
        }
        lemma_first(rest, i - 1);
        assert(entries[0].0@ != entries[i].0@);
    }
}

/// Replacing the value of the first entry with a name replaces it in the map.
pub proof fn lemma_replace<V>(entries: Seq<(String, V)>, i: int, entry: (String, V))
    requires
        0 <= i < entries.len(),
        entries[i].0@ == entry.0@,
        absent_before(entries, entry.0@, i),
    ensures
        entries_map(entries.update(i, entry)) == entries_map(entries).insert(entry.0@, entry.1),
    decreases i,
{
    let after = entries.update(i, entry);
    if i == 0 {
        assert(after.drop_first() =~= entries.drop_first());
        assert(entries_map(after) =~= entries_map(entries).insert(entry.0@, entry.1));
    } else {
        let rest = entries.drop_first();
        assert(rest[i - 1] == entries[i]);
        assert forall|j: int| 0 <= j < i - 1 && j < rest.len() implies (#[trigger] rest[j]).0@
            != entry.0@ by {
            assert(rest[j] == entries[j + 1]);
        }
        lemma_replace(rest, i - 1, entry);
        assert(after.drop_first() =~= rest.update(i - 1, entry));
        assert(entries[0].0@ != entry.0@);
        assert(after[0] == entries[0]);
        assert(entries_map(after) =~= entries_map(entries).insert(entry.0@, entry.1));
    }
}

/// Adding an entry under a new name adds it to the map.
pub proof fn lemma_append<V>(entries: Seq<(String, V)>, entry: (String, V))
    requires
        absent_before(entries, entry.0@, entries.len() as int),
    ensures
        entries_map(entries.push(entry)) == entries_map(entries).insert(entry.0@, entry.1),
    decreases entries.len(),
{
    let after = entries.push(entry);
    if entries.len() == 0 {
        assert(after.drop_first() =~= entries);
        assert(entries_map(after) =~= entries_map(entries).insert(entry.0@, entry.1));
    } else {
        let rest = entries.drop_first();
        assert forall|j: int| 0 <= j < rest.len() implies (#[trigger] rest[j]).0@ != entry.0@ by {
            assert(rest[j] == entries[j + 1]);
        }
        lemma_append(rest, entry);
        assert(after.drop_first() =~= rest.push(entry));
        assert(entries[0].0@ != entry.0@);
        assert(after[0] == entries[0]);
        assert(entries_map(after) =~= entries_map(entries).insert(entry.0@, entry.1));
    }
}

/// A map from node names to values.
#[derive(Debug, Clone)]
pub struct NameMap<V> {
    pub entries: Vec<(String, V)>,
}

impl<V> View for NameMap<V> {
    type V = Map<Seq<char>, V>;

    open spec fn view(&self) -> Map<Seq<char>, V> {
        entries_map(self.entries@)
    }
}

impl<V> NameMap<V> {
    /// A map without names.
    pub fn new() -> (map: Self)
        ensures
            map.entries@.len() == 0,
            map@.dom() == Set::<Seq<char>>::empty(),
    {
        let map = NameMap { entries: Vec::new() };
        assert(map@.dom() =~= Set::<Seq<char>>::empty());
        map
    }

    /// Where the entry that counts for `name` is, if the map has the name.
    pub fn position(&self, name: &String) -> (found: Option<usize>)
        ensures
            match found {
                Some(i) => {
                    &&& i < self.entries@.len()
                    &&& self.entries@[i as int].0@ == name@
                    &&& absent_before(self.entries@, name@, i as int)
                    &&& self@.contains_key(name@)
                    &&& self@[name@] == self.entries@[i as int].1
                },
                None => {
                    &&& absent_before(self.entries@, name@, self.entries@.len() as int)
                    &&& !self@.contains_key(name@)
                },
            },
    {
        let mut i: usize = 0;
        while i < self.entries.len()
            invariant
                i <= self.entries@.len(),
                absent_before(self.entries@, name@, i as int),
            decreases self.entries@.len() - i,
        {
            if self.entries[i].0 == *name {
                proof {
                    lemma_first(self.entries@, i as int);
                }
                return Some(i);
            }
            i += 1;
        }
        proof {
            lemma_absent(self.entries@, name@);
        }
        None
    }

    /// The value under `name`, if the map has the name.
    pub fn get(&self, name: &String) -> (found: Option<&V>)
        ensures
            match found {
                Some(value) => self@.contains_key(name@) && self@[name@] == *value,
                None => !self@.contains_key(name@),
            },
    {
        match self.position(name) {
            Some(i) => Some(&self.entries[i].1),
            None => None,
        }
    }

    /// Puts `value` under `name`, in place of what was there.
    pub fn insert(&mut self, name: String, value: V)
        ensures
            final(self)@ == old(self)@.insert(name@, value),
    {
        match self.position(&name) {
            Some(i) => {
                proof {
                    lemma_replace(self.entries@, i as int, (name, value));
                }
                self.entries.set(i, (name, value));
            },
            None => {
                proof {
                    lemma_append(self.entries@, (name, value));
                }
                self.entries.push((name, value));
            },
        }
    }
}

} // verus!
