//! A map from names to values, kept as a list of entries.
use vstd::prelude::*;
use crate::ast::Identifier;

verus! {

/// The map that a list of entries stands for: each entry binds its name,
/// and a later entry overrides an earlier one of the same name.
pub open spec fn entries_map<V>(entries: Seq<(Identifier, V)>) -> Map<Seq<char>, V>
    decreases entries.len(),
{
    if entries.len() == 0 {
        Map::empty()
    } else {
        entries_map(entries.drop_last()).insert(entries.last().0@, entries.last().1)
    }
}

/// Replacing the value of the last entry of a name binds the name to the new
/// value and changes nothing else.
proof fn lemma_update_last_occurrence<V>(
    entries: Seq<(Identifier, V)>,
    i: int,
    name: Identifier,
    value: V,
)
    requires
        0 <= i < entries.len(),
        entries[i].0@ == name@,
        forall|j: int| i < j < entries.len() ==> entries[j].0@ != name@,
    ensures
        entries_map(entries.update(i, (name, value))) == entries_map(entries).insert(name@, value),
    decreases entries.len(),
{
    let updated = entries.update(i, (name, value));
    if i == entries.len() - 1 {
        assert(updated.drop_last() == entries.drop_last());
        assert(entries_map(updated) =~= entries_map(entries).insert(name@, value));
    } else {
        assert(updated.drop_last() == entries.drop_last().update(i, (name, value)));
        lemma_update_last_occurrence(entries.drop_last(), i, name, value);
        assert(updated.last() == entries.last());
        assert(entries_map(updated) =~= entries_map(entries).insert(name@, value));
    }
}

/// A finite map from names to values.
#[derive(Debug)]
pub struct Table<V> {
    entries: Vec<(Identifier, V)>,
}

impl<V> View for Table<V> {
    type V = Map<Seq<char>, V>;

    closed spec fn view(&self) -> Map<Seq<char>, V> {
        entries_map(self.entries@)
    }
}

impl<V> Table<V> {
    /// The empty table.
    pub fn new() -> (table: Self)
        ensures
            table@ == Map::<Seq<char>, V>::empty(),
    {
        Table { entries: Vec::new() }
    }

    /// The index of the last entry of the name, if the name is bound.
    fn position(&self, name: &Identifier) -> (found: Option<usize>)
        ensures
            match found {
                Some(i) => {
                    &&& i < self.entries@.len()
                    &&& self.entries@[i as int].0@ == name@
                    &&& forall|j: int| i < j < self.entries@.len() ==> self.entries@[j].0@ != name@
                    &&& self@.contains_key(name@)
                    &&& self@[name@] == self.entries@[i as int].1
                },
                None => !self@.contains_key(name@),
            },
    {
        let mut i: usize = self.entries.len();
        assert(self.entries@.take(i as int) == self.entries@);
        while i > 0
            invariant
                i <= self.entries@.len(),
                forall|j: int| i <= j < self.entries@.len() ==> self.entries@[j].0@ != name@,
                self@.contains_key(name@) == entries_map(self.entries@.take(i as int)).contains_key(
                    name@,
                ),
                self@.contains_key(name@) ==> self@[name@] == entries_map(
                    self.entries@.take(i as int),
                )[name@],
            decreases i,
        {
            i -= 1;
            proof {
                assert(self.entries@.take(i + 1).drop_last() == self.entries@.take(i as int));
                assert(self.entries@.take(i + 1).last() == self.entries@[i as int]);
            }
            if self.entries[i].0.same_as(name) {
                return Some(i);
            }
        }
        assert(self.entries@.take(0).len() == 0);
        None
    }

    /// Whether the name is bound.
    pub fn contains(&self, name: &Identifier) -> (bound: bool)
        ensures
            bound == self@.contains_key(name@),
    {
        self.position(name).is_some()
    }

    /// The value that the name is bound to.
    pub fn get(&self, name: &Identifier) -> (value: Option<&V>)
        ensures
            match value {
                Some(value) => self@.contains_key(name@) && *value == self@[name@],
                None => !self@.contains_key(name@),
            },
    {
        match self.position(name) {
            Some(i) => Some(&self.entries[i].1),
            None => None,
        }
    }

    /// Binds the name to the value, in place of what it was bound to.
    pub fn insert(&mut self, name: Identifier, value: V)
        ensures
            final(self)@ == old(self)@.insert(name@, value),
    {
        match self.position(&name) {
            Some(i) => {
                proof {
                    lemma_update_last_occurrence(self.entries@, i as int, name, value);
                }
                self.entries.set(i, (name, value));
            },
            None => {
                let ghost before = self.entries@;
                self.entries.push((name, value));
                assert(self.entries@.drop_last() == before);
            },
        }
    }
}

} // verus!
