//! What is held of the open documents, by their addresses.
//!
//! Under each address the store holds one value, a text or a whole
//! document. A new value takes the place of the old one in one step.

use vstd::prelude::*;
use vstd::string::*;
use crate::parser::text_eq;

verus! {

/// What a list of addresses and values holds: each address with the value
/// that comes last under it.
pub open spec fn held_by<T>(entries: Seq<(String, T)>) -> Map<Seq<char>, T>
    decreases entries.len(),
{
    if entries.len() == 0 {
        Map::empty()
    } else {
        held_by(entries.drop_last()).insert(entries.last().0@, entries.last().1)
    }
}

/// Whether entry `at` is the last one under its address.
pub open spec fn is_last<T>(entries: Seq<(String, T)>, at: int) -> bool {
    &&& 0 <= at < entries.len()
    &&& forall|j: int| at < j < entries.len() ==> (#[trigger] entries[j]).0@ != entries[at].0@
}

/// An address that stands in no entry holds nothing.
proof fn lemma_absent<T>(entries: Seq<(String, T)>, uri: Seq<char>)
    requires
        forall|i: int| 0 <= i < entries.len() ==> (#[trigger] entries[i]).0@ != uri,
    ensures
        !held_by(entries).contains_key(uri),
    decreases entries.len(),
{
    if entries.len() > 0 {
        let before = entries.drop_last();
        assert forall|i: int| 0 <= i < before.len() implies (#[trigger] before[i]).0@ != uri by {
            assert(before[i] == entries[i]);
        }
        lemma_absent(before, uri);
    }
}

/// An address holds the value of the last entry under it.
proof fn lemma_present<T>(entries: Seq<(String, T)>, at: int)
    requires
        is_last(entries, at),
    ensures
        held_by(entries).contains_key(entries[at].0@),
        held_by(entries)[entries[at].0@] == entries[at].1,
    decreases entries.len(),
{
    let before = entries.drop_last();
    if at < entries.len() - 1 {
        assert(before[at] == entries[at]);
        assert forall|j: int| at < j < before.len() implies (#[trigger] before[j]).0@
            != before[at].0@ by {
            assert(before[j] == entries[j]);
        }
        lemma_present(before, at);
        assert(entries[entries.len() - 1].0@ != entries[at].0@);
    }
}

/// A new value in the place of the last entry under an address is a new
/// value under that address.
proof fn lemma_replaced<T>(entries: Seq<(String, T)>, at: int, entry: (String, T))
    requires
        is_last(entries, at),
        entry.0@ == entries[at].0@,
    ensures
        held_by(entries.update(at, entry)) == held_by(entries).insert(entry.0@, entry.1),
    decreases entries.len(),
{
    let after = entries.update(at, entry);
    let before = entries.drop_last();
    if at == entries.len() - 1 {
        assert(after.drop_last() =~= before);
        assert(held_by(after) =~= held_by(entries).insert(entry.0@, entry.1));
    } else {
        assert(before[at] == entries[at]);
        assert forall|j: int| at < j < before.len() implies (#[trigger] before[j]).0@
            != before[at].0@ by {
            assert(before[j] == entries[j]);
        }
        lemma_replaced(before, at, entry);
        assert(after.drop_last() =~= before.update(at, entry));
        assert(after.last() == entries.last());
        assert(entries[entries.len() - 1].0@ != entries[at].0@);
        assert(held_by(after) =~= held_by(entries).insert(entry.0@, entry.1));
    }
}

/// What is held of the open documents, by their addresses.
#[derive(Debug)]
pub struct Buffers<T> {
    /// Each address with what is held under it.
    entries: Vec<(String, T)>,
}

impl<T> View for Buffers<T> {
    type V = Map<Seq<char>, T>;

    closed spec fn view(&self) -> Map<Seq<char>, T> {
        held_by(self.entries@)
    }
}

impl<T> Buffers<T> {
    /// The store of no document.
    pub fn new() -> (store: Buffers<T>)
        ensures
            store@ == Map::<Seq<char>, T>::empty(),
    {
        Buffers { entries: Vec::new() }
    }

    /// The place of the last entry under an address, if there is one.
    fn find(&self, uri: &str) -> (r: Option<usize>)
        ensures
            match r {
                Some(at) => is_last(self.entries@, at as int) && self.entries[at as int].0@ == uri@,
                None => forall|i: int|
                    0 <= i < self.entries.len() ==> (#[trigger] self.entries[i]).0@ != uri@,
            },
    {
        let mut i: usize = self.entries.len();
        while i > 0
            invariant
                i <= self.entries.len(),
                forall|j: int| i <= j < self.entries.len() ==> (#[trigger] self.entries[j]).0@ != uri@,
            decreases i,
        {
            if text_eq(self.entries[i - 1].0.as_str(), uri) {
                return Some(i - 1);
            }
            i -= 1;
        }
        None
    }

    /// What is held under an address, if anything is.
    pub fn get(&self, uri: &str) -> (r: Option<&T>)
        ensures
            match r {
                Some(value) => self@.contains_key(uri@) && self@[uri@] == *value,
                None => !self@.contains_key(uri@),
            },
    {
        match self.find(uri) {
            Some(at) => {
                proof {
                    lemma_present(self.entries@, at as int);
                }
                Some(&self.entries[at].1)
            },
            None => {
                proof {
                    lemma_absent(self.entries@, uri@);
                }
                None
            },
        }
    }

    /// Puts a value under an address, in the place of what was held there:
    /// all of the new value at once, and nothing else changes.
    pub fn set(&mut self, uri: String, value: T)
        ensures
            final(self)@ == old(self)@.insert(uri@, value),
    {
        match self.find(uri.as_str()) {
            Some(at) => {
                proof {
                    lemma_replaced(self.entries@, at as int, (uri, value));
                }
                self.entries.set(at, (uri, value));
            },
            None => {
                proof {
                    assert(self.entries@.push((uri, value)).drop_last() =~= self.entries@);
                }
                self.entries.push((uri, value));
            },
        }
    }
}

impl<T> Default for Buffers<T> {
    fn default() -> (store: Buffers<T>)
        ensures
            store@ == Map::<Seq<char>, T>::empty(),
    {
        Buffers::new()
    }
}

} // verus!
