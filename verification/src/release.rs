//! A release: the values that have been computed or disclosed, by node id.

use vstd::prelude::*;
use crate::value::Value;

verus! {

/// The value of one node.
#[derive(Debug)]
pub struct Entry {
    pub node_id: u32,
    pub value: Value,
}

/// Values by node id, in the order in which they were added.
#[derive(Debug)]
pub struct Release {
    pub values: Vec<Entry>,
}

impl Release {
    /// Whether the release holds a value for node `id`.
    pub open spec fn has(self, id: u32) -> bool {
        exists|k: int| 0 <= k < self.values.len() && (#[trigger] self.values[k]).node_id == id
    }

    /// The first position at or after `from` of a value for node `id`.
    pub open spec fn entry_from(self, id: u32, from: int) -> Option<int>
        decreases self.values.len() - from,
    {
        if from < 0 || from >= self.values.len() {
            None
        } else if self.values[from].node_id == id {
            Some(from)
        } else {
            self.entry_from(id, from + 1)
        }
    }

    /// The value of node `id`: the first one that was added for it.
    pub open spec fn value_of(self, id: u32) -> Option<Value> {
        match self.entry_from(id, 0) {
            Some(k) => Some(self.values[k].value),
            None => None,
        }
    }

    /// `entry_from` finds a value for node `id` with none before it, or
    /// there is none from `from` on.
    pub proof fn lemma_entry_from(self, id: u32, from: int)
        requires
            0 <= from,
        ensures
            match self.entry_from(id, from) {
                Some(k) => from <= k < self.values.len() && self.values[k].node_id == id
                    && forall|l: int| from <= l < k ==> self.values[l].node_id != id,
                None => forall|l: int| from <= l < self.values.len() ==> self.values[l].node_id != id,
            },
        decreases self.values.len() - from,
    {
        if from < self.values.len() && self.values[from].node_id != id {
            self.lemma_entry_from(id, from + 1);
        }
    }

    /// A release without values.
    pub fn new() -> (r: Release)
        ensures
            r.values@.len() == 0,
    {
        Release { values: Vec::new() }
    }

    /// How many values the release holds.
    pub fn len(&self) -> (r: usize)
        ensures
            r == self.values.len(),
    {
        self.values.len()
    }

    /// The value of node `id`.
    pub fn get(&self, id: u32) -> (r: Option<&Value>)
        ensures
            r is Some <==> self.has(id),
            match r {
                Some(v) => self.value_of(id) == Some(*v),
                None => self.value_of(id) is None,
            },
    {
        proof {
            self.lemma_entry_from(id, 0);
        }
        let mut k: usize = 0;
        while k < self.values.len()
            invariant
                k <= self.values.len(),
                forall|l: int| 0 <= l < k ==> (#[trigger] self.values[l]).node_id != id,
            decreases self.values.len() - k,
        {
            if self.values[k].node_id == id {
                proof {
                    self.lemma_entry_from(id, 0);
                }
                return Some(&self.values[k].value);
            }
            k += 1;
        }
        proof {
            self.lemma_entry_from(id, 0);
        }
        None
    }

    /// Whether the release holds a value for node `id`.
    pub fn contains(&self, id: u32) -> (r: bool)
        ensures
            r == self.has(id),
    {
        self.get(id).is_some()
    }

    /// Adds the value of a node at the end.
    pub fn insert(&mut self, node_id: u32, value: Value)
        ensures
            final(self).values@ == old(self).values@.push(Entry { node_id, value }),
    {
        self.values.push(Entry { node_id, value });
    }
}

} // verus!
