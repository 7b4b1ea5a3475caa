use vstd::prelude::*;

use crate::hyperopic::search::table::{NodeType, TableEntry};

verus! {

/// The slot of a key in a store of `n` slots.
pub open spec fn debug_slot(k: u64, n: nat) -> int {
    (k % (n as u64)) as int
}

/// What a lookup in the checking table finds.
pub enum DebugLookup<'a> {
    /// No entry for the key.
    Miss,
    /// The entry for the key, stored for the same position.
    Hit(&'a TableEntry),
    /// An entry for the key, stored for another position: the text of that
    /// position, then of the one looked up.
    Collision(String, String),
}

/// A table of search results that also keeps the text of each position, to
/// catch two positions with the same key.
pub struct DebugTranspositions {
    pub store: Vec<Option<(String, TableEntry)>>,
}

impl DebugTranspositions {
    /// A table of `size` empty slots.
    pub fn new(size: usize) -> (r: DebugTranspositions)
        ensures
            r.store@.len() == size,
            forall|i: int| 0 <= i < size ==> r.store@[i] is None,
    {
        let mut store: Vec<Option<(String, TableEntry)>> = Vec::new();
        let mut k: usize = 0;
        while k < size
            invariant
                k <= size,
                store@.len() == k,
                forall|i: int| 0 <= i < k ==> store@[i] is None,
            decreases size - k,
        {
            store.push(None);
            k = k + 1;
        }
        DebugTranspositions { store }
    }

    /// Looks up the entry of a position by its key and its text: a hit when
    /// the slot of the key holds an entry of that key stored for the same
    /// text, a collision when it was stored for another text.
    pub fn get(&self, key: u64, id: &String) -> (r: DebugLookup)
        requires
            self.store@.len() > 0,
        ensures
            ({
                let slot = self.store@[debug_slot(key, self.store@.len())];
                match r {
                    DebugLookup::Miss => slot is None || slot->Some_0.1.key != key,
                    DebugLookup::Hit(e) => slot is Some && slot->Some_0.1.key == key && slot->Some_0.0@
                        == id@ && *e == slot->Some_0.1,
                    DebugLookup::Collision(existing, new) => slot is Some && slot->Some_0.1.key == key
                        && slot->Some_0.0@ != id@ && existing@ == slot->Some_0.0@ && new@ == id@,
                }
            }),
    {
        let index = (key % self.store.len() as u64) as usize;
        match &self.store[index] {
            Some((existing, n)) => {
                if n.key == key {
                    if *existing != *id {
                        DebugLookup::Collision(existing.clone(), id.clone())
                    } else {
                        DebugLookup::Hit(n)
                    }
                } else {
                    DebugLookup::Miss
                }
            },
            None => DebugLookup::Miss,
        }
    }

    /// Stores an entry for the position of the key, with its text, in the
    /// slot of the key.
    pub fn put(&mut self, key: u64, id: String, root_index: u16, depth: u8, eval: i32, node_type: NodeType)
        requires
            old(self).store@.len() > 0,
        ensures
            final(self).store@ == old(self).store@.update(
                debug_slot(key, old(self).store@.len()),
                Some((id, TableEntry { key, root_index, depth, eval, node_type })),
            ),
    {
        let index = (key % self.store.len() as u64) as usize;
        let entry = TableEntry { key, root_index, depth, eval, node_type };
        self.store.set(index, Some((id, entry)));
    }
}

} // verus!
