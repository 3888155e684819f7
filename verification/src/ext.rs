//! Extension map: a process-wide table from 64-bit FNV keys to addresses,
//! with plain insert / remove / lookup semantics. A null address stands
//! for an absent entry in the lookup's answer.

use vstd::prelude::*;

use std::collections::HashMap;

verus! {

broadcast use vstd::std_specs::hash::group_hash_axioms;

/// The table behind the host-facing record APIs.
pub struct ExtMap {
    pub map: HashMap<u64, u64>,
}

impl ExtMap {
    /// The table's mathematical content.
    pub open spec fn view(self) -> Map<u64, u64> {
        self.map@
    }

    /// An empty table.
    pub fn new() -> (r: ExtMap)
        ensures
            r@ == Map::<u64, u64>::empty(),
    {
        ExtMap { map: HashMap::new() }
    }

    /// Bind `id` to the address `ext`. Answers whether `id` was absent;
    /// an existing binding is overwritten either way.
    pub fn insert_ext(&mut self, ext: u64, id: u64) -> (r: bool)
        ensures
            final(self)@ == old(self)@.insert(id, ext),
            r == !old(self)@.contains_key(id),
    {
        self.map.insert(id, ext).is_none()
    }

    /// Drop the binding of `id`. Answers whether it was present.
    pub fn remove_ext(&mut self, id: u64) -> (r: bool)
        ensures
            final(self)@ == old(self)@.remove(id),
            r == old(self)@.contains_key(id),
    {
        self.map.remove(&id).is_some()
    }

    /// The address bound to `id`, or null (zero) if there is none.
    pub fn ext_from_base(&self, id: u64) -> (r: u64)
        ensures
            r == if self@.contains_key(id) {
                self@[id]
            } else {
                0u64
            },
    {
        match self.map.get(&id) {
            Some(ext) => *ext,
            None => 0,
        }
    }
}

} // verus!
