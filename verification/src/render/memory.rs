//! The interpreter's memory as the renderer sees it.

use std::collections::HashMap;
use vstd::prelude::*;

verus! {

/// A contiguous buffer of bytes.
pub struct Allocation {
    pub bytes: Vec<u8>,
    /// For each byte, whether it has been written.
    pub defined: Vec<bool>,
    /// The pointers stored in the buffer: the offset at which each starts,
    /// and the allocation it points to.
    pub relocations: HashMap<u64, u64>,
}

/// What an allocation id stands for.
pub enum AllocKind {
    Data(Allocation),
    Function,
}

/// All that pointers can refer to.
pub struct Memory {
    /// The width of a pointer in bytes.
    pub pointer_size: u64,
    pub allocs: HashMap<u64, AllocKind>,
}

impl Allocation {
    /// The allocation that a pointer stored at `offset` leads to.
    pub open spec fn relocation_at(&self, offset: int) -> Option<u64> {
        if 0 <= offset <= u64::MAX && self.relocations@.contains_key(offset as u64) {
            Some(self.relocations@[offset as u64])
        } else {
            None
        }
    }

    /// Whether the byte at `offset` exists and has been written.
    pub open spec fn is_defined(&self, offset: int) -> bool {
        &&& 0 <= offset < self.bytes.len()
        &&& offset < self.defined.len()
        &&& self.defined[offset]
    }
}

impl Memory {
    /// The data allocation that `id` stands for, if it stands for one.
    pub open spec fn data(&self, id: u64) -> Option<Allocation> {
        if self.allocs@.contains_key(id) {
            match self.allocs@[id] {
                AllocKind::Data(allocation) => Some(allocation),
                AllocKind::Function => None,
            }
        } else {
            None
        }
    }

    /// Whether `id` stands for a function.
    pub open spec fn is_function(&self, id: u64) -> bool {
        self.allocs@.contains_key(id) && self.allocs@[id] is Function
    }

    /// Looks up the data allocation with the given id.
    pub fn get(&self, id: u64) -> (found: Option<&Allocation>)
        ensures
            match found {
                Some(allocation) => self.data(id) == Some(*allocation),
                None => self.data(id) is None,
            },
    {
        broadcast use vstd::std_specs::hash::group_hash_axioms;

        match self.allocs.get(&id) {
            Some(AllocKind::Data(allocation)) => Some(allocation),
            _ => None,
        }
    }

    /// Whether the given id belongs to a function.
    pub fn get_fn(&self, id: u64) -> (found: bool)
        ensures
            found == self.is_function(id),
    {
        broadcast use vstd::std_specs::hash::group_hash_axioms;

        match self.allocs.get(&id) {
            Some(AllocKind::Function) => true,
            _ => false,
        }
    }
}

} // verus!
