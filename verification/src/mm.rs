//! Address spaces, as far as processes speak of them.

use vstd::prelude::*;

verus! {

/// An address space, known by its page table.
#[derive(Clone, Copy, Debug, PartialEq, Eq, Structural)]
pub struct MemorySet {
    /// The page table token: what the page table register is loaded with.
    pub page_table: usize,
}

impl MemorySet {
    /// The page table token of the address space.
    pub fn token(&self) -> (token: usize)
        ensures
            token == self.page_table,
    {
        self.page_table
    }
}

/// A program that was loaded into an address space of its own.
#[derive(Clone, Copy, Debug, PartialEq, Eq, Structural)]
pub struct LoadedImage {
    /// The address space.
    pub memory_set: MemorySet,
    /// Where user stacks start.
    pub ustack_base: usize,
    /// The address of the first instruction.
    pub entry_point: usize,
}

/// What was mapped for one thread in the address space of its process.
#[derive(Clone, Copy, Debug, PartialEq, Eq, Structural)]
pub struct UserMapping {
    /// The physical page of the trap context.
    pub trap_cx_ppn: usize,
    /// The upper end of the user stack.
    pub ustack_top: usize,
}

} // verus!
