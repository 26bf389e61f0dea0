//! What is written into the trap context of a thread before it first runs.

use vstd::prelude::*;

verus! {

/// The kernel side of every trap context.
#[derive(Clone, Copy, Debug, PartialEq, Eq, Structural)]
pub struct KernelEntry {
    /// The page table token of the kernel's address space.
    pub kernel_token: usize,
    /// The address of the trap handler.
    pub trap_handler: usize,
}

/// The initial trap context of an application.
#[derive(Clone, Copy, Debug, PartialEq, Eq, Structural)]
pub struct AppContext {
    /// Where the application starts.
    pub entry_point: usize,
    /// Its stack pointer.
    pub user_sp: usize,
    /// The page table token that the kernel runs on.
    pub kernel_token: usize,
    /// The kernel stack pointer of the thread.
    pub kernel_sp: usize,
    /// The address of the trap handler.
    pub trap_handler: usize,
}

} // verus!
