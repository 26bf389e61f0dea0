//! The lock objects of a process, as its tables list them.

use vstd::prelude::*;

verus! {

/// A mutex.
#[derive(Clone, Copy, Debug, PartialEq, Eq, Structural)]
pub enum Mutex {
    /// A thread that finds it locked yields until it is free.
    Spin,
    /// A thread that finds it locked sleeps until it is handed over.
    Blocking,
}

/// A counting semaphore.
#[derive(Clone, Copy, Debug, PartialEq, Eq, Structural)]
pub struct Semaphore {
    /// The count that it was created with.
    pub res_count: usize,
}

/// A condition variable.
#[derive(Clone, Copy, Debug, PartialEq, Eq, Structural)]
pub struct Condvar {}

} // verus!
