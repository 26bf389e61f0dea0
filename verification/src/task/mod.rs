//! Processes, threads, and the check that tells whether threads are deadlocked.

pub mod accounts;
pub mod books;
pub mod control;
pub mod id;
pub mod process;
pub mod safety;
pub mod user_stack;
