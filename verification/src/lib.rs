//! The process core of a small teaching kernel: process control blocks, the
//! system calls on files, time, threads and locks, and deadlock detection.
//!
//! The library decides and keeps the books. What only the machine or another
//! part of the kernel can do (switching threads, walking page tables, disk
//! access) a system call asks for with a [`syscall::Step`], and takes the
//! outcome back as a plain value.

pub mod fs;
pub mod mm;
pub mod resource;
pub mod slots;
pub mod sync;
pub mod syscall;
pub mod task;
pub mod trap;
