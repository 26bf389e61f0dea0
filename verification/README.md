# os_kernel

The process core of a small teaching kernel, verified with Verus: process
control blocks, the system calls on files, time, memory and locks, and deadlock
detection by the banker's algorithm.

The library decides and keeps the books. Where a system call needs the rest of
the kernel (the scheduler, page tables, the file system, lock objects), it
returns a `Step` that names the operation, and a function whose name ends in
`_resume` takes the outcome over. That way every decision is a function with a
contract, and nothing in the library is trusted.

## Layout

- `src/task/safety.rs`: what it means that no thread is deadlocked (there is an
  order in which all threads can finish), and the check for it.
- `src/task/process.rs`, `src/task/control.rs`, `src/task/id.rs`: processes,
  threads, and the ids they go by.
- `src/task/books.rs`: the books on one kind of locks, and what a change of one
  lock means for safety and for the number of units.
- `src/task/accounts.rs`: what the calls on mutexes and semaphores do to the books
  of a process, and the laws that hold of them.
- `src/task/user_stack.rs`: how the arguments of a program are laid out on its
  stack, and that the program finds them there.
- `src/syscall/`: the system calls.
- `src/resource.rs`, `src/slots.rs`: count vectors and tables with free entries.
- `src/fs.rs`, `src/mm.rs`, `src/sync.rs`, `src/trap.rs`: the plain values that
  stand for files, address spaces, lock objects and trap contexts.
- `app/`: the system call layer that performs the operations through a trait of
  kernel services.
- `tests/`: scenarios on concrete values.
