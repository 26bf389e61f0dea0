//! Open files, as the file descriptor table of a process holds them.

use vstd::prelude::*;

verus! {

/// What stands behind an open file.
#[derive(Clone, Copy, Debug, PartialEq, Eq, Structural)]
pub enum FileKind {
    /// Console input.
    Stdin,
    /// Console output.
    Stdout,
    /// A file of the file system, opened as inode object `handle`.
    Inode { handle: usize },
}

/// An open file.
#[derive(Clone, Copy, Debug, PartialEq, Eq, Structural)]
pub struct File {
    pub kind: FileKind,
    pub readable: bool,
    pub writable: bool,
}

/// Console input: it can only be read.
pub open spec fn stdin_file() -> File {
    File { kind: FileKind::Stdin, readable: true, writable: false }
}

/// Console output: it can only be written.
pub open spec fn stdout_file() -> File {
    File { kind: FileKind::Stdout, readable: false, writable: true }
}

impl File {
    /// Console input.
    pub fn stdin() -> (file: File)
        ensures
            file == stdin_file(),
    {
        File { kind: FileKind::Stdin, readable: true, writable: false }
    }

    /// Console output.
    pub fn stdout() -> (file: File)
        ensures
            file == stdout_file(),
    {
        File { kind: FileKind::Stdout, readable: false, writable: true }
    }
}

/// The type of a file in [`Stat`].
#[derive(Clone, Copy, Debug, PartialEq, Eq, Structural)]
pub enum StatMode {
    /// A regular file.
    File,
}

/// File status, as user space reads it.
#[derive(Clone, Copy, Debug, PartialEq, Eq)]
pub struct Stat {
    /// Device id.
    pub dev: u64,
    /// Inode number.
    pub ino: u64,
    /// File type.
    pub mode: StatMode,
    /// Number of hard links.
    pub nlink: u32,
    /// Unused.
    pub pad: [u64; 7],
}

/// The console: input that can only be read, and output that can only be written.
pub proof fn console_goes_one_way()
    ensures
        stdin_file().kind == FileKind::Stdin,
        stdin_file().readable && !stdin_file().writable,
        stdout_file().kind == FileKind::Stdout,
        stdout_file().writable && !stdout_file().readable,
{
}

} // verus!
