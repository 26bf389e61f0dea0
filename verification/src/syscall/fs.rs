//! System calls on files.

use vstd::prelude::*;
use crate::fs::{File, FileKind, Stat, StatMode};
#[allow(unused_imports)]
use crate::slots::{has_entry, is_lowest_free, with_entry};
#[allow(unused_imports)]
use crate::syscall::{as_return_value, return_count, return_status, ERROR, Step};
#[allow(unused_imports)]
use crate::task::process::{ProcessControlBlockInner, ProcessView};

verus! {

/// What the file system is asked to do.
#[derive(Debug, PartialEq, Eq)]
pub enum FileOp {
    /// Write the `len` bytes of user memory at `buf` to the file.
    Write { file: File, buf: usize, len: usize },
    /// Read at most `len` bytes from the file into user memory at `buf`.
    Read { file: File, buf: usize, len: usize },
    /// Look up the inode number and the number of links.
    Stat { handle: usize },
    /// Make a new name for a file.
    Link { old_name: String, new_name: String },
    /// Remove a name of a file.
    Unlink { name: String },
}

/// Writes `len` bytes from `buf` to a file. The answer is -1 unless `fd` is
/// open for writing.
pub fn sys_write(process: &ProcessControlBlockInner, fd: usize, buf: usize, len: usize) -> (step:
    Step<FileOp>)
    ensures
        step == (if has_entry(process@.fd_table, fd as int) && (
        process@.fd_table[fd as int]->0).writable {
            Step::Await(FileOp::Write { file: process@.fd_table[fd as int]->0, buf, len })
        } else {
            Step::Return(ERROR)
        }),
{
    if fd >= process.fd_table.len() {
        return Step::Return(ERROR);
    }
    if let Some(file) = process.fd_table[fd] {
        if !file.writable {
            return Step::Return(ERROR);
        }
        Step::Await(FileOp::Write { file, buf, len })
    } else {
        Step::Return(ERROR)
    }
}

/// The file has taken `written` bytes.
pub fn sys_write_resume(written: usize) -> (ret: isize)
    ensures
        ret == as_return_value(written),
        written <= isize::MAX ==> ret == written,
        written > isize::MAX ==> ret + usize::MAX + 1 == written,
{
    return_count(written)
}

/// Reads at most `len` bytes from a file into `buf`. The answer is -1 unless
/// `fd` is open for reading.
pub fn sys_read(process: &ProcessControlBlockInner, fd: usize, buf: usize, len: usize) -> (step:
    Step<FileOp>)
    ensures
        step == (if has_entry(process@.fd_table, fd as int) && (
        process@.fd_table[fd as int]->0).readable {
            Step::Await(FileOp::Read { file: process@.fd_table[fd as int]->0, buf, len })
        } else {
            Step::Return(ERROR)
        }),
{
    if fd >= process.fd_table.len() {
        return Step::Return(ERROR);
    }
    if let Some(file) = process.fd_table[fd] {
        if !file.readable {
            return Step::Return(ERROR);
        }
        Step::Await(FileOp::Read { file, buf, len })
    } else {
        Step::Return(ERROR)
    }
}

/// The file has given `read` bytes.
pub fn sys_read_resume(read: usize) -> (ret: isize)
    ensures
        ret == as_return_value(read),
        read <= isize::MAX ==> ret == read,
        read > isize::MAX ==> ret + usize::MAX + 1 == read,
{
    return_count(read)
}

/// Enters a file that was opened into the file descriptor table. Returns its
/// descriptor, the lowest free one; the answer is -1 if the file could not be
/// opened.
pub fn sys_open(process: &mut ProcessControlBlockInner, opened: Option<File>) -> (ret: isize)
    requires
        old(process).fd_table@.len() < isize::MAX,
    ensures
        match opened {
            Some(file) => {
                &&& is_lowest_free(old(process)@.fd_table, ret as int)
                &&& final(process)@ == (ProcessView {
                    fd_table: with_entry(old(process)@.fd_table, ret as int, Some(file)),
                    ..old(process)@
                })
            },
            None => ret == ERROR && final(process)@ == old(process)@,
        },
{
    if let Some(file) = opened {
        let fd: usize = process.alloc_fd();
        process.fd_table[fd] = Some(file);
        assert(process@.fd_table =~= with_entry(
            old(process)@.fd_table,
            fd as int,
            Some(file),
        ));
        fd as isize
    } else {
        ERROR
    }
}

/// Closes a file descriptor. The answer is -1 unless it is open.
pub fn sys_close(process: &mut ProcessControlBlockInner, fd: usize) -> (ret: isize)
    ensures
        if has_entry(old(process)@.fd_table, fd as int) {
            &&& ret == 0
            &&& final(process)@ == (ProcessView {
                fd_table: old(process)@.fd_table.update(fd as int, None),
                ..old(process)@
            })
        } else {
            ret == ERROR && final(process)@ == old(process)@
        },
{
    if fd >= process.fd_table.len() {
        return ERROR;
    }
    if process.fd_table[fd].is_none() {
        return ERROR;
    }
    process.fd_table[fd] = None;
    0
}

/// Asks for the status of an open file. The answer is -1 unless `fd` is open on
/// a file of the file system.
pub fn sys_fstat(process: &ProcessControlBlockInner, fd: usize) -> (step: Step<FileOp>)
    ensures
        step == (if has_entry(process@.fd_table, fd as int) {
            match (process@.fd_table[fd as int]->0).kind {
                FileKind::Inode { handle } => Step::Await(FileOp::Stat { handle }),
                _ => Step::Return(ERROR),
            }
        } else {
            Step::Return(ERROR)
        }),
{
    if fd >= process.fd_table.len() {
        return Step::Return(ERROR);
    }
    let file: File = match process.fd_table[fd] {
        Some(file) => file,
        None => {
            return Step::Return(ERROR);
        },
    };
    match file.kind {
        FileKind::Inode { handle } => Step::Await(FileOp::Stat { handle }),
        _ => Step::Return(ERROR),
    }
}

/// Reports the status of a regular file to user space.
pub fn sys_fstat_resume(inode_id: usize, nlink: u32, st: &mut Stat) -> (ret: isize)
    ensures
        ret == 0,
        final(st).dev == 0,
        final(st).ino == inode_id,
        final(st).mode == StatMode::File,
        final(st).nlink == nlink,
        final(st).pad@ == Seq::new(7, |i: int| 0u64),
{
    let stat = Stat { dev: 0, ino: inode_id as u64, mode: StatMode::File, nlink, pad: [0;7] };
    assert(stat.pad@ =~= Seq::new(7, |i: int| 0u64));
    *st = stat;
    0
}

/// Makes a new name for a file. A file cannot be linked to its own name: the
/// answer is -1 then.
pub fn sys_linkat(old_name: String, new_name: String) -> (step: Step<FileOp>)
    ensures
        step == (if old_name@ != new_name@ {
            Step::Await(FileOp::Link { old_name, new_name })
        } else {
            Step::Return(ERROR)
        }),
{
    if old_name != new_name {
        Step::Await(FileOp::Link { old_name, new_name })
    } else {
        Step::Return(ERROR)
    }
}

/// The name was made, or not.
pub fn sys_linkat_resume(linked: bool) -> (ret: isize)
    ensures
        ret == (if linked {
            0
        } else {
            ERROR as int
        }),
{
    return_status(linked)
}

/// Removes a name of a file. The answer is -1 unless the name was found.
pub fn sys_unlinkat(name: String, found: bool) -> (step: Step<FileOp>)
    ensures
        step == (if found {
            Step::Await(FileOp::Unlink { name })
        } else {
            Step::Return(ERROR)
        }),
{
    if found {
        Step::Await(FileOp::Unlink { name })
    } else {
        Step::Return(ERROR)
    }
}

/// The name was removed if the file system reports the status zero.
pub fn sys_unlinkat_resume(status: isize) -> (ret: isize)
    ensures
        ret == (if status == 0 {
            0
        } else {
            ERROR as int
        }),
{
    return_status(status == 0)
}

} // verus!
