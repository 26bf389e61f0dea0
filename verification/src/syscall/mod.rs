//! The system calls.
//!
//! A system call that needs the rest of the kernel says so with a [`Step`]; the
//! functions whose names end in `_resume` take over once that was done.

use vstd::prelude::*;

pub mod fs;
pub mod process;
pub mod sync;

verus! {

/// The value with which a system call reports a failure.
pub const ERROR: isize = -1;

/// What a system call does next.
#[derive(Debug, PartialEq, Eq)]
pub enum Step<Op> {
    /// It is over, with this value for the caller.
    Return(isize),
    /// The operation is performed; then it is over, with this value.
    Finish(Op, isize),
    /// The operation is performed; then the call is resumed.
    Await(Op),
}

/// How user space sees a count: counts above the largest positive value wrap
/// round to the negative ones.
pub open spec fn as_return_value(count: usize) -> int {
    if count <= isize::MAX {
        count as int
    } else {
        count - usize::MAX - 1
    }
}

/// A count as the value of a system call.
pub fn return_count(count: usize) -> (ret: isize)
    ensures
        ret == as_return_value(count),
        count <= isize::MAX ==> ret == count,
        count > isize::MAX ==> ret + usize::MAX + 1 == count,
{
    if count <= isize::MAX as usize {
        count as isize
    } else {
        -((usize::MAX - count) as isize) - 1
    }
}

/// Zero for success, -1 for failure.
pub fn return_status(done: bool) -> (ret: isize)
    ensures
        ret == (if done {
            0
        } else {
            ERROR as int
        }),
{
    if done {
        0
    } else {
        ERROR
    }
}

/// User space gets every count back: one that fits comes unchanged, and the others
/// differ from it by the number of values that a word has, so that no two counts
/// give the same value.
pub proof fn return_values_tell_counts_apart(count: usize, other: usize)
    ensures
        count <= isize::MAX ==> as_return_value(count) == count,
        count > isize::MAX ==> as_return_value(count) + usize::MAX + 1 == count,
        isize::MIN <= as_return_value(count) <= isize::MAX,
        as_return_value(count) == as_return_value(other) ==> count == other,
{
}

} // verus!
