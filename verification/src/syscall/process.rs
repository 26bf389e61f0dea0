//! System calls on the current process: time, scheduling, memory, tracing.

use vstd::prelude::*;
#[allow(unused_imports)]
use vstd::bytes::{spec_u64_from_le_bytes, spec_u64_to_le_bytes, u64_to_le_bytes};
#[allow(unused_imports)]
use crate::syscall::{as_return_value, return_count, return_status, ERROR, Step};

verus! {

/// A time, as user space reads it.
#[derive(Clone, Copy, Debug, PartialEq, Eq, Structural)]
pub struct TimeVal {
    /// Seconds.
    pub sec: usize,
    /// Microseconds within the second.
    pub usec: usize,
}

/// The size of a [`TimeVal`] in user memory.
pub const TIME_VAL_SIZE: usize = 16;

/// Microseconds in a second.
pub const USEC_PER_SEC: usize = 1000000;

/// What the scheduler and the memory management are asked to do for the current
/// thread.
#[derive(Clone, Copy, Debug, PartialEq, Eq)]
pub enum ProcessOp {
    /// End the thread, which submits this exit code; it never runs again.
    Exit { exit_code: i32 },
    /// Let other threads run.
    Suspend,
    /// Tell whether user space may read at this address.
    CheckReadable { addr: usize },
    /// Tell whether user space may write at this address, before `data` is
    /// written there.
    CheckWritable { addr: usize, data: usize },
    /// Translate the byte of user memory at this address, to read it.
    LoadByte { addr: usize },
    /// Translate the byte of user memory at this address, to write `data` to it.
    StoreByte { addr: usize, data: usize },
    /// Tell how often the thread has made this system call.
    CountCalls { id: usize },
    /// Map a range of user memory.
    MapMemory { start: usize, len: usize, prot: usize },
    /// Unmap a range of user memory.
    UnmapMemory { start: usize, len: usize },
    /// Move the end of the heap.
    ChangeBreak { size: i32 },
}

/// Ends the current thread, which submits an exit code. The call is never
/// resumed.
pub fn sys_exit(exit_code: i32) -> (step: Step<ProcessOp>)
    ensures
        step == Step::Await(ProcessOp::Exit { exit_code }),
{
    Step::Await(ProcessOp::Exit { exit_code })
}

/// Lets other threads run.
pub fn sys_yield() -> (step: Step<ProcessOp>)
    ensures
        step == Step::Finish(ProcessOp::Suspend, 0),
{
    Step::Finish(ProcessOp::Suspend, 0)
}

/// A time in microseconds as seconds and microseconds.
pub open spec fn time_val(us: usize) -> TimeVal {
    TimeVal { sec: (us / USEC_PER_SEC), usec: (us % USEC_PER_SEC) }
}

/// A time in user memory: two words, lowest byte first.
pub open spec fn time_val_bytes(time: TimeVal) -> Seq<u8> {
    spec_u64_to_le_bytes(time.sec as u64) + spec_u64_to_le_bytes(time.usec as u64)
}

/// User space reads the time back that was reported: the two words are the
/// seconds and the microseconds within the second, and together they are the
/// whole time.
pub proof fn user_reads_the_time(us: usize)
    ensures
        ({
            let bytes = time_val_bytes(time_val(us));
            let time = time_val(us);
            &&& bytes.len() == TIME_VAL_SIZE
            &&& spec_u64_from_le_bytes(bytes.subrange(0, 8)) == time.sec
            &&& spec_u64_from_le_bytes(bytes.subrange(8, 16)) == time.usec
            &&& time.sec * USEC_PER_SEC + time.usec == us
            &&& time.usec < USEC_PER_SEC
        }),
{
    vstd::bytes::lemma_auto_spec_u64_to_from_le_bytes();
    let time = time_val(us);
    let bytes = time_val_bytes(time);
    assert(bytes.subrange(0, 8) =~= spec_u64_to_le_bytes(time.sec as u64));
    assert(bytes.subrange(8, 16) =~= spec_u64_to_le_bytes(time.usec as u64));
}

/// How many bytes the first `i` buffers hold together.
pub open spec fn room_before(buffers: Seq<&mut [u8]>, i: int) -> int
    decreases i,
{
    if i <= 0 {
        0
    } else {
        room_before(buffers, i - 1) + buffers[i - 1]@.len()
    }
}

/// Copies `bytes` from `offset` on into a buffer, as many as fit.
fn fill(buffer: &mut [u8], bytes: &Vec<u8>, offset: usize) -> (count: usize)
    requires
        offset <= bytes@.len(),
    ensures
        count == (if old(buffer)@.len() < bytes@.len() - offset {
            old(buffer)@.len() as int
        } else {
            bytes@.len() - offset
        }),
        final(buffer)@.len() == old(buffer)@.len(),
        forall|k: int| 0 <= k < count ==> #[trigger] final(buffer)@[k] == bytes@[offset + k],
        forall|k: int|
            count <= k < final(buffer)@.len() ==> #[trigger] final(buffer)@[k] == old(buffer)@[k],
{
    let room: usize = buffer.len();
    let left: usize = bytes.len() - offset;
    let count: usize = if room < left {
        room
    } else {
        left
    };
    let mut k: usize = 0;
    while k < count
        invariant
            k <= count,
            count <= buffer@.len(),
            offset + count <= bytes.len(),
            buffer@.len() == old(buffer)@.len(),
            forall|m: int| 0 <= m < k ==> #[trigger] buffer@[m] == bytes@[offset + m],
            forall|m: int| k <= m < buffer@.len() ==> #[trigger] buffer@[m] == old(buffer)@[m],
        decreases count - k,
    {
        buffer[k] = bytes[offset + k];
        k = k + 1;
    }
    count
}

/// Reports the time `us`, in microseconds, to user space. `buffers` are the
/// pieces of user memory that the [`TimeVal`] lies in: it may cross a page.
pub fn sys_get_time(us: usize, buffers: Vec<&mut [u8]>) -> (ret: isize)
    ensures
        ret == 0,
        forall|i: int|
            0 <= i < buffers@.len() ==> (#[trigger] final(buffers@[i]))@.len()
                == buffers@[i]@.len(),
        forall|i: int, k: int|
            0 <= i < buffers@.len() && 0 <= k < buffers@[i]@.len()
                ==> #[trigger] final(buffers@[i])@[k] == (if room_before(buffers@, i) + k
                < TIME_VAL_SIZE {
                time_val_bytes(time_val(us))[room_before(buffers@, i) + k]
            } else {
                buffers@[i]@[k]
            }),
{
    let sec: usize = us / USEC_PER_SEC;
    let usec: usize = us % USEC_PER_SEC;
    let mut bytes: Vec<u8> = u64_to_le_bytes(sec as u64);
    let mut low: Vec<u8> = u64_to_le_bytes(usec as u64);
    bytes.append(&mut low);
    assert(bytes@ == time_val_bytes(time_val(us)));
    let ghost start = buffers@;
    let mut slots = buffers;
    let mut offset: usize = 0;
    let mut i: usize = 0;
    while i < slots.len()
        invariant
            i <= slots@.len(),
            slots@.len() == start.len(),
            bytes@ == time_val_bytes(time_val(us)),
            bytes@.len() == TIME_VAL_SIZE,
            offset == (if room_before(start, i as int) < bytes@.len() {
                room_before(start, i as int)
            } else {
                bytes@.len() as int
            }),
            forall|k: int|
                0 <= k < start.len() ==> final(#[trigger] slots@[k])@ == final(start[k])@,
            forall|k: int|
                #![trigger slots@[k]]
                i <= k < start.len() ==> slots@[k]@ == start[k]@,
            forall|k: int|
                #![trigger slots@[k]]
                0 <= k < i ==> slots@[k]@.len() == start[k]@.len(),
            forall|j: int, k: int|
                0 <= j < i && 0 <= k < start[j]@.len() ==> #[trigger] slots@[j]@[k] == (
                if room_before(start, j) + k < bytes@.len() {
                    bytes@[room_before(start, j) + k]
                } else {
                    start[j]@[k]
                }),
        decreases slots@.len() - i,
    {
        let count: usize = fill(&mut *slots[i], &bytes, offset);
        offset = offset + count;
        i = i + 1;
    }
    assert forall|k: int| 0 <= k < start.len() implies #[trigger] final(start[k])@
        == slots@[k]@ by {
        assert(has_resolved(slots@[k]));
    }
    0
}

/// Traces the current thread. Request 0 reads the byte of user memory at `id`,
/// request 1 writes the lowest byte of `data` there, and request 2 counts how
/// often the thread has made the system call `id`. Any other request is
/// answered with -1.
pub fn sys_trace(trace_request: usize, id: usize, data: usize) -> (step: Step<ProcessOp>)
    ensures
        step == (if trace_request == 0 {
            Step::Await(ProcessOp::CheckReadable { addr: id })
        } else if trace_request == 1 {
            Step::Await(ProcessOp::CheckWritable { addr: id, data })
        } else if trace_request == 2 {
            Step::Await(ProcessOp::CountCalls { id })
        } else {
            Step::Return(ERROR)
        }),
{
    match trace_request {
        0 => Step::Await(ProcessOp::CheckReadable { addr: id }),
        1 => Step::Await(ProcessOp::CheckWritable { addr: id, data }),
        2 => Step::Await(ProcessOp::CountCalls { id }),
        _ => Step::Return(ERROR),
    }
}

/// The traced byte may be read, or the answer is -1.
pub fn sys_trace_readable(addr: usize, readable: bool) -> (step: Step<ProcessOp>)
    ensures
        step == (if readable {
            Step::Await(ProcessOp::LoadByte { addr })
        } else {
            Step::Return(ERROR)
        }),
{
    if !readable {
        return Step::Return(ERROR);
    }
    Step::Await(ProcessOp::LoadByte { addr })
}

/// The traced byte may be written, or the answer is -1.
pub fn sys_trace_writable(addr: usize, data: usize, writable: bool) -> (step: Step<ProcessOp>)
    ensures
        step == (if writable {
            Step::Await(ProcessOp::StoreByte { addr, data })
        } else {
            Step::Return(ERROR)
        }),
{
    if !writable {
        return Step::Return(ERROR);
    }
    Step::Await(ProcessOp::StoreByte { addr, data })
}

/// Reads the traced byte. The answer is -1 if nothing was translated.
pub fn sys_trace_load(buffers: &Vec<&mut [u8]>) -> (ret: isize)
    requires
        buffers@.len() > 0 ==> buffers@[0]@.len() > 0,
    ensures
        ret == (if buffers@.len() == 0 {
            ERROR as int
        } else {
            buffers@[0]@[0] as int
        }),
{
    if buffers.is_empty() {
        return ERROR;
    }
    buffers[0][0] as isize
}

/// Writes the lowest byte of `data` to the traced byte. The answer is -1 if
/// nothing was translated.
pub fn sys_trace_store(buffers: Vec<&mut [u8]>, data: usize) -> (ret: isize)
    requires
        buffers@.len() > 0 ==> buffers@[0]@.len() > 0,
    ensures
        ret == (if buffers@.len() == 0 {
            ERROR as int
        } else {
            0
        }),
        buffers@.len() > 0 ==> final(buffers@[0])@ == buffers@[0]@.update(
            0,
            (data % 256) as u8,
        ),
        forall|i: int|
            1 <= i < buffers@.len() ==> (#[trigger] final(buffers@[i]))@ == buffers@[i]@,
{
    let mut buffers = buffers;
    if buffers.is_empty() {
        return ERROR;
    }
    assert((data & 0xff) as u8 == data % 256) by (bit_vector);
    let byte_data: u8 = (data & 0xff) as u8;
    let ghost start = buffers@;
    buffers[0][0] = byte_data;
    assert forall|i: int| 0 <= i < start.len() implies #[trigger] final(start[i])@
        == buffers@[i]@ by {
        assert(has_resolved(buffers@[i]));
    }
    0
}

/// The thread has made the traced system call `times` times.
pub fn sys_trace_counted(times: usize) -> (ret: isize)
    ensures
        ret == as_return_value(times),
        times <= isize::MAX ==> ret == times,
        times > isize::MAX ==> ret + usize::MAX + 1 == times,
{
    return_count(times)
}

/// Maps `len` bytes of user memory from `start` on.
pub fn sys_mmap(start: usize, len: usize, prot: usize) -> (step: Step<ProcessOp>)
    ensures
        step == Step::Await(ProcessOp::MapMemory { start, len, prot }),
{
    Step::Await(ProcessOp::MapMemory { start, len, prot })
}

/// The memory was mapped, or not.
pub fn sys_mmap_resume(mapped: bool) -> (ret: isize)
    ensures
        ret == (if mapped {
            0
        } else {
            ERROR as int
        }),
{
    return_status(mapped)
}

/// Unmaps `len` bytes of user memory from `start` on.
pub fn sys_munmap(start: usize, len: usize) -> (step: Step<ProcessOp>)
    ensures
        step == Step::Await(ProcessOp::UnmapMemory { start, len }),
{
    Step::Await(ProcessOp::UnmapMemory { start, len })
}

/// The memory was unmapped, or not.
pub fn sys_munmap_resume(unmapped: bool) -> (ret: isize)
    ensures
        ret == (if unmapped {
            0
        } else {
            ERROR as int
        }),
{
    return_status(unmapped)
}

/// Moves the end of the heap by `size` bytes.
pub fn sys_sbrk(size: i32) -> (step: Step<ProcessOp>)
    ensures
        step == Step::Await(ProcessOp::ChangeBreak { size }),
{
    Step::Await(ProcessOp::ChangeBreak { size })
}

/// The end of the heap was at `old_brk` before, or could not be moved.
pub fn sys_sbrk_resume(old_brk: Option<usize>) -> (ret: isize)
    ensures
        ret == match old_brk {
            Some(old_brk) => as_return_value(old_brk),
            None => ERROR as int,
        },
        old_brk matches Some(brk) ==> brk <= isize::MAX ==> ret == brk,
        old_brk matches Some(brk) ==> brk > isize::MAX ==> ret + usize::MAX + 1 == brk,
{
    if let Some(old_brk) = old_brk {
        return_count(old_brk)
    } else {
        ERROR
    }
}

/// The pieces of user memory follow one another: each starts where the one before
/// it ends.
pub proof fn pieces_follow_one_another(buffers: Seq<&mut [u8]>, i: int)
    requires
        0 <= i < buffers.len(),
    ensures
        room_before(buffers, 0) == 0,
        room_before(buffers, i + 1) == room_before(buffers, i) + buffers[i]@.len(),
{
}

} // verus!
