//! System calls on mutexes, semaphores and condition variables, and sleeping.

use vstd::prelude::*;
#[allow(unused_imports)]
use crate::resource::{
    amount, grown, lower_count, lowered, put_count, raise_count, set_count,
};
#[allow(unused_imports)]
use crate::slots::{has_entry, is_lowest_free, put_lowest_free, with_entry};
use crate::sync::{Condvar, Mutex, Semaphore};
use crate::syscall::{ERROR, Step};
#[allow(unused_imports)]
use crate::task::accounts::{room_keeps_books, room_keeps_safety, same_books};
#[allow(unused_imports)]
use crate::task::control::{slot_view, LockKind};
#[allow(unused_imports)]
use crate::task::process::{ProcessControlBlockInner, ProcessView};
#[allow(unused_imports)]
use crate::task::safety::Claim;

verus! {

/// What a request is answered that would lead to a deadlock.
pub const DEADLOCK_ERR: isize = -0xDEAD;

/// What the lock objects and the timer are asked to do for the current thread.
#[derive(Clone, Copy, Debug, PartialEq, Eq)]
pub enum SyncOp {
    /// Wake the thread up at this time, and block it until then.
    Sleep { expire_ms: usize },
    /// Lock the mutex; this may block.
    Lock { mutex_id: usize, mutex: Mutex },
    /// Unlock the mutex.
    Unlock { mutex_id: usize, mutex: Mutex },
    /// Return one unit to the semaphore.
    Up { sem_id: usize, semaphore: Semaphore },
    /// Take one unit from the semaphore; this may block.
    Down { sem_id: usize, semaphore: Semaphore },
    /// Wake one thread that waits for the condition variable.
    Signal { condvar_id: usize, condvar: Condvar },
    /// Release the mutex, wait for the condition variable, lock the mutex again.
    Wait { condvar_id: usize, condvar: Condvar, mutex_id: usize, mutex: Mutex },
}

/// Creates a mutex that spins, or one that blocks. Returns its id: the lowest
/// free one.
pub fn sys_mutex_create(process: &mut ProcessControlBlockInner, blocking: bool) -> (ret: isize)
    requires
        old(process).mutex_list@.len() < isize::MAX,
    ensures
        is_lowest_free(old(process)@.mutex_list, ret as int),
        final(process)@ == old(process)@.add_mutex(
            ret as int,
            if blocking {
                Mutex::Blocking
            } else {
                Mutex::Spin
            },
        ),
        final(process).mutex_list@[ret as int] == Some(
            if blocking {
                Mutex::Blocking
            } else {
                Mutex::Spin
            },
        ),
        final(process).m_available@[ret as int] == 1,
        forall|r: int|
            0 <= r < old(process).m_available@.len() && r != ret
                ==> #[trigger] final(process).m_available@[r] == old(process).m_available@[r],
{
    let mutex: Option<Mutex> = if !blocking {
        Some(Mutex::Spin)
    } else {
        Some(Mutex::Blocking)
    };
    let id: usize = put_lowest_free(&mut process.mutex_list, mutex);
    process.expand_mutex_slot(id);
    put_count(&mut process.m_available, id, 1);
    id as isize
}

/// Takes one request of thread `tid` for a lock back.
fn lower_need(process: &mut ProcessControlBlockInner, kind: LockKind, tid: usize, id: usize)
    requires
        old(process)@.has_task(tid as int),
        id < usize::MAX,
    ensures
        ({
            let claim = old(process)@.task(tid as int).claim(kind);
            let need = set_count(claim.need, id as int, lowered(amount(claim.need, id as int)));
            final(process)@ == old(process)@.with_claim(
                kind,
                tid as int,
                Claim { need, ..claim },
            )
        }),
{
    assert(process.tasks@.len() == process@.tasks.len());
    assert(slot_view(process.tasks@[tid as int]) == process@.tasks[tid as int]);
    if let Some(task) = &mut process.tasks[tid] {
        match kind {
            LockKind::Mutex => lower_count(&mut task.m_need, id),
            LockKind::Semaphore => lower_count(&mut task.s_need, id),
        }
    }
}

/// Asks for a mutex on behalf of thread `tid`. A mutex that does not exist is
/// answered with -1. With deadlock detection on, a request after which not all
/// threads could finish is refused with [`DEADLOCK_ERR`], and what the threads
/// hold and wait for stays as it was. Otherwise the mutex is to be locked.
pub fn sys_mutex_lock(
    process: &mut ProcessControlBlockInner,
    tid: usize,
    mutex_id: usize,
) -> (step: Step<SyncOp>)
    requires
        old(process)@.has_task(tid as int),
        has_entry(old(process)@.mutex_list, mutex_id as int) ==> amount(
            old(process)@.task(tid as int).m_need,
            mutex_id as int,
        ) < usize::MAX,
    ensures
        ({
            let before = old(process)@;
            let requested = before.request(LockKind::Mutex, tid as int, mutex_id as int);
            if !has_entry(before.mutex_list, mutex_id as int) {
                &&& step == Step::<SyncOp>::Return(ERROR)
                &&& final(process)@ == before
            } else if before.use_dead_lock && !requested.state_safe(LockKind::Mutex) {
                &&& step == Step::<SyncOp>::Return(DEADLOCK_ERR)
                &&& final(process)@ == before.expand_slot(
                    LockKind::Mutex,
                    mutex_id as int,
                ).level_rows(LockKind::Mutex)
                &&& same_books(LockKind::Mutex, before, final(process)@)
            } else {
                &&& step == Step::Await(
                    SyncOp::Lock { mutex_id, mutex: before.mutex_list[mutex_id as int]->0 },
                )
                &&& final(process)@ == (if before.use_dead_lock {
                    requested.level_rows(LockKind::Mutex)
                } else {
                    requested
                })
                &&& before.use_dead_lock ==> final(process)@.state_safe(LockKind::Mutex)
            }
        }),
{
    if mutex_id >= process.mutex_list.len() {
        return Step::Return(ERROR);
    }
    let mutex: Mutex = match process.mutex_list[mutex_id] {
        Some(mutex) => mutex,
        None => {
            return Step::Return(ERROR);
        },
    };
    process.expand_mutex_slot(mutex_id);
    let ghost room = process@;
    if let Some(task) = &mut process.tasks[tid] {
        raise_count(&mut task.m_need, mutex_id);
    }
    let ghost requested = old(process)@.request(LockKind::Mutex, tid as int, mutex_id as int);
    assert(process@.tasks =~= requested.tasks);
    if process.use_dead_lock {
        if !process.is_mutex_state_safe() {
            lower_need(process, LockKind::Mutex, tid, mutex_id);
            proof {
                let wanted = requested.task(tid as int).m_need;
                let len = room.m_available.len() as int;
                assert(set_count(
                    grown(wanted, len),
                    mutex_id as int,
                    lowered(amount(grown(wanted, len), mutex_id as int)),
                ) =~= grown(room.task(tid as int).m_need, len));
                assert(process@.tasks =~= room.level_rows(LockKind::Mutex).tasks);
                room_keeps_books(LockKind::Mutex, old(process)@, mutex_id as int);
            }
            return Step::Return(DEADLOCK_ERR);
        }
    }
    proof {
        room_keeps_safety(LockKind::Mutex, requested, 0);
    }
    Step::Await(SyncOp::Lock { mutex_id, mutex })
}

/// Thread `tid` has locked the mutex.
pub fn sys_mutex_lock_resume(
    process: &mut ProcessControlBlockInner,
    tid: usize,
    mutex_id: usize,
) -> (ret: isize)
    requires
        old(process)@.has_task(tid as int),
        mutex_id < usize::MAX,
        amount(old(process)@.task(tid as int).m_allocation, mutex_id as int) < usize::MAX,
    ensures
        ret == 0,
        final(process)@ == old(process)@.grant(LockKind::Mutex, tid as int, mutex_id as int),
{
    lower_count(&mut process.m_available, mutex_id);
    assert(process.tasks@.len() == process@.tasks.len());
    assert(slot_view(process.tasks@[tid as int]) == old(process)@.tasks[tid as int]);
    if let Some(task) = &mut process.tasks[tid] {
        lower_count(&mut task.m_need, mutex_id);
        raise_count(&mut task.m_allocation, mutex_id);
    }
    assert(process@.tasks =~= old(process)@.grant(
        LockKind::Mutex,
        tid as int,
        mutex_id as int,
    ).tasks);
    0
}

/// Gives a mutex back. A mutex that does not exist is answered with -1;
/// otherwise it is to be unlocked.
pub fn sys_mutex_unlock(process: &ProcessControlBlockInner, mutex_id: usize) -> (step: Step<SyncOp>)
    ensures
        step == (if has_entry(process@.mutex_list, mutex_id as int) {
            Step::Await(
                SyncOp::Unlock { mutex_id, mutex: process@.mutex_list[mutex_id as int]->0 },
            )
        } else {
            Step::Return(ERROR)
        }),
{
    if mutex_id >= process.mutex_list.len() {
        return Step::Return(ERROR);
    }
    match process.mutex_list[mutex_id] {
        Some(mutex) => Step::Await(SyncOp::Unlock { mutex_id, mutex }),
        None => Step::Return(ERROR),
    }
}

/// Thread `tid` has unlocked the mutex, which is free again.
pub fn sys_mutex_unlock_resume(
    process: &mut ProcessControlBlockInner,
    tid: usize,
    mutex_id: usize,
) -> (ret: isize)
    requires
        old(process)@.has_task(tid as int),
        mutex_id < usize::MAX,
    ensures
        ret == 0,
        final(process)@ == old(process)@.release(LockKind::Mutex, tid as int, mutex_id as int),
{
    process.expand_mutex_slot(mutex_id);
    put_count(&mut process.m_available, mutex_id, 1);
    assert(process.tasks@.len() == process@.tasks.len());
    assert(slot_view(process.tasks@[tid as int]) == process@.tasks[tid as int]);
    if let Some(task) = &mut process.tasks[tid] {
        lower_count(&mut task.m_allocation, mutex_id);
        put_count(&mut task.m_need, mutex_id, 0);
    }
    assert(process@.tasks =~= old(process)@.release(
        LockKind::Mutex,
        tid as int,
        mutex_id as int,
    ).tasks);
    0
}

/// Creates a semaphore with `res_count` units. Returns its id: the lowest free
/// one.
pub fn sys_semaphore_create(process: &mut ProcessControlBlockInner, res_count: usize) -> (ret:
    isize)
    requires
        old(process).semaphore_list@.len() < isize::MAX,
    ensures
        is_lowest_free(old(process)@.semaphore_list, ret as int),
        final(process)@ == old(process)@.add_semaphore(ret as int, Semaphore { res_count }),
        final(process).semaphore_list@[ret as int] == Some(Semaphore { res_count }),
        final(process).s_available@[ret as int] == res_count,
        forall|r: int|
            0 <= r < old(process).s_available@.len() && r != ret
                ==> #[trigger] final(process).s_available@[r] == old(process).s_available@[r],
{
    let id: usize = put_lowest_free(&mut process.semaphore_list, Some(Semaphore { res_count }));
    process.expand_semaphore_slot(id);
    put_count(&mut process.s_available, id, res_count);
    id as isize
}

/// Returns one unit to a semaphore. A semaphore that does not exist is answered
/// with -1; otherwise the unit is to be returned.
pub fn sys_semaphore_up(process: &mut ProcessControlBlockInner, sem_id: usize) -> (step: Step<
    SyncOp,
>)
    ensures
        ({
            let before = old(process)@;
            if has_entry(before.semaphore_list, sem_id as int) {
                &&& step == Step::Await(
                    SyncOp::Up { sem_id, semaphore: before.semaphore_list[sem_id as int]->0 },
                )
                &&& final(process)@ == before.expand_slot(LockKind::Semaphore, sem_id as int)
            } else {
                &&& step == Step::<SyncOp>::Return(ERROR)
                &&& final(process)@ == before
            }
        }),
{
    if sem_id >= process.semaphore_list.len() {
        return Step::Return(ERROR);
    }
    let semaphore: Semaphore = match process.semaphore_list[sem_id] {
        Some(semaphore) => semaphore,
        None => {
            return Step::Return(ERROR);
        },
    };
    process.expand_semaphore_slot(sem_id);
    Step::Await(SyncOp::Up { sem_id, semaphore })
}

/// Thread `tid` has returned one unit. If it held none, the books stay as they
/// are and the answer is -1. A free count that would overflow stays at the
/// largest one.
pub fn sys_semaphore_up_resume(
    process: &mut ProcessControlBlockInner,
    tid: usize,
    sem_id: usize,
) -> (ret: isize)
    requires
        old(process)@.has_task(tid as int),
        sem_id < usize::MAX,
    ensures
        ({
            let before = old(process)@;
            if amount(before.task(tid as int).s_allocation, sem_id as int) == 0 {
                &&& ret == ERROR
                &&& final(process)@ == before.expand_slot(LockKind::Semaphore, sem_id as int)
            } else {
                &&& ret == 0
                &&& final(process)@ == before.release(
                    LockKind::Semaphore,
                    tid as int,
                    sem_id as int,
                )
            }
        }),
{
    process.expand_semaphore_slot(sem_id);
    let ghost room = process@;
    assert(process.tasks@.len() == process@.tasks.len());
    assert(slot_view(process.tasks@[tid as int]) == room.tasks[tid as int]);
    let mut holds: bool = false;
    if let Some(task) = &mut process.tasks[tid] {
        if task.s_allocation[sem_id] > 0 {
            holds = true;
            lower_count(&mut task.s_allocation, sem_id);
        }
    }
    if !holds {
        assert(process@.tasks =~= room.tasks);
        return ERROR;
    }
    let free: usize = process.s_available[sem_id].saturating_add(1);
    put_count(&mut process.s_available, sem_id, free);
    assert(process@.tasks =~= old(process)@.release(
        LockKind::Semaphore,
        tid as int,
        sem_id as int,
    ).tasks);
    0
}

/// Asks for one unit of a semaphore on behalf of thread `tid`. A semaphore that
/// does not exist is answered with -1. With deadlock detection on, a request
/// after which not all threads could finish is refused with [`DEADLOCK_ERR`], and
/// what the threads hold and wait for stays as it was. Otherwise the unit is to
/// be taken.
pub fn sys_semaphore_down(
    process: &mut ProcessControlBlockInner,
    tid: usize,
    sem_id: usize,
) -> (step: Step<SyncOp>)
    requires
        old(process)@.has_task(tid as int),
        has_entry(old(process)@.semaphore_list, sem_id as int) ==> amount(
            old(process)@.task(tid as int).s_need,
            sem_id as int,
        ) < usize::MAX,
    ensures
        ({
            let before = old(process)@;
            let requested = before.request(LockKind::Semaphore, tid as int, sem_id as int);
            if !has_entry(before.semaphore_list, sem_id as int) {
                &&& step == Step::<SyncOp>::Return(ERROR)
                &&& final(process)@ == before
            } else if before.use_dead_lock && !requested.state_safe(LockKind::Semaphore) {
                &&& step == Step::<SyncOp>::Return(DEADLOCK_ERR)
                &&& final(process)@ == before.expand_slot(
                    LockKind::Semaphore,
                    sem_id as int,
                ).level_rows(LockKind::Semaphore)
                &&& same_books(LockKind::Semaphore, before, final(process)@)
            } else {
                &&& step == Step::Await(
                    SyncOp::Down { sem_id, semaphore: before.semaphore_list[sem_id as int]->0 },
                )
                &&& final(process)@ == (if before.use_dead_lock {
                    requested.level_rows(LockKind::Semaphore)
                } else {
                    requested
                })
                &&& before.use_dead_lock ==> final(process)@.state_safe(LockKind::Semaphore)
            }
        }),
{
    if sem_id >= process.semaphore_list.len() {
        return Step::Return(ERROR);
    }
    let semaphore: Semaphore = match process.semaphore_list[sem_id] {
        Some(semaphore) => semaphore,
        None => {
            return Step::Return(ERROR);
        },
    };
    process.expand_semaphore_slot(sem_id);
    let ghost room = process@;
    if let Some(task) = &mut process.tasks[tid] {
        raise_count(&mut task.s_need, sem_id);
    }
    let ghost requested = old(process)@.request(LockKind::Semaphore, tid as int, sem_id as int);
    assert(process@.tasks =~= requested.tasks);
    if process.use_dead_lock {
        if !process.is_semaphore_state_safe() {
            lower_need(process, LockKind::Semaphore, tid, sem_id);
            proof {
                let wanted = requested.task(tid as int).s_need;
                let len = room.s_available.len() as int;
                assert(set_count(
                    grown(wanted, len),
                    sem_id as int,
                    lowered(amount(grown(wanted, len), sem_id as int)),
                ) =~= grown(room.task(tid as int).s_need, len));
                assert(process@.tasks =~= room.level_rows(LockKind::Semaphore).tasks);
                room_keeps_books(LockKind::Semaphore, old(process)@, sem_id as int);
            }
            return Step::Return(DEADLOCK_ERR);
        }
    }
    proof {
        room_keeps_safety(LockKind::Semaphore, requested, 0);
    }
    Step::Await(SyncOp::Down { sem_id, semaphore })
}

/// Thread `tid` has taken one unit.
pub fn sys_semaphore_down_resume(
    process: &mut ProcessControlBlockInner,
    tid: usize,
    sem_id: usize,
) -> (ret: isize)
    requires
        old(process)@.has_task(tid as int),
        sem_id < usize::MAX,
        amount(old(process)@.task(tid as int).s_allocation, sem_id as int) < usize::MAX,
    ensures
        ret == 0,
        final(process)@ == old(process)@.grant(LockKind::Semaphore, tid as int, sem_id as int),
{
    process.expand_semaphore_slot(sem_id);
    lower_count(&mut process.s_available, sem_id);
    assert(process.tasks@.len() == process@.tasks.len());
    assert(slot_view(process.tasks@[tid as int]) == process@.tasks[tid as int]);
    if let Some(task) = &mut process.tasks[tid] {
        lower_count(&mut task.s_need, sem_id);
        raise_count(&mut task.s_allocation, sem_id);
    }
    assert(process@.tasks =~= old(process)@.grant(
        LockKind::Semaphore,
        tid as int,
        sem_id as int,
    ).tasks);
    0
}

/// Creates a condition variable. Returns its id: the lowest free one.
pub fn sys_condvar_create(process: &mut ProcessControlBlockInner) -> (ret: isize)
    requires
        old(process).condvar_list@.len() < isize::MAX,
    ensures
        is_lowest_free(old(process)@.condvar_list, ret as int),
        final(process)@ == (ProcessView {
            condvar_list: with_entry(old(process)@.condvar_list, ret as int, Some(Condvar {  })),
            ..old(process)@
        }),
{
    let id: usize = put_lowest_free(&mut process.condvar_list, Some(Condvar {  }));
    id as isize
}

/// Wakes one thread that waits for a condition variable.
pub fn sys_condvar_signal(process: &ProcessControlBlockInner, condvar_id: usize) -> (step: Step<
    SyncOp,
>)
    requires
        has_entry(process@.condvar_list, condvar_id as int),
    ensures
        step == Step::Finish(
            SyncOp::Signal { condvar_id, condvar: process@.condvar_list[condvar_id as int]->0 },
            0,
        ),
{
    let condvar: Condvar = process.condvar_list[condvar_id].unwrap();
    Step::Finish(SyncOp::Signal { condvar_id, condvar }, 0)
}

/// Waits for a condition variable; the mutex is released meanwhile.
pub fn sys_condvar_wait(
    process: &ProcessControlBlockInner,
    condvar_id: usize,
    mutex_id: usize,
) -> (step: Step<SyncOp>)
    requires
        has_entry(process@.condvar_list, condvar_id as int),
        has_entry(process@.mutex_list, mutex_id as int),
    ensures
        step == Step::Finish(
            SyncOp::Wait {
                condvar_id,
                condvar: process@.condvar_list[condvar_id as int]->0,
                mutex_id,
                mutex: process@.mutex_list[mutex_id as int]->0,
            },
            0,
        ),
{
    let condvar: Condvar = process.condvar_list[condvar_id].unwrap();
    let mutex: Mutex = process.mutex_list[mutex_id].unwrap();
    Step::Finish(SyncOp::Wait { condvar_id, condvar, mutex_id, mutex }, 0)
}

/// Turns deadlock detection on (1) or off (0). It is turned on only while the
/// state is safe; otherwise, and for any other argument, the answer is -1 and
/// the setting stays as it was.
pub fn sys_enable_deadlock_detect(process: &mut ProcessControlBlockInner, enabled: usize) -> (ret:
    isize)
    ensures
        ({
            let before = old(process)@;
            let after = final(process)@;
            let leveled = before.level_rows(LockKind::Mutex);
            if enabled > 1 {
                ret == ERROR && after == before
            } else if enabled == 0 {
                ret == 0 && after == (ProcessView { use_dead_lock: false, ..before })
            } else if !before.state_safe(LockKind::Mutex) {
                ret == ERROR && after == leveled
            } else if !before.state_safe(LockKind::Semaphore) {
                ret == ERROR && after == leveled.level_rows(LockKind::Semaphore)
            } else {
                &&& ret == 0
                &&& after == (ProcessView {
                    use_dead_lock: true,
                    ..leveled.level_rows(LockKind::Semaphore)
                })
                &&& after.state_safe(LockKind::Mutex)
                &&& after.state_safe(LockKind::Semaphore)
            }
        }),
{
    if enabled > 1 {
        return ERROR;
    }
    if enabled == 0 {
        process.use_dead_lock = false;
        return 0;
    }
    if !process.is_mutex_state_safe() {
        return ERROR;
    }
    let ghost leveled = process@;
    assert(leveled.books(LockKind::Semaphore) =~= old(process)@.books(LockKind::Semaphore));
    if !process.is_semaphore_state_safe() {
        return ERROR;
    }
    proof {
        room_keeps_safety(LockKind::Mutex, old(process)@, 0);
        room_keeps_safety(LockKind::Semaphore, leveled, 0);
        assert(process@.books(LockKind::Mutex) =~= leveled.books(LockKind::Mutex));
    }
    process.use_dead_lock = true;
    0
}

/// Lets the current thread sleep for `ms` milliseconds from `now_ms` on.
pub fn sys_sleep(now_ms: usize, ms: usize) -> (step: Step<SyncOp>)
    requires
        now_ms + ms <= usize::MAX,
    ensures
        step == Step::Finish(SyncOp::Sleep { expire_ms: (now_ms + ms) as usize }, 0),
{
    let expire_ms: usize = now_ms + ms;
    Step::Finish(SyncOp::Sleep { expire_ms }, 0)
}

} // verus!
