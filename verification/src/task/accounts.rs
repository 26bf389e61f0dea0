//! The lock books of a process: which mutexes and semaphore units are free, and
//! which ones every thread holds and waits for.

use vstd::prelude::*;
#[allow(unused_imports)]
use crate::fs::File;
#[allow(unused_imports)]
use crate::resource::{
    amount, grown, grown_keeps_amounts, lowered, set_count, set_count_changes_one_amount,
};
#[allow(unused_imports)]
use crate::slots::with_entry;
#[allow(unused_imports)]
use crate::sync::{Condvar, Mutex, Semaphore};
#[allow(unused_imports)]
use crate::task::books::{
    changes_one, later_change_counts, ready_thread_keeps_books_safe,
    returned_units_keep_books_safe, same_counts, same_counts_same_safety, same_counts_same_total,
    total_after_change, Books,
};
#[allow(unused_imports)]
use crate::task::control::{lock_claims, with_room, LockKind, TaskView};
#[allow(unused_imports)]
use crate::task::process::{same_threads, same_threads_keep_wf, ProcessView};
#[allow(unused_imports)]
use crate::task::safety::{
    held, is_thread, more_available_keeps_state_safe, unmeetable_wait_is_unsafe, Claim,
};

verus! {

impl ProcessView {
    /// A new mutex `id`.
    pub open spec fn add_mutex(self, id: int, mutex: Mutex) -> ProcessView {
        ProcessView {
            mutex_list: with_entry(self.mutex_list, id, Some(mutex)),
            ..self
        }.add_units(LockKind::Mutex, id, 1)
    }

    /// A new semaphore `id`.
    pub open spec fn add_semaphore(self, id: int, semaphore: Semaphore) -> ProcessView {
        ProcessView {
            semaphore_list: with_entry(self.semaphore_list, id, Some(semaphore)),
            ..self
        }.add_units(LockKind::Semaphore, id, semaphore.res_count as int)
    }

    /// Room for lock `id`, which has `count` free units.
    pub open spec fn add_units(self, kind: LockKind, id: int, count: int) -> ProcessView {
        let room = self.expand_slot(kind, id);
        room.with_available(kind, set_count(room.available(kind), id, count))
    }

    /// Thread `tid` waits for one unit of lock `id`.
    pub open spec fn request(self, kind: LockKind, tid: int, id: int) -> ProcessView {
        let room = self.expand_slot(kind, id);
        let claim = room.task(tid).claim(kind);
        room.with_claim(
            kind,
            tid,
            Claim { need: set_count(claim.need, id, amount(claim.need, id) + 1), ..claim },
        )
    }

    /// Thread `tid` has got one unit of lock `id` and waits for it no longer. For a
    /// semaphore, room is made in all threads first.
    pub open spec fn grant(self, kind: LockKind, tid: int, id: int) -> ProcessView {
        let room = match kind {
            LockKind::Mutex => self,
            LockKind::Semaphore => self.expand_slot(kind, id),
        };
        let free = room.available(kind);
        let claim = room.task(tid).claim(kind);
        room.with_available(kind, set_count(free, id, lowered(amount(free, id)))).with_claim(
            kind,
            tid,
            Claim {
                allocation: set_count(claim.allocation, id, amount(claim.allocation, id) + 1),
                need: set_count(claim.need, id, lowered(amount(claim.need, id))),
            },
        )
    }

    /// Thread `tid` has given one unit of lock `id` back. A mutex is free then, and
    /// the thread does not wait for it; of a semaphore, one more unit is free.
    pub open spec fn release(self, kind: LockKind, tid: int, id: int) -> ProcessView {
        let room = self.expand_slot(kind, id);
        let free = room.available(kind);
        let claim = room.task(tid).claim(kind);
        room.with_available(
            kind,
            set_count(free, id, free_after_release(kind, amount(free, id))),
        ).with_claim(
            kind,
            tid,
            Claim {
                allocation: set_count(claim.allocation, id, lowered(amount(claim.allocation, id))),
                need: match kind {
                    LockKind::Mutex => set_count(claim.need, id, 0),
                    LockKind::Semaphore => claim.need,
                },
            },
        )
    }
}

/// How many units are free once one was given back: a mutex has only one, and the
/// largest count of a semaphore stays as it is.
pub open spec fn free_after_release(kind: LockKind, free: int) -> int {
    match kind {
        LockKind::Mutex => 1,
        LockKind::Semaphore => if free < usize::MAX {
            free + 1
        } else {
            free
        },
    }
}

/// Making room for lock ids changes no count.
proof fn lemma_room_keeps_counts(
    available: Seq<usize>,
    tasks: Seq<Option<TaskView>>,
    kind: LockKind,
    free_len: int,
    len: int,
)
    ensures
        same_counts(
            Books { available, claims: lock_claims(tasks, kind) },
            Books {
                available: grown(available, free_len),
                claims: lock_claims(with_room(tasks, kind, len), kind),
            },
        ),
{
    broadcast use grown_keeps_amounts;

}

/// A process that replaces thread `tid`, after room was made, changes the counts
/// of lock `id` alone if the new thread and the new free counts do.
proof fn lemma_task_changes_one(
    available: Seq<usize>,
    tasks: Seq<Option<TaskView>>,
    kind: LockKind,
    len: int,
    available_after: Seq<usize>,
    tid: int,
    id: int,
    task: TaskView,
)
    requires
        0 <= tid < tasks.len(),
        tasks[tid] is Some,
        forall|r: int| r != id ==> #[trigger] amount(available_after, r) == amount(available, r),
        forall|r: int|
            r != id ==> #[trigger] amount(task.claim(kind).allocation, r) == amount(
                (tasks[tid]->0).claim(kind).allocation,
                r,
            ),
        forall|r: int|
            r != id ==> #[trigger] amount(task.claim(kind).need, r) == amount(
                (tasks[tid]->0).claim(kind).need,
                r,
            ),
    ensures
        changes_one(
            Books { available, claims: lock_claims(tasks, kind) },
            Books {
                available: available_after,
                claims: lock_claims(with_room(tasks, kind, len).update(tid, Some(task)), kind),
            },
            tid,
            id,
            amount(available_after, id),
            amount(task.claim(kind).allocation, id),
            amount(task.claim(kind).need, id),
        ),
{
    broadcast use grown_keeps_amounts;

}

/// Two processes with the same books on one kind of locks: as many units are free,
/// and every thread holds and waits for as many.
pub open spec fn same_books(kind: LockKind, p: ProcessView, q: ProcessView) -> bool {
    same_counts(p.books(kind), q.books(kind))
}

/// Making room for lock ids changes no count in the books.
pub proof fn room_keeps_books(kind: LockKind, p: ProcessView, id: int)
    ensures
        same_books(kind, p, p.expand_slot(kind, id)),
        same_books(kind, p, p.level_rows(kind)),
        same_books(kind, p, p.expand_slot(kind, id).level_rows(kind)),
{
    let room = p.expand_slot(kind, id);
    let len = p.available(kind).len() as int;
    let room_len = room.available(kind).len() as int;
    lemma_room_keeps_counts(p.available(kind), p.tasks, kind, id + 1, id + 1);
    lemma_room_keeps_counts(p.available(kind), p.tasks, kind, 0, len);
    lemma_room_keeps_counts(room.available(kind), room.tasks, kind, 0, room_len);
}

/// Processes with the same books are equally safe.
pub proof fn same_books_same_safety(kind: LockKind, p: ProcessView, q: ProcessView)
    requires
        same_books(kind, p, q),
    ensures
        p.state_safe(kind) == q.state_safe(kind),
{
    same_counts_same_safety(p.books(kind), q.books(kind));
}

/// Making room for lock ids does not change whether the state is safe.
pub proof fn room_keeps_safety(kind: LockKind, p: ProcessView, id: int)
    ensures
        p.expand_slot(kind, id).state_safe(kind) == p.state_safe(kind),
        p.level_rows(kind).state_safe(kind) == p.state_safe(kind),
{
    room_keeps_books(kind, p, id);
    same_books_same_safety(kind, p, p.expand_slot(kind, id));
    same_books_same_safety(kind, p, p.level_rows(kind));
}

/// What a request, a grant and a release change in the books: the counts of the
/// lock and of the thread that they are about, and nothing else.
pub proof fn calls_change_one_lock(kind: LockKind, p: ProcessView, tid: int, id: int)
    requires
        p.has_task(tid),
        0 <= id < usize::MAX,
    ensures
        ({
            let books = p.books(kind);
            let free = books.free(id);
            let has = books.has(tid, id);
            let waits = books.waits(tid, id);
            let asked = p.request(kind, tid, id).books(kind);
            let granted = p.grant(kind, tid, id).books(kind);
            let released = p.release(kind, tid, id).books(kind);
            &&& changes_one(books, asked, tid, id, free, has, asked.waits(tid, id))
            &&& waits < usize::MAX ==> asked.waits(tid, id) == waits + 1
            &&& has < usize::MAX ==> changes_one(
                books,
                granted,
                tid,
                id,
                lowered(free),
                has + 1,
                lowered(waits),
            )
            &&& changes_one(
                books,
                released,
                tid,
                id,
                free_after_release(kind, free),
                lowered(has),
                if kind is Mutex {
                    0
                } else {
                    waits
                },
            )
        }),
{
    broadcast use {grown_keeps_amounts, set_count_changes_one_amount};

    let free = p.available(kind);
    let asked = p.request(kind, tid, id);
    let granted = p.grant(kind, tid, id);
    let released = p.release(kind, tid, id);
    let grant_len = if kind is Mutex {
        0
    } else {
        id + 1
    };
    assert(with_room(p.tasks, kind, 0) =~= p.tasks);
    lemma_task_changes_one(
        free,
        p.tasks,
        kind,
        id + 1,
        asked.available(kind),
        tid,
        id,
        asked.task(tid),
    );
    if p.books(kind).has(tid, id) < usize::MAX {
        lemma_task_changes_one(
            free,
            p.tasks,
            kind,
            grant_len,
            granted.available(kind),
            tid,
            id,
            granted.task(tid),
        );
    }
    lemma_task_changes_one(
        free,
        p.tasks,
        kind,
        id + 1,
        released.available(kind),
        tid,
        id,
        released.task(tid),
    );
}

/// A thread gets what is free: with deadlock detection on, a request for a free
/// unit is not refused in a safe state.
pub proof fn free_unit_is_not_refused(kind: LockKind, p: ProcessView, tid: int, id: int)
    requires
        p.has_task(tid),
        0 <= id < usize::MAX,
        p.state_safe(kind),
        p.books(kind).waits(tid, id) < p.books(kind).free(id),
    ensures
        p.request(kind, tid, id).state_safe(kind),
{
    let books = p.books(kind);
    calls_change_one_lock(kind, p, tid, id);
    returned_units_keep_books_safe(
        books,
        p.request(kind, tid, id).books(kind),
        tid,
        id,
        books.free(id),
        books.has(tid, id),
        books.waits(tid, id) + 1,
    );
}

/// A thread that waits for a lock that it alone could give back is deadlocked:
/// with deadlock detection on, its request is refused.
pub proof fn own_lock_is_refused(kind: LockKind, p: ProcessView, tid: int, id: int)
    requires
        p.has_task(tid),
        0 <= id < usize::MAX,
        p.books(kind).waits(tid, id) < usize::MAX,
        p.books(kind).free(id) == 0,
        forall|i: int| p.has_task(i) && i != tid ==> #[trigger] p.books(kind).has(i, id) == 0,
    ensures
        !p.request(kind, tid, id).state_safe(kind),
{
    let after = p.request(kind, tid, id).books(kind);
    calls_change_one_lock(kind, p, tid, id);
    assert(is_thread(after.claims, tid));
    assert(after.waits(tid, id) > 0 && after.free(id) == 0);
    assert forall|i: int| is_thread(after.claims, i) && i != tid implies #[trigger] held(
        after.claims,
        i,
        id,
    ) == 0 by {
        assert(p.has_task(i));
        assert(after.has(i, id) == p.books(kind).has(i, id));
    }
    unmeetable_wait_is_unsafe(after.available, after.claims, tid, id);
}

/// A grant keeps a safe state safe, if all that the thread waits for is free, or
/// if nothing is free under this id, so that the free count stays as it is.
pub proof fn grant_keeps_state_safe(kind: LockKind, p: ProcessView, tid: int, id: int)
    requires
        p.has_task(tid),
        0 <= id < usize::MAX,
        p.state_safe(kind),
        p.books(kind).has(tid, id) < usize::MAX,
        p.books(kind).free(id) == 0 || forall|r: int| #[trigger]
            p.books(kind).waits(tid, r) <= p.books(kind).free(r),
    ensures
        p.grant(kind, tid, id).state_safe(kind),
{
    let books = p.books(kind);
    let after = p.grant(kind, tid, id).books(kind);
    let free = lowered(books.free(id));
    let has = books.has(tid, id) + 1;
    let waits = lowered(books.waits(tid, id));
    calls_change_one_lock(kind, p, tid, id);
    if books.free(id) == 0 {
        returned_units_keep_books_safe(books, after, tid, id, free, has, waits);
    } else {
        assert(books.waits(tid, id) <= books.free(id));
        ready_thread_keeps_books_safe(books, after, tid, id, free, has, waits);
    }
}

/// Giving a unit back keeps a safe state safe. A mutex must not be on the books as
/// free and as held by the thread at once, nor as free more than once.
pub proof fn release_keeps_state_safe(kind: LockKind, p: ProcessView, tid: int, id: int)
    requires
        p.has_task(tid),
        0 <= id < usize::MAX,
        p.state_safe(kind),
        kind is Mutex ==> p.books(kind).free(id) == 0 || (p.books(kind).free(id) == 1 && p.books(
            kind,
        ).has(tid, id) == 0),
    ensures
        p.release(kind, tid, id).state_safe(kind),
{
    let books = p.books(kind);
    calls_change_one_lock(kind, p, tid, id);
    returned_units_keep_books_safe(
        books,
        p.release(kind, tid, id).books(kind),
        tid,
        id,
        free_after_release(kind, books.free(id)),
        lowered(books.has(tid, id)),
        if kind is Mutex {
            0
        } else {
            books.waits(tid, id)
        },
    );
}

/// Unlocking undoes locking, and `up` undoes `down`: after a thread has asked for a
/// free unit, got it and given it back, the books are as they were. Room that was
/// made meanwhile makes no difference.
pub proof fn release_undoes_request(
    kind: LockKind,
    p: ProcessView,
    tid: int,
    id: int,
    requested: ProcessView,
)
    requires
        p.has_task(tid),
        0 <= id < usize::MAX,
        p.books(kind).free(id) > 0,
        p.books(kind).has(tid, id) < usize::MAX,
        p.books(kind).waits(tid, id) < usize::MAX,
        kind is Mutex ==> p.books(kind).free(id) == 1 && p.books(kind).waits(tid, id) == 0,
        same_books(kind, p.request(kind, tid, id), requested),
    ensures
        same_books(kind, p, requested.grant(kind, tid, id).release(kind, tid, id)),
{
    let before = p.books(kind);
    let asked = p.request(kind, tid, id).books(kind);
    let meanwhile = requested.books(kind);
    let granted = requested.grant(kind, tid, id);
    let after = granted.release(kind, tid, id);
    let free = before.free(id);
    let has = before.has(tid, id);
    let waits = before.waits(tid, id);
    calls_change_one_lock(kind, p, tid, id);
    assert(is_thread(before.claims, tid) && is_thread(asked.claims, tid));
    assert(is_thread(meanwhile.claims, tid));
    assert(requested.tasks[tid] is Some);
    assert(meanwhile.free(id) == asked.free(id));
    assert(meanwhile.has(tid, id) == asked.has(tid, id));
    assert(meanwhile.waits(tid, id) == asked.waits(tid, id));
    calls_change_one_lock(kind, requested, tid, id);
    assert(is_thread(granted.books(kind).claims, tid));
    assert(granted.tasks[tid] is Some);
    assert(granted.books(kind).free(id) == free - 1);
    assert(granted.books(kind).has(tid, id) == has + 1);
    assert(granted.books(kind).waits(tid, id) == waits);
    calls_change_one_lock(kind, granted, tid, id);
    later_change_counts(
        before,
        asked,
        meanwhile,
        granted.books(kind),
        tid,
        id,
        (free, has, waits + 1),
        (free - 1, has + 1, waits),
    );
    later_change_counts(
        before,
        granted.books(kind),
        granted.books(kind),
        after.books(kind),
        tid,
        id,
        (free - 1, has + 1, waits),
        (free, has, waits),
    );
}

/// Processes with the same books have the same units.
pub proof fn same_books_same_total(kind: LockKind, p: ProcessView, q: ProcessView, id: int)
    requires
        same_books(kind, p, q),
    ensures
        p.books(kind).total(id) == q.books(kind).total(id),
{
    same_counts_same_total(p.books(kind), q.books(kind), id);
}

/// No unit comes or goes: a request, a grant of a free unit and the return of one
/// that the thread holds move units between the process and its threads. A mutex
/// that comes back must not be free already, and the free count of a semaphore
/// must not be the largest one.
pub proof fn units_are_conserved(kind: LockKind, p: ProcessView, tid: int, id: int, r: int)
    requires
        p.has_task(tid),
        0 <= id < usize::MAX,
    ensures
        ({
            let books = p.books(kind);
            let free = books.free(id);
            let has = books.has(tid, id);
            &&& p.request(kind, tid, id).books(kind).total(r) == books.total(r)
            &&& free > 0 && has < usize::MAX ==> p.grant(kind, tid, id).books(kind).total(r)
                == books.total(r)
            &&& free_after_release(kind, free) == free + 1 && has > 0 ==> p.release(
                kind,
                tid,
                id,
            ).books(kind).total(r) == books.total(r)
        }),
{
    let books = p.books(kind);
    let free = books.free(id);
    let has = books.has(tid, id);
    let waits = books.waits(tid, id);
    let asked = p.request(kind, tid, id).books(kind);
    let granted = p.grant(kind, tid, id).books(kind);
    let released = p.release(kind, tid, id).books(kind);
    calls_change_one_lock(kind, p, tid, id);
    assert(is_thread(books.claims, tid) && is_thread(released.claims, tid));
    total_after_change(books, asked, tid, id, (free, has, asked.waits(tid, id)), r);
    if has < usize::MAX {
        total_after_change(
            books,
            granted,
            tid,
            id,
            (lowered(free), has + 1, lowered(waits)),
            r,
        );
    }
    total_after_change(
        books,
        released,
        tid,
        id,
        (free_after_release(kind, free), lowered(has), released.waits(tid, id)),
        r,
    );
}

/// A new lock keeps a safe state safe, if no more units were on the books under its
/// id than it is created with.
pub proof fn new_lock_keeps_state_safe(kind: LockKind, p: ProcessView, id: int, count: int)
    requires
        0 <= id,
        count <= usize::MAX,
        p.state_safe(kind),
        p.books(kind).free(id) <= count,
    ensures
        p.add_units(kind, id, count).state_safe(kind),
{
    broadcast use {grown_keeps_amounts, set_count_changes_one_amount};

    let after = p.add_units(kind, id, count);
    let room = p.expand_slot(kind, id);
    room_keeps_safety(kind, p, id);
    assert(after.tasks == room.tasks);
    more_available_keeps_state_safe(
        room.available(kind),
        after.available(kind),
        lock_claims(room.tasks, kind),
    );
}

/// A new mutex keeps a safe state safe, if it was not on the books as free more
/// than once.
pub proof fn new_mutex_keeps_state_safe(p: ProcessView, id: int, mutex: Mutex)
    requires
        0 <= id,
        p.state_safe(LockKind::Mutex),
        p.books(LockKind::Mutex).free(id) <= 1,
    ensures
        p.add_mutex(id, mutex).state_safe(LockKind::Mutex),
{
    let listed = ProcessView { mutex_list: with_entry(p.mutex_list, id, Some(mutex)), ..p };
    new_lock_keeps_state_safe(LockKind::Mutex, listed, id, 1);
}

/// A new semaphore keeps a safe state safe, if no more units were on the books
/// under its id than it is created with.
pub proof fn new_semaphore_keeps_state_safe(p: ProcessView, id: int, semaphore: Semaphore)
    requires
        0 <= id,
        p.state_safe(LockKind::Semaphore),
        p.books(LockKind::Semaphore).free(id) <= semaphore.res_count,
    ensures
        p.add_semaphore(id, semaphore).state_safe(LockKind::Semaphore),
{
    let listed = ProcessView {
        semaphore_list: with_entry(p.semaphore_list, id, Some(semaphore)),
        ..p
    };
    new_lock_keeps_state_safe(LockKind::Semaphore, listed, id, semaphore.res_count as int);
}

/// A new lock leaves the books on the other kind of locks and the threads alone.
pub proof fn new_locks_keep_other_books_and_threads(
    p: ProcessView,
    id: int,
    mutex: Mutex,
    semaphore: Semaphore,
)
    ensures
        same_books(LockKind::Semaphore, p, p.add_mutex(id, mutex)),
        same_books(LockKind::Mutex, p, p.add_semaphore(id, semaphore)),
        same_threads(p, p.add_mutex(id, mutex)),
        same_threads(p, p.add_semaphore(id, semaphore)),
        p.wf() ==> p.add_mutex(id, mutex).wf(),
        p.wf() ==> p.add_semaphore(id, semaphore).wf(),
{
    assert(p.add_mutex(id, mutex).books(LockKind::Semaphore) =~= p.books(LockKind::Semaphore));
    assert(p.add_semaphore(id, semaphore).books(LockKind::Mutex) =~= p.books(LockKind::Mutex));
    if p.wf() {
        same_threads_keep_wf(p, p.add_mutex(id, mutex));
        same_threads_keep_wf(p, p.add_semaphore(id, semaphore));
    }
}

/// What happens to one kind of locks leaves the books on the other kind alone.
pub proof fn calls_keep_other_books(
    kind: LockKind,
    other: LockKind,
    p: ProcessView,
    tid: int,
    id: int,
)
    requires
        kind != other,
        p.has_task(tid),
    ensures
        same_books(other, p, p.request(kind, tid, id)),
        same_books(other, p, p.grant(kind, tid, id)),
        same_books(other, p, p.release(kind, tid, id)),
        same_books(other, p, p.expand_slot(kind, id)),
        same_books(other, p, p.level_rows(kind)),
{
    assert(p.request(kind, tid, id).books(other) =~= p.books(other));
    assert(p.grant(kind, tid, id).books(other) =~= p.books(other));
    assert(p.release(kind, tid, id).books(other) =~= p.books(other));
    assert(p.expand_slot(kind, id).books(other) =~= p.books(other));
    assert(p.level_rows(kind).books(other) =~= p.books(other));
}

/// What happens to locks leaves every living thread under its own id.
pub proof fn lock_calls_keep_threads(kind: LockKind, p: ProcessView, tid: int, id: int)
    requires
        p.has_task(tid),
    ensures
        same_threads(p, p.request(kind, tid, id)),
        same_threads(p, p.grant(kind, tid, id)),
        same_threads(p, p.release(kind, tid, id)),
        same_threads(p, p.expand_slot(kind, id)),
        same_threads(p, p.level_rows(kind)),
        p.wf() ==> p.request(kind, tid, id).wf(),
        p.wf() ==> p.grant(kind, tid, id).wf(),
        p.wf() ==> p.release(kind, tid, id).wf(),
        p.wf() ==> p.expand_slot(kind, id).wf(),
        p.wf() ==> p.level_rows(kind).wf(),
{
    if p.wf() {
        same_threads_keep_wf(p, p.request(kind, tid, id));
        same_threads_keep_wf(p, p.grant(kind, tid, id));
        same_threads_keep_wf(p, p.release(kind, tid, id));
        same_threads_keep_wf(p, p.expand_slot(kind, id));
        same_threads_keep_wf(p, p.level_rows(kind));
    }
}

/// Calls on files and condition variables and the switch of deadlock detection
/// leave the books and the threads alone.
pub proof fn other_calls_keep_books_and_threads(
    p: ProcessView,
    fd_table: Seq<Option<File>>,
    condvar_list: Seq<Option<Condvar>>,
    use_dead_lock: bool,
)
    ensures
        ({
            let after = ProcessView { fd_table, condvar_list, use_dead_lock, ..p };
            &&& same_books(LockKind::Mutex, p, after)
            &&& same_books(LockKind::Semaphore, p, after)
            &&& same_threads(p, after)
            &&& p.wf() ==> after.wf()
        }),
{
    let after = ProcessView { fd_table, condvar_list, use_dead_lock, ..p };
    if p.wf() {
        same_threads_keep_wf(p, after);
    }
}

/// How many units are free once one was given back: a mutex is free, and a semaphore
/// has one more free unit, if that can be counted.
pub proof fn release_frees_a_unit(free: int)
    ensures
        free_after_release(LockKind::Mutex, free) == 1,
        free < usize::MAX ==> free_after_release(LockKind::Semaphore, free) == free + 1,
        free == usize::MAX ==> free_after_release(LockKind::Semaphore, free) == free,
{
}

/// A new mutex is listed and free; no other count changes, and nothing else does.
pub proof fn new_mutex_is_free(p: ProcessView, id: int, mutex: Mutex)
    requires
        0 <= id <= p.mutex_list.len(),
    ensures
        ({
            let q = p.add_mutex(id, mutex);
            &&& q.mutex_list[id] == Some(mutex)
            &&& q.mutex_list == with_entry(p.mutex_list, id, Some(mutex))
            &&& q.m_available[id] == 1
            &&& q.m_available.len() == if id < p.m_available.len() {
                p.m_available.len() as int
            } else {
                id + 1
            }
            &&& forall|r: int|
                r != id ==> #[trigger] amount(q.m_available, r) == amount(p.m_available, r)
            &&& q == ProcessView {
                mutex_list: q.mutex_list,
                m_available: q.m_available,
                tasks: with_room(p.tasks, LockKind::Mutex, id + 1),
                ..p
            }
        }),
{
    broadcast use {grown_keeps_amounts, set_count_changes_one_amount};

}

/// A new semaphore is listed and has as many free units as it was created with; no
/// other count changes, and nothing else does.
pub proof fn new_semaphore_has_its_units(p: ProcessView, id: int, semaphore: Semaphore)
    requires
        0 <= id <= p.semaphore_list.len(),
    ensures
        ({
            let q = p.add_semaphore(id, semaphore);
            &&& q.semaphore_list[id] == Some(semaphore)
            &&& q.semaphore_list == with_entry(p.semaphore_list, id, Some(semaphore))
            &&& q.s_available[id] == semaphore.res_count
            &&& q.s_available.len() == if id < p.s_available.len() {
                p.s_available.len() as int
            } else {
                id + 1
            }
            &&& forall|r: int|
                r != id ==> #[trigger] amount(q.s_available, r) == amount(p.s_available, r)
            &&& q == ProcessView {
                semaphore_list: q.semaphore_list,
                s_available: q.s_available,
                tasks: with_room(p.tasks, LockKind::Semaphore, id + 1),
                ..p
            }
        }),
{
    broadcast use {grown_keeps_amounts, set_count_changes_one_amount};

}

/// A request makes the thread wait for one more unit of the lock. Nobody holds more
/// or less, nothing is free that was not, and nothing else changes but the room for
/// ids.
pub proof fn request_is_one_more_wait(kind: LockKind, p: ProcessView, tid: int, id: int)
    requires
        0 <= tid < p.tasks.len(),
        p.tasks[tid] is Some,
        0 <= id,
        amount((p.tasks[tid]->0).claim(kind).need, id) < usize::MAX,
    ensures
        ({
            let q = p.request(kind, tid, id);
            let room = with_room(p.tasks, kind, id + 1);
            let before = (room[tid]->0).claim(kind);
            let after = (q.tasks[tid]->0).claim(kind);
            &&& q == ProcessView {
                tasks: q.tasks,
                ..p.with_available(kind, grown(p.available(kind), id + 1))
            }
            &&& q.tasks == room.update(tid, Some((room[tid]->0).with_claim(kind, after)))
            &&& after.allocation == before.allocation
            &&& after.need.len() == before.need.len()
            &&& after.need[id] == before.need[id] + 1
            &&& forall|r: int|
                0 <= r < before.need.len() && r != id ==> #[trigger] after.need[r]
                    == before.need[r]
        }),
{
    broadcast use {grown_keeps_amounts, set_count_changes_one_amount};

    let room = with_room(p.tasks, kind, id + 1);
    let before = (room[tid]->0).claim(kind);
    assert(amount(before.need, id) == before.need[id]);
    assert(p.request(kind, tid, id).tasks =~= room.update(
        tid,
        Some((room[tid]->0).with_claim(kind, (p.request(kind, tid, id).tasks[tid]->0).claim(kind))),
    ));
}

/// A grant hands the thread one unit: it holds one more and waits for one less, and
/// one less is free. No other count changes, and nothing else does but the room for
/// ids, which a semaphore gets in all threads.
pub proof fn grant_hands_over_one_unit(kind: LockKind, p: ProcessView, tid: int, id: int)
    requires
        0 <= tid < p.tasks.len(),
        p.tasks[tid] is Some,
        0 <= id,
        amount((p.tasks[tid]->0).claim(kind).allocation, id) < usize::MAX,
    ensures
        ({
            let q = p.grant(kind, tid, id);
            let room = if kind is Mutex {
                p.tasks
            } else {
                with_room(p.tasks, kind, id + 1)
            };
            let before = (p.tasks[tid]->0).claim(kind);
            let after = (q.tasks[tid]->0).claim(kind);
            let free = p.available(kind);
            &&& q == ProcessView { tasks: q.tasks, ..p.with_available(kind, q.available(kind)) }
            &&& q.tasks == room.update(tid, Some((room[tid]->0).with_claim(kind, after)))
            &&& q.available(kind).len() == grown(free, id + 1).len()
            &&& after.allocation.len() == grown(before.allocation, id + 1).len()
            &&& after.need.len() == grown(before.need, id + 1).len()
            &&& amount(after.allocation, id) == amount(before.allocation, id) + 1
            &&& amount(before.need, id) > 0 ==> amount(after.need, id) == amount(before.need, id)
                - 1
            &&& amount(before.need, id) == 0 ==> amount(after.need, id) == 0
            &&& amount(free, id) > 0 ==> amount(q.available(kind), id) == amount(free, id) - 1
            &&& amount(free, id) == 0 ==> amount(q.available(kind), id) == 0
            &&& forall|r: int|
                r != id ==> #[trigger] amount(after.allocation, r) == amount(before.allocation, r)
            &&& forall|r: int|
                r != id ==> #[trigger] amount(after.need, r) == amount(before.need, r)
            &&& forall|r: int|
                r != id ==> #[trigger] amount(q.available(kind), r) == amount(free, r)
        }),
{
    broadcast use {grown_keeps_amounts, set_count_changes_one_amount};

    let q = p.grant(kind, tid, id);
    let room = if kind is Mutex {
        p.tasks
    } else {
        with_room(p.tasks, kind, id + 1)
    };
    assert(q.tasks =~= room.update(
        tid,
        Some((room[tid]->0).with_claim(kind, (q.tasks[tid]->0).claim(kind))),
    ));
}

/// A release takes one unit from the thread, if it holds any. A mutex is free then,
/// and the thread does not wait for it; of a semaphore one more unit is free, if
/// that can be counted, and the waits stay. No other count changes, and nothing else
/// does but the room for ids.
pub proof fn release_takes_one_unit_back(kind: LockKind, p: ProcessView, tid: int, id: int)
    requires
        0 <= tid < p.tasks.len(),
        p.tasks[tid] is Some,
        0 <= id,
    ensures
        ({
            let q = p.release(kind, tid, id);
            let room = with_room(p.tasks, kind, id + 1);
            let before = (room[tid]->0).claim(kind);
            let after = (q.tasks[tid]->0).claim(kind);
            let free = grown(p.available(kind), id + 1);
            &&& q == ProcessView { tasks: q.tasks, ..p.with_available(kind, q.available(kind)) }
            &&& q.tasks == room.update(tid, Some((room[tid]->0).with_claim(kind, after)))
            &&& q.available(kind).len() == free.len()
            &&& after.allocation.len() == before.allocation.len()
            &&& after.need.len() == before.need.len()
            &&& before.allocation[id] > 0 ==> after.allocation[id] == before.allocation[id] - 1
            &&& before.allocation[id] == 0 ==> after.allocation[id] == 0
            &&& kind is Mutex ==> after.need[id] == 0 && q.available(kind)[id] == 1
            &&& kind is Semaphore ==> after.need[id] == before.need[id]
            &&& kind is Semaphore && free[id] < usize::MAX ==> q.available(kind)[id] == free[id] + 1
            &&& kind is Semaphore && free[id] == usize::MAX ==> q.available(kind)[id] == usize::MAX
            &&& forall|r: int|
                0 <= r < before.allocation.len() && r != id ==> #[trigger] after.allocation[r]
                    == before.allocation[r]
            &&& forall|r: int|
                0 <= r < before.need.len() && r != id ==> #[trigger] after.need[r]
                    == before.need[r]
            &&& forall|r: int|
                0 <= r < free.len() && r != id ==> #[trigger] q.available(kind)[r] == free[r]
        }),
{
    broadcast use {grown_keeps_amounts, set_count_changes_one_amount};

    let q = p.release(kind, tid, id);
    let room = with_room(p.tasks, kind, id + 1);
    let free = grown(p.available(kind), id + 1);
    let before = (room[tid]->0).claim(kind);
    assert(amount(before.allocation, id) == before.allocation[id]);
    assert(amount(free, id) == free[id]);
    assert(q.tasks =~= room.update(
        tid,
        Some((room[tid]->0).with_claim(kind, (q.tasks[tid]->0).claim(kind))),
    ));
}

/// Same books mean the same threads, the same free units, and threads that hold and
/// wait for as much as before.
pub proof fn same_books_are_the_same_counts(kind: LockKind, p: ProcessView, q: ProcessView)
    requires
        same_books(kind, p, q),
    ensures
        q.tasks.len() == p.tasks.len(),
        forall|i: int|
            0 <= i < p.tasks.len() ==> (#[trigger] p.tasks[i] is Some <==> q.tasks[i] is Some),
        forall|r: int| #[trigger] amount(q.available(kind), r) == amount(p.available(kind), r),
        forall|i: int, r: int|
            0 <= i < p.tasks.len() && p.tasks[i] is Some ==> #[trigger] amount(
                (q.tasks[i]->0).claim(kind).allocation,
                r,
            ) == amount((p.tasks[i]->0).claim(kind).allocation, r),
        forall|i: int, r: int|
            0 <= i < p.tasks.len() && p.tasks[i] is Some ==> #[trigger] amount(
                (q.tasks[i]->0).claim(kind).need,
                r,
            ) == amount((p.tasks[i]->0).claim(kind).need, r),
{
    let before = p.books(kind);
    let after = q.books(kind);
    assert forall|i: int| 0 <= i < p.tasks.len() implies (#[trigger] p.tasks[i] is Some
        <==> q.tasks[i] is Some) by {
        assert(is_thread(after.claims, i) <==> is_thread(before.claims, i));
    }
    assert forall|r: int| #[trigger] amount(q.available(kind), r) == amount(
        p.available(kind),
        r,
    ) by {
        assert(after.free(r) == before.free(r));
    }
    assert forall|i: int, r: int|
        0 <= i < p.tasks.len() && p.tasks[i] is Some implies #[trigger] amount(
        (q.tasks[i]->0).claim(kind).allocation,
        r,
    ) == amount((p.tasks[i]->0).claim(kind).allocation, r) by {
        assert(is_thread(before.claims, i) && is_thread(after.claims, i));
        assert(after.has(i, r) == before.has(i, r));
    }
    assert forall|i: int, r: int|
        0 <= i < p.tasks.len() && p.tasks[i] is Some implies #[trigger] amount(
        (q.tasks[i]->0).claim(kind).need,
        r,
    ) == amount((p.tasks[i]->0).claim(kind).need, r) by {
        assert(is_thread(before.claims, i) && is_thread(after.claims, i));
        assert(after.waits(i, r) == before.waits(i, r));
    }
}

} // verus!
