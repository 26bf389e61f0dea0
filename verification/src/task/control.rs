//! Thread control blocks.

use vstd::prelude::*;
#[allow(unused_imports)]
use crate::resource::{grow, grown};
#[allow(unused_imports)]
use crate::task::safety::{claims_of, Claim};

verus! {

/// What a thread owns in the address space of its process.
#[derive(Clone, Copy, Debug, PartialEq, Eq, Structural)]
pub struct TaskUserRes {
    /// The thread id.
    pub tid: usize,
    /// Where the user stacks of the process start.
    pub ustack_base: usize,
}

/// Task control block: one thread of a process.
pub struct TaskControlBlock {
    /// What it owns in user space; nothing once it has exited.
    pub res: Option<TaskUserRes>,
    /// The physical page of its trap context.
    pub trap_cx_ppn: usize,
    /// The upper end of its kernel stack.
    pub kstack_top: usize,
    /// The mutexes it holds, by mutex id.
    pub m_allocation: Vec<usize>,
    /// The mutexes it waits for, by mutex id.
    pub m_need: Vec<usize>,
    /// The semaphore units it holds, by semaphore id.
    pub s_allocation: Vec<usize>,
    /// The semaphore units it waits for, by semaphore id.
    pub s_need: Vec<usize>,
}

/// The contents of a [`TaskControlBlock`].
#[verifier::ext_equal]
pub struct TaskView {
    pub res: Option<TaskUserRes>,
    pub trap_cx_ppn: usize,
    pub kstack_top: usize,
    pub m_allocation: Seq<usize>,
    pub m_need: Seq<usize>,
    pub s_allocation: Seq<usize>,
    pub s_need: Seq<usize>,
}

impl View for TaskControlBlock {
    type V = TaskView;

    open spec fn view(&self) -> TaskView {
        TaskView {
            res: self.res,
            trap_cx_ppn: self.trap_cx_ppn,
            kstack_top: self.kstack_top,
            m_allocation: self.m_allocation@,
            m_need: self.m_need@,
            s_allocation: self.s_allocation@,
            s_need: self.s_need@,
        }
    }
}

/// The two kinds of locks that threads can be deadlocked over.
#[derive(Clone, Copy, Debug, PartialEq, Eq, Structural)]
pub enum LockKind {
    Mutex,
    Semaphore,
}

impl TaskView {
    /// What the thread holds and waits for of one kind of locks.
    pub open spec fn claim(self, kind: LockKind) -> Claim {
        match kind {
            LockKind::Mutex => Claim { allocation: self.m_allocation, need: self.m_need },
            LockKind::Semaphore => Claim { allocation: self.s_allocation, need: self.s_need },
        }
    }

    /// The thread with another claim on one kind of locks.
    pub open spec fn with_claim(self, kind: LockKind, claim: Claim) -> TaskView {
        match kind {
            LockKind::Mutex => TaskView {
                m_allocation: claim.allocation,
                m_need: claim.need,
                ..self
            },
            LockKind::Semaphore => TaskView {
                s_allocation: claim.allocation,
                s_need: claim.need,
                ..self
            },
        }
    }
}

/// A thread that holds no lock and waits for none.
pub open spec fn new_task(
    tid: usize,
    ustack_base: usize,
    trap_cx_ppn: usize,
    kstack_top: usize,
) -> TaskView {
    TaskView {
        res: Some(TaskUserRes { tid, ustack_base }),
        trap_cx_ppn,
        kstack_top,
        m_allocation: Seq::empty(),
        m_need: Seq::empty(),
        s_allocation: Seq::empty(),
        s_need: Seq::empty(),
    }
}

impl TaskControlBlock {
    /// A thread that holds no lock and waits for none.
    pub fn new(tid: usize, ustack_base: usize, trap_cx_ppn: usize, kstack_top: usize) -> (task:
        TaskControlBlock)
        ensures
            task@ == new_task(tid, ustack_base, trap_cx_ppn, kstack_top),
    {
        TaskControlBlock {
            res: Some(TaskUserRes { tid, ustack_base }),
            trap_cx_ppn,
            kstack_top,
            m_allocation: Vec::new(),
            m_need: Vec::new(),
            s_allocation: Vec::new(),
            s_need: Vec::new(),
        }
    }
}

/// The contents of a slot of the thread table.
pub open spec fn slot_view(slot: Option<TaskControlBlock>) -> Option<TaskView> {
    match slot {
        Some(task) => Some(task@),
        None => None,
    }
}

/// The contents of the thread table.
pub open spec fn table_view(tasks: Seq<Option<TaskControlBlock>>) -> Seq<Option<TaskView>> {
    tasks.map_values(|slot: Option<TaskControlBlock>| slot_view(slot))
}

/// A thread with room for `len` lock ids of one kind.
pub open spec fn slot_with_room(slot: Option<TaskView>, kind: LockKind, len: int) -> Option<
    TaskView,
> {
    match slot {
        Some(task) => Some(
            task.with_claim(
                kind,
                Claim {
                    allocation: grown(task.claim(kind).allocation, len),
                    need: grown(task.claim(kind).need, len),
                },
            ),
        ),
        None => None,
    }
}

/// The thread table with room for `len` lock ids of one kind in every thread.
pub open spec fn with_room(tasks: Seq<Option<TaskView>>, kind: LockKind, len: int) -> Seq<
    Option<TaskView>,
> {
    tasks.map_values(|slot: Option<TaskView>| slot_with_room(slot, kind, len))
}

/// What the threads hold and wait for of one kind of locks.
pub open spec fn lock_claims(tasks: Seq<Option<TaskView>>, kind: LockKind) -> Seq<Option<Claim>> {
    tasks.map_values(
        |slot: Option<TaskView>|
            match slot {
                Some(task) => Some(task.claim(kind)),
                None => None,
            },
    )
}

/// Makes room for `len` lock ids of one kind in every thread.
pub(crate) fn grow_rows(tasks: &mut Vec<Option<TaskControlBlock>>, kind: LockKind, len: usize)
    ensures
        table_view(final(tasks)@) == with_room(table_view(old(tasks)@), kind, len as int),
{
    let mut i: usize = 0;
    while i < tasks.len()
        invariant
            i <= tasks@.len(),
            tasks@.len() == old(tasks)@.len(),
            forall|k: int|
                0 <= k < i ==> slot_view(#[trigger] tasks@[k]) == slot_with_room(
                    slot_view(old(tasks)@[k]),
                    kind,
                    len as int,
                ),
            forall|k: int| i <= k < tasks@.len() ==> #[trigger] tasks@[k] == old(tasks)@[k],
        decreases tasks@.len() - i,
    {
        let ghost before = tasks@;
        if let Some(task) = &mut tasks[i] {
            match kind {
                LockKind::Mutex => {
                    grow(&mut task.m_allocation, len);
                    grow(&mut task.m_need, len);
                },
                LockKind::Semaphore => {
                    grow(&mut task.s_allocation, len);
                    grow(&mut task.s_need, len);
                },
            }
        }
        assert(tasks@ =~= before.update(i as int, tasks@[i as int]));
        assert(slot_view(tasks@[i as int]) == slot_with_room(
            slot_view(before[i as int]),
            kind,
            len as int,
        ));
        i = i + 1;
    }
    assert(table_view(tasks@) =~= with_room(table_view(old(tasks)@), kind, len as int));
}

/// Copies what every thread holds and waits for of one kind of locks.
pub(crate) fn copy_rows(tasks: &Vec<Option<TaskControlBlock>>, kind: LockKind) -> (states: Vec<
    Option<(Vec<usize>, Vec<usize>)>,
>)
    ensures
        claims_of(states@) == lock_claims(table_view(tasks@), kind),
{
    let mut states: Vec<Option<(Vec<usize>, Vec<usize>)>> = Vec::with_capacity(tasks.len());
    let mut i: usize = 0;
    while i < tasks.len()
        invariant
            i <= tasks@.len(),
            states@.len() == i,
            forall|k: int|
                0 <= k < i ==> #[trigger] claims_of(states@)[k] == lock_claims(
                    table_view(tasks@),
                    kind,
                )[k],
        decreases tasks@.len() - i,
    {
        let ghost before = states@;
        match &tasks[i] {
            Some(task) => {
                let (allocation, need): (Vec<usize>, Vec<usize>) = match kind {
                    LockKind::Mutex => (task.m_allocation.clone(), task.m_need.clone()),
                    LockKind::Semaphore => (task.s_allocation.clone(), task.s_need.clone()),
                };
                assert(allocation@ =~= task@.claim(kind).allocation);
                assert(need@ =~= task@.claim(kind).need);
                states.push(Some((allocation, need)));
            },
            None => {
                states.push(None);
            },
        }
        assert forall|k: int| 0 <= k <= i implies #[trigger] claims_of(states@)[k] == lock_claims(
            table_view(tasks@),
            kind,
        )[k] by {
            if k < i {
                assert(states@[k] == before[k]);
                assert(claims_of(states@)[k] == claims_of(before)[k]);
            }
        }
        i = i + 1;
    }
    assert(claims_of(states@) =~= lock_claims(table_view(tasks@), kind));
    states
}

/// The view of a thread holds what the thread holds.
pub proof fn task_view_is_the_task(task: TaskControlBlock)
    ensures
        task@.res == task.res,
        task@.trap_cx_ppn == task.trap_cx_ppn,
        task@.kstack_top == task.kstack_top,
        task@.m_allocation == task.m_allocation@,
        task@.m_need == task.m_need@,
        task@.s_allocation == task.s_allocation@,
        task@.s_need == task.s_need@,
{
}

/// The view of the thread table has the same slots.
pub proof fn table_view_is_the_table(tasks: Seq<Option<TaskControlBlock>>, i: int)
    requires
        0 <= i < tasks.len(),
    ensures
        table_view(tasks).len() == tasks.len(),
        tasks[i] is None ==> table_view(tasks)[i] is None && slot_view(tasks[i]) is None,
        tasks[i] is Some ==> table_view(tasks)[i] == Some((tasks[i]->0)@) && slot_view(tasks[i])
            == Some((tasks[i]->0)@),
{
}

/// A new thread has its id, its stacks and its trap context, and no lock.
pub proof fn new_task_has_no_locks(
    tid: usize,
    ustack_base: usize,
    trap_cx_ppn: usize,
    kstack_top: usize,
)
    ensures
        ({
            let task = new_task(tid, ustack_base, trap_cx_ppn, kstack_top);
            &&& task.res is Some
            &&& (task.res->0).tid == tid
            &&& (task.res->0).ustack_base == ustack_base
            &&& task.trap_cx_ppn == trap_cx_ppn
            &&& task.kstack_top == kstack_top
            &&& task.m_allocation.len() == 0
            &&& task.m_need.len() == 0
            &&& task.s_allocation.len() == 0
            &&& task.s_need.len() == 0
        }),
{
}

/// The two kinds of locks have rows of their own in a thread: a claim is read from
/// the rows of its kind, and written to them alone.
pub proof fn claims_have_rows_of_their_own(task: TaskView, claim: Claim)
    ensures
        task.claim(LockKind::Mutex).allocation == task.m_allocation,
        task.claim(LockKind::Mutex).need == task.m_need,
        task.claim(LockKind::Semaphore).allocation == task.s_allocation,
        task.claim(LockKind::Semaphore).need == task.s_need,
        task.with_claim(LockKind::Mutex, claim) == (TaskView {
            m_allocation: claim.allocation,
            m_need: claim.need,
            ..task
        }),
        task.with_claim(LockKind::Semaphore, claim) == (TaskView {
            s_allocation: claim.allocation,
            s_need: claim.need,
            ..task
        }),
{
}

/// Room for `len` ids of one kind lengthens the rows of that kind in every thread,
/// and changes no slot otherwise.
pub proof fn room_lengthens_rows(tasks: Seq<Option<TaskView>>, kind: LockKind, len: int, i: int)
    requires
        0 <= i < tasks.len(),
    ensures
        with_room(tasks, kind, len).len() == tasks.len(),
        tasks[i] is None ==> with_room(tasks, kind, len)[i] is None,
        tasks[i] is Some && kind is Mutex ==> with_room(tasks, kind, len)[i] == Some(
            TaskView {
                m_allocation: grown((tasks[i]->0).m_allocation, len),
                m_need: grown((tasks[i]->0).m_need, len),
                ..tasks[i]->0
            },
        ),
        tasks[i] is Some && kind is Semaphore ==> with_room(tasks, kind, len)[i] == Some(
            TaskView {
                s_allocation: grown((tasks[i]->0).s_allocation, len),
                s_need: grown((tasks[i]->0).s_need, len),
                ..tasks[i]->0
            },
        ),
{
}

/// The claims of a thread table, slot by slot.
pub proof fn lock_claims_are_the_rows(tasks: Seq<Option<TaskView>>, i: int)
    requires
        0 <= i < tasks.len(),
    ensures
        lock_claims(tasks, LockKind::Mutex).len() == tasks.len(),
        lock_claims(tasks, LockKind::Semaphore).len() == tasks.len(),
        tasks[i] is None ==> lock_claims(tasks, LockKind::Mutex)[i] is None && lock_claims(
            tasks,
            LockKind::Semaphore,
        )[i] is None,
        tasks[i] is Some ==> lock_claims(tasks, LockKind::Mutex)[i] == Some(
            Claim { allocation: (tasks[i]->0).m_allocation, need: (tasks[i]->0).m_need },
        ),
        tasks[i] is Some ==> lock_claims(tasks, LockKind::Semaphore)[i] == Some(
            Claim { allocation: (tasks[i]->0).s_allocation, need: (tasks[i]->0).s_need },
        ),
{
}

} // verus!
