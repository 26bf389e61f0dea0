//! Process control blocks.

use vstd::prelude::*;
#[allow(unused_imports)]
use crate::fs::{stdin_file, stdout_file, File};
use crate::mm::{LoadedImage, MemorySet, UserMapping};
#[allow(unused_imports)]
use crate::resource::{amount, grow, grown};
#[allow(unused_imports)]
use crate::slots::{has_entry, is_lowest_free, put_lowest_free, with_entry};
use crate::sync::{Condvar, Mutex, Semaphore};
#[allow(unused_imports)]
use crate::task::accounts::room_keeps_safety;
#[allow(unused_imports)]
use crate::task::books::Books;
#[allow(unused_imports)]
use crate::task::control::{
    copy_rows, grow_rows, lock_claims, new_task, slot_view, table_view, with_room, LockKind,
    TaskControlBlock, TaskUserRes, TaskView,
};
#[allow(unused_imports)]
use crate::task::id::{alloc_gives_unused_id, dealloc_frees_id, IdPool, RecycleAllocator};
#[allow(unused_imports)]
use crate::task::safety::{
    claims_of, closed_waits_are_unsafe, finished_thread_may_leave, is_state_safe,
    no_threads_are_safe, Claim,
};
#[allow(unused_imports)]
use crate::task::user_stack::{
    arg_bytes, argument_stores, argv_addr, push_arguments, stack_size, word_aligned, UserStack,
    UserStore,
};
use crate::trap::{AppContext, KernelEntry};

verus! {

/// A set of pending signals, one bit each.
#[derive(Clone, Copy, Debug, PartialEq, Eq, Structural)]
pub struct SignalFlags {
    pub bits: u32,
}

impl SignalFlags {
    /// No signal.
    pub fn empty() -> (flags: SignalFlags)
        ensures
            flags.bits == 0,
    {
        SignalFlags { bits: 0 }
    }
}

/// A process id that is in use.
pub struct PidHandle(pub usize);

/// Process Control Block.
pub struct ProcessControlBlock {
    /// The process id; it never changes.
    pub pid: PidHandle,
    inner: ProcessControlBlockInner,
}

/// What changes in a process while it runs.
pub struct ProcessControlBlockInner {
    /// Whether the process has exited and waits to be collected.
    pub is_zombie: bool,
    /// The address space.
    pub memory_set: MemorySet,
    /// The id of the parent process.
    pub parent: Option<usize>,
    /// The ids of the child processes.
    pub children: Vec<usize>,
    /// The exit code.
    pub exit_code: i32,
    /// The file descriptor table.
    pub fd_table: Vec<Option<File>>,
    /// Pending signals.
    pub signals: SignalFlags,
    /// The threads, by thread id.
    pub tasks: Vec<Option<TaskControlBlock>>,
    /// Hands out thread ids.
    pub task_res_allocator: RecycleAllocator,
    /// The mutexes, by mutex id.
    pub mutex_list: Vec<Option<Mutex>>,
    /// The semaphores, by semaphore id.
    pub semaphore_list: Vec<Option<Semaphore>>,
    /// The condition variables, by condition variable id.
    pub condvar_list: Vec<Option<Condvar>>,
    /// The free mutexes, by mutex id.
    pub m_available: Vec<usize>,
    /// The free semaphore units, by semaphore id.
    pub s_available: Vec<usize>,
    /// Whether requests that lead to a deadlock are refused.
    pub use_dead_lock: bool,
}

/// The contents of a [`ProcessControlBlockInner`].
#[verifier::ext_equal]
pub struct ProcessView {
    pub is_zombie: bool,
    pub memory_set: MemorySet,
    pub parent: Option<usize>,
    pub children: Seq<usize>,
    pub exit_code: i32,
    pub fd_table: Seq<Option<File>>,
    pub signals: SignalFlags,
    pub tasks: Seq<Option<TaskView>>,
    pub task_ids: IdPool,
    pub mutex_list: Seq<Option<Mutex>>,
    pub semaphore_list: Seq<Option<Semaphore>>,
    pub condvar_list: Seq<Option<Condvar>>,
    pub m_available: Seq<usize>,
    pub s_available: Seq<usize>,
    pub use_dead_lock: bool,
}

impl View for ProcessControlBlockInner {
    type V = ProcessView;

    open spec fn view(&self) -> ProcessView {
        ProcessView {
            is_zombie: self.is_zombie,
            memory_set: self.memory_set,
            parent: self.parent,
            children: self.children@,
            exit_code: self.exit_code,
            fd_table: self.fd_table@,
            signals: self.signals,
            tasks: table_view(self.tasks@),
            task_ids: self.task_res_allocator@,
            mutex_list: self.mutex_list@,
            semaphore_list: self.semaphore_list@,
            condvar_list: self.condvar_list@,
            m_available: self.m_available@,
            s_available: self.s_available@,
            use_dead_lock: self.use_dead_lock,
        }
    }
}

impl ProcessView {
    /// The process has a thread `tid`.
    pub open spec fn has_task(self, tid: int) -> bool {
        has_entry(self.tasks, tid)
    }

    /// The thread `tid`.
    pub open spec fn task(self, tid: int) -> TaskView {
        self.tasks[tid]->0
    }

    /// The process with thread `tid` replaced.
    pub open spec fn with_task(self, tid: int, task: TaskView) -> ProcessView {
        ProcessView { tasks: self.tasks.update(tid, Some(task)), ..self }
    }

    /// Every living thread is found under its own id, which is in use.
    pub open spec fn wf(self) -> bool {
        &&& self.task_ids.wf()
        &&& forall|i: int|
            #[trigger] self.is_alive(i) ==> (self.task(i).res->0).tid == i && self.task_ids.in_use(
                i as usize,
            )
    }

    /// Thread `tid` exists and has not exited.
    pub open spec fn is_alive(self, tid: int) -> bool {
        self.has_task(tid) && self.task(tid).res is Some
    }

    /// The only thread is the main thread, and it still runs.
    pub open spec fn is_single_threaded(self) -> bool {
        self.tasks.len() == 1 && self.is_alive(0)
    }

    /// The process with another claim of thread `tid` on one kind of locks.
    pub open spec fn with_claim(self, kind: LockKind, tid: int, claim: Claim) -> ProcessView {
        self.with_task(tid, self.task(tid).with_claim(kind, claim))
    }

    /// The free units of one kind of locks.
    pub open spec fn available(self, kind: LockKind) -> Seq<usize> {
        match kind {
            LockKind::Mutex => self.m_available,
            LockKind::Semaphore => self.s_available,
        }
    }

    /// The process with other free units of one kind of locks.
    pub open spec fn with_available(self, kind: LockKind, counts: Seq<usize>) -> ProcessView {
        match kind {
            LockKind::Mutex => ProcessView { m_available: counts, ..self },
            LockKind::Semaphore => ProcessView { s_available: counts, ..self },
        }
    }

    /// Room for lock ids up to `id`, here and in all threads.
    pub open spec fn expand_slot(self, kind: LockKind, id: int) -> ProcessView {
        ProcessView {
            tasks: with_room(self.tasks, kind, id + 1),
            ..self.with_available(kind, grown(self.available(kind), id + 1))
        }
    }

    /// Room in all threads for the lock ids that are known here.
    pub open spec fn level_rows(self, kind: LockKind) -> ProcessView {
        ProcessView {
            tasks: with_room(self.tasks, kind, self.available(kind).len() as int),
            ..self
        }
    }

    /// The books on one kind of locks.
    pub open spec fn books(self, kind: LockKind) -> Books {
        Books { available: self.available(kind), claims: lock_claims(self.tasks, kind) }
    }

    /// All threads can still get the locks of one kind that they wait for.
    pub open spec fn state_safe(self, kind: LockKind) -> bool {
        self.books(kind).is_safe()
    }
}

/// A process that has only just started: its main thread is its only one, and it
/// has no children and no locks.
pub open spec fn fresh_process(
    memory_set: MemorySet,
    parent: Option<usize>,
    fd_table: Seq<Option<File>>,
    main: TaskView,
) -> ProcessView {
    ProcessView {
        is_zombie: false,
        memory_set,
        parent,
        children: Seq::empty(),
        exit_code: 0,
        fd_table,
        signals: SignalFlags { bits: 0 },
        tasks: seq![Some(main)],
        task_ids: IdPool::fresh().after_alloc(),
        mutex_list: Seq::empty(),
        semaphore_list: Seq::empty(),
        condvar_list: Seq::empty(),
        m_available: Seq::empty(),
        s_available: Seq::empty(),
        use_dead_lock: false,
    }
}

/// A process that has only just started has its main thread under id 0.
pub proof fn fresh_process_is_wf(
    memory_set: MemorySet,
    parent: Option<usize>,
    fd_table: Seq<Option<File>>,
    ustack_base: usize,
    trap_cx_ppn: usize,
    kstack_top: usize,
)
    ensures
        ({
            let main = new_task(0, ustack_base, trap_cx_ppn, kstack_top);
            let process = fresh_process(memory_set, parent, fd_table, main);
            &&& process.wf()
            &&& process.is_single_threaded()
        }),
{
    let main = new_task(0, ustack_base, trap_cx_ppn, kstack_top);
    let process = fresh_process(memory_set, parent, fd_table, main);
    assert(!process.task_ids.recycled.contains(0));
}

/// A new thread id belongs to no living thread, and handing it out keeps every
/// living thread under its own id.
pub proof fn new_tid_is_unused(process: ProcessView, other: int)
    requires
        process.wf(),
        process.task_ids.has_free(),
    ensures
        (ProcessView { task_ids: process.task_ids.after_alloc(), ..process }).wf(),
        process.is_alive(other) ==> other != process.task_ids.first_free(),
{
    let after = ProcessView { task_ids: process.task_ids.after_alloc(), ..process };
    alloc_gives_unused_id(process.task_ids, 0);
    assert forall|i: int| #[trigger] after.is_alive(i) implies (after.task(i).res->0).tid == i
        && after.task_ids.in_use(i as usize) by {
        assert(process.is_alive(i));
        alloc_gives_unused_id(process.task_ids, i as usize);
    }
    if process.is_alive(other) {
        assert(process.task_ids.in_use(other as usize));
    }
}

/// Taking the id of a thread back that has exited keeps every living thread
/// under its own id.
pub proof fn returned_tid_keeps_wf(process: ProcessView, tid: usize)
    requires
        process.wf(),
        process.task_ids.in_use(tid),
        !process.is_alive(tid as int),
    ensures
        (ProcessView { task_ids: process.task_ids.after_dealloc(tid), ..process }).wf(),
{
    let after = ProcessView { task_ids: process.task_ids.after_dealloc(tid), ..process };
    dealloc_frees_id(process.task_ids, tid, 0);
    assert forall|i: int| #[trigger] after.is_alive(i) implies (after.task(i).res->0).tid == i
        && after.task_ids.in_use(i as usize) by {
        assert(process.is_alive(i));
        dealloc_frees_id(process.task_ids, tid, i as usize);
    }
}

/// Two processes with the same living threads under the same ids.
pub open spec fn same_threads(p: ProcessView, q: ProcessView) -> bool {
    &&& p.task_ids == q.task_ids
    &&& p.tasks.len() == q.tasks.len()
    &&& forall|i: int| #[trigger] q.is_alive(i) <==> p.is_alive(i)
    &&& forall|i: int|
        #[trigger] q.is_alive(i) ==> (q.task(i).res->0).tid == (p.task(i).res->0).tid
}

/// While the threads stay the same, they stay under their own ids.
pub proof fn same_threads_keep_wf(p: ProcessView, q: ProcessView)
    requires
        p.wf(),
        same_threads(p, q),
    ensures
        q.wf(),
{
    assert forall|i: int| #[trigger] q.is_alive(i) implies (q.task(i).res->0).tid == i
        && q.task_ids.in_use(i as usize) by {
        assert(p.is_alive(i));
    }
}

impl ProcessControlBlockInner {
    /// The page table token of the process.
    pub fn get_user_token(&self) -> (token: usize)
        ensures
            token == self@.memory_set.page_table,
    {
        self.memory_set.token()
    }

    /// Finds a free file descriptor, the lowest one; the table grows if there is
    /// none.
    pub fn alloc_fd(&mut self) -> (fd: usize)
        ensures
            is_lowest_free(old(self)@.fd_table, fd as int),
            final(self)@ == (ProcessView {
                fd_table: with_entry(old(self)@.fd_table, fd as int, None),
                ..old(self)@
            }),
    {
        put_lowest_free(&mut self.fd_table, None)
    }

    /// Hands out a thread id that is not in use.
    pub fn alloc_tid(&mut self) -> (tid: usize)
        requires
            old(self)@.task_ids.has_free(),
        ensures
            tid == old(self)@.task_ids.first_free(),
            final(self)@ == (ProcessView {
                task_ids: old(self)@.task_ids.after_alloc(),
                ..old(self)@
            }),
    {
        self.task_res_allocator.allocate()
    }

    /// Takes a thread id back.
    pub fn dealloc_tid(&mut self, tid: usize)
        requires
            old(self)@.task_ids.in_use(tid),
        ensures
            final(self)@ == (ProcessView {
                task_ids: old(self)@.task_ids.after_dealloc(tid),
                ..old(self)@
            }),
    {
        self.task_res_allocator.deallocate(tid)
    }

    /// The number of thread slots.
    pub fn thread_count(&self) -> (count: usize)
        ensures
            count == self@.tasks.len(),
    {
        self.tasks.len()
    }

    /// The thread `tid`.
    pub fn get_task(&self, tid: usize) -> (task: &TaskControlBlock)
        requires
            self@.has_task(tid as int),
        ensures
            self.tasks@[tid as int] == Some(*task),
            task@ == self@.task(tid as int),
    {
        assert(self.tasks@.len() == self@.tasks.len());
        assert(slot_view(self.tasks@[tid as int]) == self@.tasks[tid as int]);
        self.tasks[tid].as_ref().unwrap()
    }

    /// A process without threads, children or locks.
    fn empty(memory_set: MemorySet, parent: Option<usize>, fd_table: Vec<Option<File>>) -> (process:
        ProcessControlBlockInner)
        ensures
            forall|main: TaskView|
                process@ == (ProcessView {
                    tasks: Seq::empty(),
                    task_ids: IdPool::fresh(),
                    ..#[trigger] fresh_process(memory_set, parent, fd_table@, main)
                }),
    {
        let process = ProcessControlBlockInner {
            is_zombie: false,
            memory_set,
            parent,
            children: Vec::new(),
            exit_code: 0,
            fd_table,
            signals: SignalFlags::empty(),
            tasks: Vec::new(),
            task_res_allocator: RecycleAllocator::new(),
            mutex_list: Vec::new(),
            semaphore_list: Vec::new(),
            condvar_list: Vec::new(),
            m_available: Vec::new(),
            s_available: Vec::new(),
            use_dead_lock: false,
        };
        assert(process@.tasks =~= Seq::empty());
        process
    }

    /// Gives a process without threads its main thread.
    fn add_main_thread(&mut self, ustack_base: usize, trap_cx_ppn: usize, kstack_top: usize)
        requires
            old(self)@.tasks == Seq::<Option<TaskView>>::empty(),
            old(self)@.task_ids == IdPool::fresh(),
        ensures
            final(self)@ == (ProcessView {
                tasks: seq![Some(new_task(0, ustack_base, trap_cx_ppn, kstack_top))],
                task_ids: IdPool::fresh().after_alloc(),
                ..old(self)@
            }),
    {
        let tid: usize = self.alloc_tid();
        assert(self.tasks@.len() == self@.tasks.len());
        self.tasks.push(Some(TaskControlBlock::new(tid, ustack_base, trap_cx_ppn, kstack_top)));
        assert(self@.tasks =~= seq![Some(new_task(0, ustack_base, trap_cx_ppn, kstack_top))]);
    }

    /// Makes room for mutex ids up to `id`, here and in all threads.
    pub fn expand_mutex_slot(&mut self, id: usize)
        requires
            id < usize::MAX,
        ensures
            final(self)@ == old(self)@.expand_slot(LockKind::Mutex, id as int),
    {
        grow(&mut self.m_available, id + 1);
        grow_rows(&mut self.tasks, LockKind::Mutex, id + 1);
    }

    /// Whether all threads can still get the mutexes that they wait for. Threads
    /// with too little room for the known mutex ids get more.
    pub fn is_mutex_state_safe(&mut self) -> (safe: bool)
        ensures
            safe == old(self)@.state_safe(LockKind::Mutex),
            final(self)@ == old(self)@.level_rows(LockKind::Mutex),
    {
        let states = self.collect_mutex_states();
        proof {
            room_keeps_safety(LockKind::Mutex, old(self)@, 0);
        }
        is_state_safe(self.m_available.as_slice(), states)
    }

    /// What every thread holds and waits for of the mutexes. Threads with too
    /// little room for the known mutex ids get more.
    pub fn collect_mutex_states(&mut self) -> (states: Vec<Option<(Vec<usize>, Vec<usize>)>>)
        ensures
            claims_of(states@) == final(self)@.books(LockKind::Mutex).claims,
            final(self)@ == old(self)@.level_rows(LockKind::Mutex),
    {
        let len: usize = self.m_available.len();
        grow_rows(&mut self.tasks, LockKind::Mutex, len);
        copy_rows(&self.tasks, LockKind::Mutex)
    }

    /// Makes room for semaphore ids up to `id`, here and in all threads.
    pub fn expand_semaphore_slot(&mut self, id: usize)
        requires
            id < usize::MAX,
        ensures
            final(self)@ == old(self)@.expand_slot(LockKind::Semaphore, id as int),
    {
        grow(&mut self.s_available, id + 1);
        grow_rows(&mut self.tasks, LockKind::Semaphore, id + 1);
    }

    /// Whether all threads can still get the semaphores that they wait for. Threads
    /// with too little room for the known semaphore ids get more.
    pub fn is_semaphore_state_safe(&mut self) -> (safe: bool)
        ensures
            safe == old(self)@.state_safe(LockKind::Semaphore),
            final(self)@ == old(self)@.level_rows(LockKind::Semaphore),
    {
        let states = self.collect_semaphore_states();
        proof {
            room_keeps_safety(LockKind::Semaphore, old(self)@, 0);
        }
        is_state_safe(self.s_available.as_slice(), states)
    }

    /// What every thread holds and waits for of the semaphores. Threads with too
    /// little room for the known semaphore ids get more.
    pub fn collect_semaphore_states(&mut self) -> (states: Vec<Option<(Vec<usize>, Vec<usize>)>>)
        ensures
            claims_of(states@) == final(self)@.books(LockKind::Semaphore).claims,
            final(self)@ == old(self)@.level_rows(LockKind::Semaphore),
    {
        let len: usize = self.s_available.len();
        grow_rows(&mut self.tasks, LockKind::Semaphore, len);
        copy_rows(&self.tasks, LockKind::Semaphore)
    }
}

/// A process that was forked off.
pub struct Forked {
    /// The child.
    pub child: ProcessControlBlock,
    /// The kernel stack pointer for the trap context of its main thread.
    pub kernel_sp: usize,
}

/// What is left to do before the program that replaced another can run.
pub struct ExecImage {
    /// The stores that put the arguments on its stack.
    pub stores: Vec<UserStore>,
    /// Its initial trap context.
    pub context: AppContext,
    /// Its first argument register: the number of arguments.
    pub argc: usize,
    /// Its second argument register: the vector of argument pointers.
    pub argv: usize,
}

impl ProcessControlBlock {
    /// The process id.
    pub closed spec fn id(self) -> usize {
        self.pid.0
    }

    /// What changes in the process while it runs.
    pub closed spec fn process(self) -> ProcessControlBlockInner {
        self.inner
    }

    /// Access to what changes in the process.
    pub fn inner_exclusive_access(&mut self) -> (inner: &mut ProcessControlBlockInner)
        ensures
            *inner == old(self).process(),
            final(self).process() == *final(inner),
            final(self).id() == old(self).id(),
    {
        &mut self.inner
    }

    /// The process id.
    pub fn getpid(&self) -> (pid: usize)
        ensures
            pid == self.id(),
    {
        self.pid.0
    }

    /// A process that runs a program from its start, with the console as its
    /// first three files. Returns the trap context that its main thread starts
    /// with, too.
    pub fn new(
        pid: PidHandle,
        image: LoadedImage,
        mapping: UserMapping,
        kstack_top: usize,
        kernel: KernelEntry,
    ) -> (created: (ProcessControlBlock, AppContext))
        ensures
            created.0.id() == pid.0,
            created.0.process()@ == fresh_process(
                image.memory_set,
                None,
                seq![Some(stdin_file()), Some(stdout_file()), Some(stdout_file())],
                new_task(0, image.ustack_base, mapping.trap_cx_ppn, kstack_top),
            ),
            created.0.process()@.wf(),
            created.1 == (AppContext {
                entry_point: image.entry_point,
                user_sp: mapping.ustack_top,
                kernel_token: kernel.kernel_token,
                kernel_sp: kstack_top,
                trap_handler: kernel.trap_handler,
            }),
    {
        let mut fd_table: Vec<Option<File>> = Vec::new();
        fd_table.push(Some(File::stdin()));
        fd_table.push(Some(File::stdout()));
        fd_table.push(Some(File::stdout()));
        assert(fd_table@ =~= seq![Some(stdin_file()), Some(stdout_file()), Some(stdout_file())]);
        let mut inner = ProcessControlBlockInner::empty(image.memory_set, None, fd_table);
        inner.add_main_thread(image.ustack_base, mapping.trap_cx_ppn, kstack_top);
        let context = AppContext {
            entry_point: image.entry_point,
            user_sp: mapping.ustack_top,
            kernel_token: kernel.kernel_token,
            kernel_sp: kstack_top,
            trap_handler: kernel.trap_handler,
        };
        proof {
            fresh_process_is_wf(
                image.memory_set,
                None,
                inner@.fd_table,
                image.ustack_base,
                mapping.trap_cx_ppn,
                kstack_top,
            );
        }
        (ProcessControlBlock { pid, inner }, context)
    }

    /// Replaces the program of a process with a single thread. What the process
    /// owns otherwise (files, children, locks) stays.
    pub fn exec(
        &mut self,
        image: LoadedImage,
        mapping: UserMapping,
        kernel: KernelEntry,
        args: Vec<String>,
    ) -> (loaded: ExecImage)
        requires
            old(self).process()@.is_single_threaded(),
            stack_size(arg_bytes(args@)) <= mapping.ustack_top,
        ensures
            final(self).id() == old(self).id(),
            final(self).process()@ == (ProcessView {
                memory_set: image.memory_set,
                ..old(self).process()@
            }).with_task(
                0,
                TaskView {
                    res: Some(
                        TaskUserRes {
                            ustack_base: image.ustack_base,
                            ..old(self).process()@.task(0).res->0
                        },
                    ),
                    trap_cx_ppn: mapping.trap_cx_ppn,
                    ..old(self).process()@.task(0)
                },
            ),
            old(self).process()@.wf() ==> final(self).process()@.wf(),
            loaded.stores@ == argument_stores(
                mapping.ustack_top as int,
                arg_bytes(args@),
                args@.len() as int,
            ),
            loaded.context == (AppContext {
                entry_point: image.entry_point,
                user_sp: word_aligned(mapping.ustack_top - stack_size(arg_bytes(args@))) as usize,
                kernel_token: kernel.kernel_token,
                kernel_sp: old(self).process()@.task(0).kstack_top,
                trap_handler: kernel.trap_handler,
            }),
            loaded.argc == args@.len(),
            loaded.argv == argv_addr(mapping.ustack_top as int, arg_bytes(args@)),
    {
        self.inner.memory_set = image.memory_set;
        let mut kernel_sp: usize = 0;
        assert(slot_view(self.inner.tasks@[0]) == old(self).inner@.tasks[0]);
        if let Some(task) = &mut self.inner.tasks[0] {
            if let Some(res) = &mut task.res {
                res.ustack_base = image.ustack_base;
            }
            task.trap_cx_ppn = mapping.trap_cx_ppn;
            kernel_sp = task.kstack_top;
        }
        assert(self.inner@.tasks =~= old(self).inner@.tasks.update(0, self.inner@.tasks[0]));
        proof {
            if old(self).inner@.wf() {
                same_threads_keep_wf(old(self).inner@, self.inner@);
            }
        }
        let stack: UserStack = push_arguments(mapping.ustack_top, &args);
        let context = AppContext {
            entry_point: image.entry_point,
            user_sp: stack.user_sp,
            kernel_token: kernel.kernel_token,
            kernel_sp,
            trap_handler: kernel.trap_handler,
        };
        ExecImage { stores: stack.stores, context, argc: args.len(), argv: stack.argv_base }
    }

    /// Forks a child off a process with a single thread. The child has the
    /// address space `memory_set`, a copy of its parent's, and the same files;
    /// the parent lists it among its children.
    pub fn fork(
        &mut self,
        pid: PidHandle,
        memory_set: MemorySet,
        trap_cx_ppn: usize,
        kstack_top: usize,
    ) -> (forked: Forked)
        requires
            old(self).process()@.is_single_threaded(),
        ensures
            final(self).id() == old(self).id(),
            final(self).process()@ == (ProcessView {
                children: old(self).process()@.children.push(pid.0),
                ..old(self).process()@
            }),
            forked.child.id() == pid.0,
            forked.child.process()@ == fresh_process(
                memory_set,
                Some(old(self).id()),
                old(self).process()@.fd_table,
                new_task(
                    0,
                    (old(self).process()@.task(0).res->0).ustack_base,
                    trap_cx_ppn,
                    kstack_top,
                ),
            ),
            forked.child.process()@.wf(),
            forked.child.process().fd_table@ == old(self).process().fd_table@,
            forked.child.process().memory_set == memory_set,
            forked.child.process().parent == Some(old(self).id()),
            final(self).process().fd_table@ == old(self).process().fd_table@,
            final(self).process().children@ == old(self).process().children@.push(pid.0),
            forked.kernel_sp == kstack_top,
    {
        let mut new_fd_table: Vec<Option<File>> = Vec::new();
        let mut fd: usize = 0;
        while fd < self.inner.fd_table.len()
            invariant
                fd <= self.inner.fd_table@.len(),
                new_fd_table@ == self.inner.fd_table@.take(fd as int),
                *self == *old(self),
            decreases self.inner.fd_table@.len() - fd,
        {
            if let Some(file) = self.inner.fd_table[fd] {
                new_fd_table.push(Some(file));
            } else {
                new_fd_table.push(None);
            }
            assert(new_fd_table@ =~= self.inner.fd_table@.take(fd + 1));
            fd = fd + 1;
        }
        assert(new_fd_table@ =~= self.inner.fd_table@);
        let mut inner = ProcessControlBlockInner::empty(
            memory_set,
            Some(self.getpid()),
            new_fd_table,
        );
        self.inner.children.push(pid.0);
        let ustack_base: usize = self.inner.get_task(0).res.unwrap().ustack_base;
        inner.add_main_thread(ustack_base, trap_cx_ppn, kstack_top);
        proof {
            fresh_process_is_wf(
                memory_set,
                Some(self.pid.0),
                inner@.fd_table,
                ustack_base,
                trap_cx_ppn,
                kstack_top,
            );
        }
        Forked { child: ProcessControlBlock { pid, inner }, kernel_sp: kstack_top }
    }
}

/// The view of a process holds what the process holds.
pub proof fn process_view_is_the_process(process: ProcessControlBlockInner)
    ensures
        process@.is_zombie == process.is_zombie,
        process@.memory_set == process.memory_set,
        process@.parent == process.parent,
        process@.children == process.children@,
        process@.exit_code == process.exit_code,
        process@.fd_table == process.fd_table@,
        process@.signals == process.signals,
        process@.tasks == table_view(process.tasks@),
        process@.task_ids == process.task_res_allocator@,
        process@.mutex_list == process.mutex_list@,
        process@.semaphore_list == process.semaphore_list@,
        process@.condvar_list == process.condvar_list@,
        process@.m_available == process.m_available@,
        process@.s_available == process.s_available@,
        process@.use_dead_lock == process.use_dead_lock,
{
}

/// A process control block is its process id and what changes.
proof fn control_block_is_its_parts(block: ProcessControlBlock)
    ensures
        block.id() == block.pid.0,
        block.process() == block.inner,
{
}

/// A process that has only just started has what it was given, its main thread, and
/// nothing else.
pub proof fn fresh_process_has_what_it_was_given(
    memory_set: MemorySet,
    parent: Option<usize>,
    fd_table: Seq<Option<File>>,
    main: TaskView,
)
    ensures
        ({
            let process = fresh_process(memory_set, parent, fd_table, main);
            &&& !process.is_zombie
            &&& process.memory_set == memory_set
            &&& process.parent == parent
            &&& process.children.len() == 0
            &&& process.exit_code == 0
            &&& process.fd_table == fd_table
            &&& process.signals.bits == 0
            &&& process.tasks.len() == 1
            &&& process.tasks[0] == Some(main)
            &&& process.task_ids.next == 1
            &&& process.task_ids.recycled.len() == 0
            &&& process.mutex_list.len() == 0
            &&& process.semaphore_list.len() == 0
            &&& process.condvar_list.len() == 0
            &&& process.m_available.len() == 0
            &&& process.s_available.len() == 0
            &&& !process.use_dead_lock
        }),
{
}

/// A thread is found in its slot, and replacing it changes that slot alone.
pub proof fn thread_is_found_in_its_slot(
    p: ProcessView,
    tid: int,
    task: TaskView,
    kind: LockKind,
    claim: Claim,
)
    ensures
        p.has_task(tid) <==> 0 <= tid < p.tasks.len() && p.tasks[tid] != None::<TaskView>,
        p.is_alive(tid) <==> 0 <= tid < p.tasks.len() && p.tasks[tid] is Some && (
        p.tasks[tid]->0).res is Some,
        p.is_single_threaded() <==> p.tasks.len() == 1 && p.tasks[0] is Some && (
        p.tasks[0]->0).res is Some,
        p.has_task(tid) ==> p.tasks[tid] == Some(p.task(tid)),
        p.with_task(tid, task) == (ProcessView { tasks: p.tasks.update(tid, Some(task)), ..p }),
        p.has_task(tid) ==> p.with_claim(kind, tid, claim) == (ProcessView {
            tasks: p.tasks.update(tid, Some((p.tasks[tid]->0).with_claim(kind, claim))),
            ..p
        }),
{
}

/// In a well-formed process every thread that has not exited stands under its own
/// id, which was handed out and has not come back.
pub proof fn living_threads_have_their_ids(p: ProcessView)
    ensures
        p.wf() <==> p.task_ids.wf() && forall|i: int|
            0 <= i < p.tasks.len() && #[trigger] p.tasks[i] is Some && (p.tasks[i]->0).res is Some
                ==> ((p.tasks[i]->0).res->0).tid == i && p.task_ids.in_use(i as usize),
{
    if p.wf() {
        assert forall|i: int|
            0 <= i < p.tasks.len() && #[trigger] p.tasks[i] is Some && (p.tasks[i]->0).res is Some
            implies ((p.tasks[i]->0).res->0).tid == i && p.task_ids.in_use(i as usize) by {
            assert(p.is_alive(i));
        }
    }
    if p.task_ids.wf() && forall|i: int|
        0 <= i < p.tasks.len() && #[trigger] p.tasks[i] is Some && (p.tasks[i]->0).res is Some
            ==> ((p.tasks[i]->0).res->0).tid == i && p.task_ids.in_use(i as usize) {
        assert forall|i: int| #[trigger] p.is_alive(i) implies (p.task(i).res->0).tid == i
            && p.task_ids.in_use(i as usize) by {
            assert(p.tasks[i] is Some);
        }
    }
}

/// The free units of the two kinds of locks are kept apart.
pub proof fn free_units_are_kept_apart(p: ProcessView, counts: Seq<usize>)
    ensures
        p.available(LockKind::Mutex) == p.m_available,
        p.available(LockKind::Semaphore) == p.s_available,
        p.with_available(LockKind::Mutex, counts) == (ProcessView { m_available: counts, ..p }),
        p.with_available(LockKind::Semaphore, counts) == (ProcessView { s_available: counts, ..p }),
        p.books(LockKind::Mutex).available == p.m_available,
        p.books(LockKind::Mutex).claims == lock_claims(p.tasks, LockKind::Mutex),
        p.books(LockKind::Semaphore).available == p.s_available,
        p.books(LockKind::Semaphore).claims == lock_claims(p.tasks, LockKind::Semaphore),
{
}

/// Making room for lock ids lengthens the rows of one kind and changes nothing
/// else: up to a new id here and in all threads, or up to the known ids in the
/// threads alone.
pub proof fn room_is_for_one_kind(p: ProcessView, id: int)
    ensures
        p.expand_slot(LockKind::Mutex, id) == (ProcessView {
            m_available: grown(p.m_available, id + 1),
            tasks: with_room(p.tasks, LockKind::Mutex, id + 1),
            ..p
        }),
        p.expand_slot(LockKind::Semaphore, id) == (ProcessView {
            s_available: grown(p.s_available, id + 1),
            tasks: with_room(p.tasks, LockKind::Semaphore, id + 1),
            ..p
        }),
        p.level_rows(LockKind::Mutex) == (ProcessView {
            tasks: with_room(p.tasks, LockKind::Mutex, p.m_available.len() as int),
            ..p
        }),
        p.level_rows(LockKind::Semaphore) == (ProcessView {
            tasks: with_room(p.tasks, LockKind::Semaphore, p.s_available.len() as int),
            ..p
        }),
{
}

/// Without threads there is no deadlock.
pub proof fn no_threads_no_deadlock(kind: LockKind, p: ProcessView)
    requires
        forall|i: int| 0 <= i < p.tasks.len() ==> #[trigger] p.tasks[i] is None,
    ensures
        p.state_safe(kind),
{
    let claims = lock_claims(p.tasks, kind);
    assert forall|i: int| 0 <= i < claims.len() implies #[trigger] claims[i] is None by {
        assert(p.tasks[i] is None);
    }
    no_threads_are_safe(p.available(kind), claims);
}

/// A thread all of whose waits can be met may run to its end: there is a deadlock
/// exactly if there is one once it is gone and has given back what it held. A free
/// count that would be too large is the largest one.
pub proof fn finished_thread_makes_no_deadlock(
    kind: LockKind,
    p: ProcessView,
    tid: int,
    rest: ProcessView,
)
    requires
        0 <= tid < p.tasks.len(),
        p.tasks[tid] is Some,
        forall|id: int| #[trigger]
            amount((p.tasks[tid]->0).claim(kind).need, id) <= amount(p.available(kind), id),
        rest.tasks == p.tasks.update(tid, None),
        forall|id: int|
            #![trigger amount(rest.available(kind), id)]
            {
                let sum = amount(p.available(kind), id) + amount(
                    (p.tasks[tid]->0).claim(kind).allocation,
                    id,
                );
                amount(rest.available(kind), id) == if sum <= usize::MAX {
                    sum
                } else {
                    usize::MAX as int
                }
            },
    ensures
        p.state_safe(kind) == rest.state_safe(kind),
{
    let claims = lock_claims(p.tasks, kind);
    assert(claims[tid] == Some((p.tasks[tid]->0).claim(kind)));
    finished_thread_may_leave(p.available(kind), claims, tid, rest.available(kind));
    assert(lock_claims(rest.tasks, kind) =~= claims.update(tid, None));
}

/// Threads that wait for one another are deadlocked, however many they are: if each
/// thread `i` of a set waits for more of the lock `lock(i)` than is free, and no
/// thread outside the set holds any of it, the state is not safe. So a request that
/// closes a cycle of waits is refused with deadlock detection on.
pub proof fn closed_waits_are_a_deadlock(
    kind: LockKind,
    p: ProcessView,
    stuck: Set<int>,
    lock: spec_fn(int) -> int,
    first: int,
)
    requires
        stuck.contains(first),
        forall|i: int| #[trigger]
            stuck.contains(i) ==> {
                &&& 0 <= i < p.tasks.len()
                &&& p.tasks[i] is Some
                &&& amount((p.tasks[i]->0).claim(kind).need, lock(i)) > amount(
                    p.available(kind),
                    lock(i),
                )
            },
        forall|i: int, j: int| #[trigger]
            stuck.contains(i) && 0 <= j < p.tasks.len() && #[trigger] p.tasks[j] is Some
                && !stuck.contains(j) ==> amount(
                (p.tasks[j]->0).claim(kind).allocation,
                lock(i),
            ) == 0,
    ensures
        !p.state_safe(kind),
{
    let claims = lock_claims(p.tasks, kind);
    assert forall|i: int, j: int| #[trigger]
        stuck.contains(i) && 0 <= j < claims.len() && #[trigger] claims[j] is Some
        && !stuck.contains(j) implies amount((claims[j]->0).allocation, lock(i)) == 0 by {
        assert(p.tasks[j] is Some);
    }
    closed_waits_are_unsafe(p.available(kind), claims, stuck, lock, first);
}

/// Processes with the same threads have the same slots, and in them the same living
/// threads with the same ids.
pub proof fn same_threads_have_the_same_ids(p: ProcessView, q: ProcessView, i: int)
    requires
        same_threads(p, q),
    ensures
        q.task_ids == p.task_ids,
        q.tasks.len() == p.tasks.len(),
        q.is_alive(i) <==> p.is_alive(i),
        q.is_alive(i) ==> ((q.tasks[i]->0).res->0).tid == ((p.tasks[i]->0).res->0).tid,
{
}

} // verus!
