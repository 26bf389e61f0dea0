use os_kernel::mm::{LoadedImage, MemorySet, UserMapping};
use os_kernel::sync::{Condvar, Mutex, Semaphore};
use os_kernel::syscall::sync::{
    sys_condvar_create, sys_condvar_signal, sys_condvar_wait, sys_enable_deadlock_detect,
    sys_mutex_create, sys_mutex_lock, sys_mutex_lock_resume, sys_mutex_unlock,
    sys_mutex_unlock_resume, sys_semaphore_create, sys_semaphore_down, sys_semaphore_down_resume,
    sys_semaphore_up, sys_semaphore_up_resume, sys_sleep, SyncOp, DEADLOCK_ERR,
};
use os_kernel::syscall::Step;
use os_kernel::task::control::TaskControlBlock;
use os_kernel::task::process::{PidHandle, ProcessControlBlock, ProcessControlBlockInner};
use os_kernel::trap::KernelEntry;

fn process() -> ProcessControlBlock {
    let image = LoadedImage {
        memory_set: MemorySet { page_table: 11 },
        ustack_base: 0x1000,
        entry_point: 0x100,
    };
    let mapping = UserMapping { trap_cx_ppn: 7, ustack_top: 0x3000 };
    let kernel = KernelEntry { kernel_token: 99, trap_handler: 0x8000 };
    ProcessControlBlock::new(PidHandle(1), image, mapping, 0x9000, kernel).0
}

fn add_thread(inner: &mut ProcessControlBlockInner) -> usize {
    let tid = inner.alloc_tid();
    inner.tasks.push(Some(TaskControlBlock::new(tid, 0x1000, 8, 0xa000)));
    tid
}

fn lock(inner: &mut ProcessControlBlockInner, tid: usize, id: usize) -> isize {
    match sys_mutex_lock(inner, tid, id) {
        Step::Return(code) => code,
        Step::Await(_) => sys_mutex_lock_resume(inner, tid, id),
        Step::Finish(_, _) => panic!(),
    }
}

fn unlock(inner: &mut ProcessControlBlockInner, tid: usize, id: usize) -> isize {
    match sys_mutex_unlock(inner, id) {
        Step::Return(code) => code,
        Step::Await(_) => sys_mutex_unlock_resume(inner, tid, id),
        Step::Finish(_, _) => panic!(),
    }
}

fn down(inner: &mut ProcessControlBlockInner, tid: usize, id: usize) -> isize {
    match sys_semaphore_down(inner, tid, id) {
        Step::Return(code) => code,
        Step::Await(_) => sys_semaphore_down_resume(inner, tid, id),
        Step::Finish(_, _) => panic!(),
    }
}

fn up(inner: &mut ProcessControlBlockInner, tid: usize, id: usize) -> isize {
    match sys_semaphore_up(inner, id) {
        Step::Return(code) => code,
        Step::Await(_) => sys_semaphore_up_resume(inner, tid, id),
        Step::Finish(_, _) => panic!(),
    }
}

#[test]
fn deadlock_error_value() {
    assert_eq!(DEADLOCK_ERR, -57005);
}

#[test]
fn mutex_ids_start_at_zero_and_fill_gaps() {
    let mut pcb = process();
    let inner = pcb.inner_exclusive_access();
    assert_eq!(sys_mutex_create(inner, false), 0);
    assert_eq!(sys_mutex_create(inner, true), 1);
    assert_eq!(inner.mutex_list, vec![Some(Mutex::Spin), Some(Mutex::Blocking)]);
    assert_eq!(inner.m_available, vec![1, 1]);
    inner.mutex_list[0] = None;
    inner.m_available[0] = 0;
    assert_eq!(sys_mutex_create(inner, true), 0);
    assert_eq!(inner.mutex_list, vec![Some(Mutex::Blocking), Some(Mutex::Blocking)]);
    assert_eq!(inner.m_available, vec![1, 1]);
    assert_eq!(inner.get_task(0).m_need, vec![0, 0]);
    assert_eq!(inner.get_task(0).m_allocation, vec![0, 0]);
}

#[test]
fn lock_names_the_mutex_and_books_the_request() {
    let mut pcb = process();
    let inner = pcb.inner_exclusive_access();
    sys_mutex_create(inner, true);
    let step = sys_mutex_lock(inner, 0, 0);
    assert_eq!(step, Step::Await(SyncOp::Lock { mutex_id: 0, mutex: Mutex::Blocking }));
    assert_eq!(inner.get_task(0).m_need, vec![1]);
    assert_eq!(inner.get_task(0).m_allocation, vec![0]);
    assert_eq!(inner.m_available, vec![1]);
    assert_eq!(sys_mutex_lock_resume(inner, 0, 0), 0);
    assert_eq!(inner.get_task(0).m_need, vec![0]);
    assert_eq!(inner.get_task(0).m_allocation, vec![1]);
    assert_eq!(inner.m_available, vec![0]);
}

#[test]
fn unknown_mutex_is_an_error() {
    let mut pcb = process();
    let inner = pcb.inner_exclusive_access();
    assert_eq!(sys_mutex_lock(inner, 0, 0), Step::Return(-1));
    assert_eq!(sys_mutex_unlock(inner, 3), Step::Return(-1));
    sys_mutex_create(inner, false);
    inner.mutex_list[0] = None;
    assert_eq!(sys_mutex_lock(inner, 0, 0), Step::Return(-1));
    assert_eq!(sys_mutex_unlock(inner, 0), Step::Return(-1));
    assert_eq!(inner.get_task(0).m_need, vec![0]);
}

#[test]
fn unlock_restores_the_books() {
    let mut pcb = process();
    let inner = pcb.inner_exclusive_access();
    sys_mutex_create(inner, false);
    sys_mutex_create(inner, false);
    assert_eq!(lock(inner, 0, 1), 0);
    assert_eq!(inner.m_available, vec![1, 0]);
    let step = sys_mutex_unlock(inner, 1);
    assert_eq!(step, Step::Await(SyncOp::Unlock { mutex_id: 1, mutex: Mutex::Spin }));
    assert_eq!(sys_mutex_unlock_resume(inner, 0, 1), 0);
    assert_eq!(inner.m_available, vec![1, 1]);
    assert_eq!(inner.get_task(0).m_allocation, vec![0, 0]);
    assert_eq!(inner.get_task(0).m_need, vec![0, 0]);
}

#[test]
fn locking_twice_is_refused_with_detection_on() {
    let mut pcb = process();
    let inner = pcb.inner_exclusive_access();
    sys_mutex_create(inner, true);
    assert_eq!(sys_enable_deadlock_detect(inner, 1), 0);
    assert_eq!(lock(inner, 0, 0), 0);
    assert_eq!(lock(inner, 0, 0), -57005);
    assert_eq!(inner.get_task(0).m_need, vec![0]);
    assert_eq!(inner.get_task(0).m_allocation, vec![1]);
    assert_eq!(inner.m_available, vec![0]);
    assert_eq!(unlock(inner, 0, 0), 0);
    assert_eq!(lock(inner, 0, 0), 0);
}

#[test]
fn crossed_locks_are_refused_with_detection_on() {
    let mut pcb = process();
    let inner = pcb.inner_exclusive_access();
    let other = add_thread(inner);
    assert_eq!(other, 1);
    sys_mutex_create(inner, true);
    sys_mutex_create(inner, true);
    assert_eq!(sys_enable_deadlock_detect(inner, 1), 0);
    assert_eq!(lock(inner, 0, 0), 0);
    assert_eq!(lock(inner, other, 1), 0);
    // The main thread may wait: the other one can still finish.
    let step = sys_mutex_lock(inner, 0, 1);
    assert_eq!(step, Step::Await(SyncOp::Lock { mutex_id: 1, mutex: Mutex::Blocking }));
    assert_eq!(sys_mutex_lock(inner, other, 0), Step::Return(DEADLOCK_ERR));
    assert_eq!(inner.get_task(other).m_need, vec![0, 0]);
    assert_eq!(inner.get_task(0).m_need, vec![0, 1]);
}

#[test]
fn crossed_locks_are_admitted_with_detection_off() {
    let mut pcb = process();
    let inner = pcb.inner_exclusive_access();
    let other = add_thread(inner);
    sys_mutex_create(inner, true);
    sys_mutex_create(inner, true);
    assert_eq!(lock(inner, 0, 0), 0);
    assert_eq!(lock(inner, other, 1), 0);
    sys_mutex_lock(inner, 0, 1);
    let step = sys_mutex_lock(inner, other, 0);
    assert_eq!(step, Step::Await(SyncOp::Lock { mutex_id: 0, mutex: Mutex::Blocking }));
    assert!(!inner.is_mutex_state_safe());
    assert_eq!(sys_enable_deadlock_detect(inner, 1), -1);
    assert!(!inner.use_dead_lock);
}

#[test]
fn semaphores_keep_their_books() {
    let mut pcb = process();
    let inner = pcb.inner_exclusive_access();
    assert_eq!(sys_semaphore_create(inner, 2), 0);
    assert_eq!(sys_semaphore_create(inner, 0), 1);
    assert_eq!(inner.s_available, vec![2, 0]);
    let step = sys_semaphore_down(inner, 0, 0);
    let semaphore = Semaphore { res_count: 2 };
    assert_eq!(step, Step::Await(SyncOp::Down { sem_id: 0, semaphore }));
    assert_eq!(inner.get_task(0).s_need, vec![1, 0]);
    assert_eq!(sys_semaphore_down_resume(inner, 0, 0), 0);
    assert_eq!(inner.s_available, vec![1, 0]);
    assert_eq!(inner.get_task(0).s_allocation, vec![1, 0]);
    assert_eq!(inner.get_task(0).s_need, vec![0, 0]);
    let step = sys_semaphore_up(inner, 0);
    assert_eq!(step, Step::Await(SyncOp::Up { sem_id: 0, semaphore }));
    assert_eq!(sys_semaphore_up_resume(inner, 0, 0), 0);
    assert_eq!(inner.s_available, vec![2, 0]);
    assert_eq!(inner.get_task(0).s_allocation, vec![0, 0]);
}

#[test]
fn up_without_a_unit_is_an_error() {
    let mut pcb = process();
    let inner = pcb.inner_exclusive_access();
    sys_semaphore_create(inner, 0);
    assert_eq!(up(inner, 0, 0), -1);
    assert_eq!(inner.s_available, vec![0]);
    assert_eq!(up(inner, 0, 5), -1);
    assert_eq!(down(inner, 0, 5), -1);
}

#[test]
fn full_semaphore_does_not_overflow() {
    let mut pcb = process();
    let inner = pcb.inner_exclusive_access();
    sys_semaphore_create(inner, usize::MAX);
    assert_eq!(sys_semaphore_down_resume(inner, 0, 0), 0);
    inner.s_available[0] = usize::MAX;
    assert_eq!(up(inner, 0, 0), 0);
    assert_eq!(inner.s_available, vec![usize::MAX]);
}

#[test]
fn grant_of_an_empty_semaphore_stays_at_zero() {
    let mut pcb = process();
    let inner = pcb.inner_exclusive_access();
    sys_semaphore_create(inner, 0);
    assert_eq!(sys_semaphore_down_resume(inner, 0, 0), 0);
    assert_eq!(inner.s_available, vec![0]);
    assert_eq!(inner.get_task(0).s_need, vec![0]);
    assert_eq!(inner.get_task(0).s_allocation, vec![1]);
}

#[test]
fn semaphore_deadlock_is_refused() {
    let mut pcb = process();
    let inner = pcb.inner_exclusive_access();
    let other = add_thread(inner);
    sys_semaphore_create(inner, 1);
    sys_semaphore_create(inner, 1);
    assert_eq!(sys_enable_deadlock_detect(inner, 1), 0);
    assert_eq!(down(inner, 0, 0), 0);
    assert_eq!(down(inner, other, 1), 0);
    let step = sys_semaphore_down(inner, 0, 1);
    let semaphore = Semaphore { res_count: 1 };
    assert_eq!(step, Step::Await(SyncOp::Down { sem_id: 1, semaphore }));
    assert_eq!(sys_semaphore_down(inner, other, 0), Step::Return(DEADLOCK_ERR));
    assert_eq!(up(inner, other, 1), 0);
    assert_eq!(sys_semaphore_down_resume(inner, 0, 1), 0);
    assert_eq!(inner.s_available, vec![0, 0]);
    // Units that are free or held: one of each semaphore, as at the start.
    assert_eq!(inner.get_task(0).s_allocation, vec![1, 1]);
    assert_eq!(inner.get_task(other).s_allocation, vec![0, 0]);
}

#[test]
fn refused_semaphore_does_not_touch_mutexes() {
    let mut pcb = process();
    let inner = pcb.inner_exclusive_access();
    sys_mutex_create(inner, true);
    sys_semaphore_create(inner, 0);
    assert_eq!(lock(inner, 0, 0), 0);
    assert_eq!(sys_enable_deadlock_detect(inner, 1), 0);
    assert_eq!(down(inner, 0, 0), DEADLOCK_ERR);
    assert_eq!(inner.m_available, vec![0]);
    assert_eq!(inner.get_task(0).m_allocation, vec![1]);
    assert_eq!(inner.get_task(0).m_need, vec![0]);
}

#[test]
fn detection_switch() {
    let mut pcb = process();
    let inner = pcb.inner_exclusive_access();
    assert_eq!(sys_enable_deadlock_detect(inner, 2), -1);
    assert!(!inner.use_dead_lock);
    assert_eq!(sys_enable_deadlock_detect(inner, 1), 0);
    assert!(inner.use_dead_lock);
    assert_eq!(sys_enable_deadlock_detect(inner, 7), -1);
    assert!(inner.use_dead_lock);
    assert_eq!(sys_enable_deadlock_detect(inner, 0), 0);
    assert!(!inner.use_dead_lock);
}

#[test]
fn detection_is_not_turned_on_in_a_semaphore_deadlock() {
    let mut pcb = process();
    let inner = pcb.inner_exclusive_access();
    sys_semaphore_create(inner, 0);
    sys_semaphore_down(inner, 0, 0);
    assert!(inner.is_mutex_state_safe());
    assert!(!inner.is_semaphore_state_safe());
    assert_eq!(sys_enable_deadlock_detect(inner, 1), -1);
    assert!(!inner.use_dead_lock);
}

#[test]
fn late_threads_get_room_for_known_ids() {
    let mut pcb = process();
    let inner = pcb.inner_exclusive_access();
    sys_mutex_create(inner, true);
    sys_mutex_create(inner, true);
    let late = add_thread(inner);
    assert_eq!(inner.get_task(late).m_need.len(), 0);
    let states = inner.collect_mutex_states();
    assert_eq!(states[late], Some((vec![0, 0], vec![0, 0])));
    assert_eq!(inner.get_task(late).m_need, vec![0, 0]);
    inner.expand_semaphore_slot(2);
    assert_eq!(inner.s_available, vec![0, 0, 0]);
    assert_eq!(inner.get_task(late).s_need, vec![0, 0, 0]);
    assert_eq!(inner.get_task(late).s_allocation, vec![0, 0, 0]);
    inner.expand_mutex_slot(0);
    assert_eq!(inner.m_available, vec![1, 1]);
    assert_eq!(inner.collect_semaphore_states().len(), 2);
}

#[test]
fn condition_variables() {
    let mut pcb = process();
    let inner = pcb.inner_exclusive_access();
    assert_eq!(sys_condvar_create(inner), 0);
    assert_eq!(sys_condvar_create(inner), 1);
    sys_mutex_create(inner, false);
    let condvar = Condvar {};
    let step = sys_condvar_signal(inner, 1);
    assert_eq!(step, Step::Finish(SyncOp::Signal { condvar_id: 1, condvar }, 0));
    let step = sys_condvar_wait(inner, 0, 0);
    let op = SyncOp::Wait { condvar_id: 0, condvar, mutex_id: 0, mutex: Mutex::Spin };
    assert_eq!(step, Step::Finish(op, 0));
}

#[test]
fn sleep_ends_after_the_given_time() {
    assert_eq!(sys_sleep(1000, 250), Step::Finish(SyncOp::Sleep { expire_ms: 1250 }, 0));
}

#[test]
fn free_mutex_is_admitted_while_another_thread_waits() {
    let mut pcb = process();
    let inner = pcb.inner_exclusive_access();
    let other = add_thread(inner);
    sys_mutex_create(inner, true);
    sys_mutex_create(inner, true);
    assert_eq!(sys_enable_deadlock_detect(inner, 1), 0);
    assert_eq!(lock(inner, 0, 0), 0);
    let step = sys_mutex_lock(inner, other, 0);
    assert_eq!(step, Step::Await(SyncOp::Lock { mutex_id: 0, mutex: Mutex::Blocking }));
    assert_eq!(lock(inner, 0, 1), 0);
    assert!(inner.is_mutex_state_safe());
    assert_eq!(unlock(inner, 0, 1), 0);
    assert_eq!(unlock(inner, 0, 0), 0);
    assert_eq!(sys_mutex_lock_resume(inner, other, 0), 0);
    assert!(inner.is_mutex_state_safe());
    assert_eq!(inner.get_task(other).m_allocation, vec![1, 0]);
    assert_eq!(inner.m_available, vec![0, 1]);
}

#[test]
fn grant_without_a_free_mutex_keeps_the_state_safe() {
    let mut pcb = process();
    let inner = pcb.inner_exclusive_access();
    let other = add_thread(inner);
    sys_mutex_create(inner, true);
    assert_eq!(sys_enable_deadlock_detect(inner, 1), 0);
    // The main thread waits for a condition variable: the books still show the
    // mutex as its own while another thread gets it.
    assert_eq!(lock(inner, 0, 0), 0);
    assert_eq!(lock(inner, other, 0), 0);
    assert_eq!(inner.m_available, vec![0]);
    assert_eq!(inner.get_task(0).m_allocation, vec![1]);
    assert_eq!(inner.get_task(other).m_allocation, vec![1]);
    assert!(inner.is_mutex_state_safe());
}

#[test]
fn new_locks_keep_a_safe_state_safe() {
    let mut pcb = process();
    let inner = pcb.inner_exclusive_access();
    let other = add_thread(inner);
    sys_mutex_create(inner, false);
    sys_semaphore_create(inner, 1);
    assert_eq!(lock(inner, 0, 0), 0);
    assert_eq!(down(inner, 0, 0), 0);
    sys_mutex_lock(inner, other, 0);
    sys_semaphore_down(inner, other, 0);
    assert!(inner.is_mutex_state_safe());
    assert!(inner.is_semaphore_state_safe());
    assert_eq!(sys_mutex_create(inner, false), 1);
    assert_eq!(sys_semaphore_create(inner, 0), 1);
    assert!(inner.is_mutex_state_safe());
    assert!(inner.is_semaphore_state_safe());
    assert_eq!(inner.get_task(other).m_need, vec![1, 0]);
    assert_eq!(inner.get_task(other).s_need, vec![1, 0]);
}

#[test]
fn file_and_condvar_calls_keep_the_books() {
    let mut pcb = process();
    let inner = pcb.inner_exclusive_access();
    sys_mutex_create(inner, false);
    assert_eq!(lock(inner, 0, 0), 0);
    sys_condvar_create(inner);
    inner.alloc_fd();
    assert_eq!(sys_enable_deadlock_detect(inner, 0), 0);
    assert_eq!(inner.m_available, vec![0]);
    assert_eq!(inner.get_task(0).m_allocation, vec![1]);
    assert_eq!(inner.get_task(0).res.unwrap().tid, 0);
    assert_eq!(inner.thread_count(), 1);
}
