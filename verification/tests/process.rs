use os_kernel::fs::File;
use os_kernel::mm::{LoadedImage, MemorySet, UserMapping};
use os_kernel::syscall::sync::{sys_enable_deadlock_detect, sys_mutex_create};
use os_kernel::task::id::RecycleAllocator;
use os_kernel::task::process::{PidHandle, ProcessControlBlock};
use os_kernel::task::user_stack::UserStore;
use os_kernel::trap::{AppContext, KernelEntry};

const KERNEL: KernelEntry = KernelEntry { kernel_token: 99, trap_handler: 0x8000 };

fn image(page_table: usize) -> LoadedImage {
    LoadedImage { memory_set: MemorySet { page_table }, ustack_base: 0x1000, entry_point: 0x100 }
}

fn created() -> (ProcessControlBlock, AppContext) {
    let mapping = UserMapping { trap_cx_ppn: 7, ustack_top: 0x3000 };
    ProcessControlBlock::new(PidHandle(4), image(11), mapping, 0x9000, KERNEL)
}

#[test]
fn new_process() {
    let (mut process, context) = created();
    assert_eq!(process.getpid(), 4);
    assert_eq!(process.pid.0, 4);
    let expected = AppContext {
        entry_point: 0x100,
        user_sp: 0x3000,
        kernel_token: 99,
        kernel_sp: 0x9000,
        trap_handler: 0x8000,
    };
    assert_eq!(context, expected);
    let inner = process.inner_exclusive_access();
    assert!(!inner.is_zombie);
    assert_eq!(inner.get_user_token(), 11);
    assert_eq!(inner.parent, None);
    assert_eq!(inner.children, Vec::<usize>::new());
    assert_eq!(inner.exit_code, 0);
    let console = vec![Some(File::stdin()), Some(File::stdout()), Some(File::stdout())];
    assert_eq!(inner.fd_table, console);
    assert_eq!(inner.signals.bits, 0);
    assert_eq!(inner.thread_count(), 1);
    let main = inner.get_task(0);
    assert_eq!(main.res.unwrap().tid, 0);
    assert_eq!(main.res.unwrap().ustack_base, 0x1000);
    assert_eq!(main.trap_cx_ppn, 7);
    assert_eq!(main.kstack_top, 0x9000);
    assert!(inner.mutex_list.is_empty());
    assert!(inner.semaphore_list.is_empty());
    assert!(inner.condvar_list.is_empty());
    assert!(!inner.use_dead_lock);
}

#[test]
fn file_descriptors_are_the_lowest_free_ones() {
    let (mut process, _) = created();
    let inner = process.inner_exclusive_access();
    assert_eq!(inner.alloc_fd(), 3);
    assert_eq!(inner.fd_table.len(), 4);
    // Still free: it was not filled.
    assert_eq!(inner.alloc_fd(), 3);
    assert_eq!(inner.fd_table.len(), 4);
    inner.fd_table[1] = None;
    assert_eq!(inner.alloc_fd(), 1);
    assert_eq!(inner.fd_table[1], None);
}

#[test]
fn thread_ids_are_recycled() {
    let (mut process, _) = created();
    let inner = process.inner_exclusive_access();
    assert_eq!(inner.alloc_tid(), 1);
    assert_eq!(inner.alloc_tid(), 2);
    assert_eq!(inner.alloc_tid(), 3);
    inner.dealloc_tid(1);
    inner.dealloc_tid(2);
    assert_eq!(inner.alloc_tid(), 2);
    assert_eq!(inner.alloc_tid(), 1);
    assert_eq!(inner.alloc_tid(), 4);
}

#[test]
fn allocator_starts_at_zero() {
    let mut ids = RecycleAllocator::new();
    assert_eq!(ids.allocate(), 0);
    assert_eq!(ids.allocate(), 1);
    ids.deallocate(0);
    assert_eq!(ids.allocate(), 0);
    assert_eq!(ids.allocate(), 2);
}

#[test]
fn fork_copies_files_and_nothing_else() {
    let (mut parent, _) = created();
    {
        let inner = parent.inner_exclusive_access();
        inner.fd_table[1] = None;
        sys_mutex_create(inner, true);
        assert_eq!(sys_enable_deadlock_detect(inner, 1), 0);
    }
    let mut forked = parent.fork(PidHandle(9), MemorySet { page_table: 12 }, 21, 0xb000);
    assert_eq!(forked.kernel_sp, 0xb000);
    assert_eq!(forked.child.getpid(), 9);
    let child = forked.child.inner_exclusive_access();
    assert_eq!(child.parent, Some(4));
    assert_eq!(child.get_user_token(), 12);
    assert_eq!(child.fd_table, vec![Some(File::stdin()), None, Some(File::stdout())]);
    assert_eq!(child.thread_count(), 1);
    assert_eq!(child.get_task(0).res.unwrap().tid, 0);
    assert_eq!(child.get_task(0).res.unwrap().ustack_base, 0x1000);
    assert_eq!(child.get_task(0).trap_cx_ppn, 21);
    assert_eq!(child.get_task(0).kstack_top, 0xb000);
    assert!(child.mutex_list.is_empty());
    assert!(child.m_available.is_empty());
    assert!(!child.use_dead_lock);
    assert_eq!(child.alloc_tid(), 1);
    assert_eq!(parent.getpid(), 4);
    let inner = parent.inner_exclusive_access();
    assert_eq!(inner.children, vec![9]);
    assert_eq!(inner.mutex_list.len(), 1);
    assert!(inner.use_dead_lock);
}

#[test]
fn exec_lays_out_the_arguments() {
    let (mut process, _) = created();
    let mapping = UserMapping { trap_cx_ppn: 30, ustack_top: 0x2000 };
    let mut new_image = image(13);
    new_image.ustack_base = 0x5000;
    new_image.entry_point = 0x200;
    let args = vec![String::from("ab"), String::from("")];
    let loaded = process.exec(new_image, mapping, KERNEL, args);
    // Three words for the pointers, then "ab\0" below them, then "\0".
    let argv = 0x2000 - 24;
    assert_eq!(loaded.argc, 2);
    assert_eq!(loaded.argv, argv);
    let stores = vec![
        UserStore::Word { addr: argv + 16, word: 0 },
        UserStore::Word { addr: argv, word: argv - 3 },
        UserStore::Byte { addr: argv - 3, byte: b'a' },
        UserStore::Byte { addr: argv - 2, byte: b'b' },
        UserStore::Byte { addr: argv - 1, byte: 0 },
        UserStore::Word { addr: argv + 8, word: argv - 4 },
        UserStore::Byte { addr: argv - 4, byte: 0 },
    ];
    assert_eq!(loaded.stores, stores);
    let expected = AppContext {
        entry_point: 0x200,
        user_sp: 0x2000 - 32,
        kernel_token: 99,
        kernel_sp: 0x9000,
        trap_handler: 0x8000,
    };
    assert_eq!(loaded.context, expected);
    assert_eq!(process.getpid(), 4);
    let inner = process.inner_exclusive_access();
    assert_eq!(inner.get_user_token(), 13);
    assert_eq!(inner.get_task(0).res.unwrap().tid, 0);
    assert_eq!(inner.get_task(0).res.unwrap().ustack_base, 0x5000);
    assert_eq!(inner.get_task(0).trap_cx_ppn, 30);
    assert_eq!(inner.get_task(0).kstack_top, 0x9000);
    assert_eq!(inner.fd_table.len(), 3);
}

#[test]
fn exec_without_arguments() {
    let (mut process, _) = created();
    let mapping = UserMapping { trap_cx_ppn: 30, ustack_top: 0x2000 };
    let loaded = process.exec(image(13), mapping, KERNEL, Vec::new());
    assert_eq!(loaded.stores, vec![UserStore::Word { addr: 0x1ff8, word: 0 }]);
    assert_eq!(loaded.argc, 0);
    assert_eq!(loaded.argv, 0x1ff8);
    assert_eq!(loaded.context.user_sp, 0x1ff8);
}

#[test]
fn program_reads_its_arguments_back() {
    let (mut process, _) = created();
    let mapping = UserMapping { trap_cx_ppn: 30, ustack_top: 4096 };
    let args = vec![String::from("ls"), String::from("-l"), String::from("h\u{e9}llo")];
    let loaded = process.exec(image(13), mapping, KERNEL, args.clone());
    let mut memory = vec![0xffu8; 4096];
    for store in &loaded.stores {
        match *store {
            UserStore::Word { addr, word } => {
                memory[addr..addr + 8].copy_from_slice(&(word as u64).to_le_bytes());
            }
            UserStore::Byte { addr, byte } => memory[addr] = byte,
        }
    }
    let word_at = |addr: usize| {
        let mut word = [0u8; 8];
        word.copy_from_slice(&memory[addr..addr + 8]);
        u64::from_le_bytes(word) as usize
    };
    for (i, arg) in args.iter().enumerate() {
        let text = word_at(loaded.argv + 8 * i);
        assert!(loaded.context.user_sp <= text && text < loaded.argv);
        assert_eq!(&memory[text..text + arg.len()], arg.as_bytes());
        assert_eq!(memory[text + arg.len()], 0);
    }
    assert_eq!(word_at(loaded.argv + 8 * args.len()), 0);
    assert_eq!(loaded.context.user_sp % 8, 0);
    assert!(memory[..loaded.context.user_sp].iter().all(|byte| *byte == 0xff));
}
