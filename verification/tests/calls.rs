use os_kernel::fs::{File, FileKind, Stat, StatMode};
use os_kernel::mm::{LoadedImage, MemorySet, UserMapping};
use os_kernel::syscall::fs::{
    sys_close, sys_fstat, sys_fstat_resume, sys_linkat, sys_linkat_resume, sys_open, sys_read,
    sys_read_resume, sys_unlinkat, sys_unlinkat_resume, sys_write, sys_write_resume, FileOp,
};
use os_kernel::syscall::process::{
    sys_exit, sys_get_time, sys_mmap, sys_mmap_resume, sys_munmap, sys_munmap_resume, sys_sbrk,
    sys_sbrk_resume, sys_trace, sys_trace_counted, sys_trace_load, sys_trace_readable,
    sys_trace_store, sys_trace_writable, sys_yield, ProcessOp, TimeVal,
};
use os_kernel::syscall::Step;
use os_kernel::task::process::{PidHandle, ProcessControlBlock};
use os_kernel::trap::KernelEntry;

fn process() -> ProcessControlBlock {
    let image = LoadedImage {
        memory_set: MemorySet { page_table: 11 },
        ustack_base: 0x1000,
        entry_point: 0x100,
    };
    let mapping = UserMapping { trap_cx_ppn: 7, ustack_top: 0x3000 };
    let kernel = KernelEntry { kernel_token: 99, trap_handler: 0x8000 };
    ProcessControlBlock::new(PidHandle(1), image, mapping, 0x9000, kernel).0
}

fn inode(handle: usize) -> File {
    File { kind: FileKind::Inode { handle }, readable: true, writable: false }
}

#[test]
fn write_needs_a_writable_file() {
    let mut pcb = process();
    let inner = pcb.inner_exclusive_access();
    assert_eq!(sys_write(inner, 0, 5, 6), Step::Return(-1));
    assert_eq!(sys_write(inner, 3, 5, 6), Step::Return(-1));
    let file = File::stdout();
    assert_eq!(sys_write(inner, 1, 5, 6), Step::Await(FileOp::Write { file, buf: 5, len: 6 }));
    inner.fd_table[1] = None;
    assert_eq!(sys_write(inner, 1, 5, 6), Step::Return(-1));
    assert_eq!(sys_write_resume(6), 6);
}

#[test]
fn read_needs_a_readable_file() {
    let mut pcb = process();
    let inner = pcb.inner_exclusive_access();
    let file = File::stdin();
    assert_eq!(sys_read(inner, 0, 5, 6), Step::Await(FileOp::Read { file, buf: 5, len: 6 }));
    assert_eq!(sys_read(inner, 1, 5, 6), Step::Return(-1));
    assert_eq!(sys_read(inner, 9, 5, 6), Step::Return(-1));
    inner.fd_table[0] = None;
    assert_eq!(sys_read(inner, 0, 5, 6), Step::Return(-1));
    assert_eq!(sys_read_resume(0), 0);
}

#[test]
fn large_counts_wrap_round() {
    assert_eq!(sys_write_resume(isize::MAX as usize), isize::MAX);
    assert_eq!(sys_write_resume(isize::MAX as usize + 1), isize::MIN);
    assert_eq!(sys_write_resume(usize::MAX), -1);
    assert_eq!(sys_trace_counted(usize::MAX - 1), -2);
}

#[test]
fn open_and_close() {
    let mut pcb = process();
    let inner = pcb.inner_exclusive_access();
    assert_eq!(sys_open(inner, None), -1);
    assert_eq!(inner.fd_table.len(), 3);
    assert_eq!(sys_open(inner, Some(inode(40))), 3);
    assert_eq!(inner.fd_table[3], Some(inode(40)));
    assert_eq!(sys_close(inner, 3), 0);
    assert_eq!(inner.fd_table[3], None);
    assert_eq!(sys_close(inner, 3), -1);
    assert_eq!(sys_close(inner, 4), -1);
    assert_eq!(sys_close(inner, 1), 0);
    assert_eq!(sys_open(inner, Some(inode(41))), 1);
    assert_eq!(sys_open(inner, Some(inode(42))), 3);
    assert_eq!(inner.fd_table[2], Some(File::stdout()));
}

#[test]
fn fstat_needs_an_inode() {
    let mut pcb = process();
    let inner = pcb.inner_exclusive_access();
    assert_eq!(sys_fstat(inner, 0), Step::Return(-1));
    assert_eq!(sys_fstat(inner, 7), Step::Return(-1));
    sys_open(inner, Some(inode(40)));
    assert_eq!(sys_fstat(inner, 3), Step::Await(FileOp::Stat { handle: 40 }));
    sys_close(inner, 3);
    assert_eq!(sys_fstat(inner, 3), Step::Return(-1));
    let mut stat = Stat { dev: 5, ino: 5, mode: StatMode::File, nlink: 5, pad: [5; 7] };
    assert_eq!(sys_fstat_resume(17, 2, &mut stat), 0);
    let expected = Stat { dev: 0, ino: 17, mode: StatMode::File, nlink: 2, pad: [0; 7] };
    assert_eq!(stat, expected);
}

#[test]
fn link_needs_two_names() {
    let a = || String::from("a");
    let b = || String::from("b");
    let op = FileOp::Link { old_name: a(), new_name: b() };
    assert_eq!(sys_linkat(a(), b()), Step::Await(op));
    assert_eq!(sys_linkat(a(), a()), Step::Return(-1));
    assert_eq!(sys_linkat_resume(true), 0);
    assert_eq!(sys_linkat_resume(false), -1);
}

#[test]
fn unlink_needs_the_name() {
    let a = || String::from("a");
    assert_eq!(sys_unlinkat(a(), true), Step::Await(FileOp::Unlink { name: a() }));
    assert_eq!(sys_unlinkat(a(), false), Step::Return(-1));
    assert_eq!(sys_unlinkat_resume(0), 0);
    assert_eq!(sys_unlinkat_resume(-1), -1);
    assert_eq!(sys_unlinkat_resume(3), -1);
}

fn time_bytes(time: TimeVal) -> Vec<u8> {
    let mut bytes = (time.sec as u64).to_le_bytes().to_vec();
    bytes.extend((time.usec as u64).to_le_bytes());
    bytes
}

#[test]
fn time_in_one_piece() {
    let mut page = [0xffu8; 20];
    assert_eq!(sys_get_time(3_000_007, vec![&mut page[..]]), 0);
    assert_eq!(&page[..16], &time_bytes(TimeVal { sec: 3, usec: 7 })[..]);
    assert_eq!(&page[16..], &[0xff; 4]);
}

#[test]
fn time_across_pages() {
    let us = 0x0123_4567_89ab_cdef;
    let expected = time_bytes(TimeVal { sec: us / 1_000_000, usec: us % 1_000_000 });
    for split in 0..=16 {
        let mut first = vec![0u8; split];
        let mut second = vec![0u8; 16 - split];
        assert_eq!(sys_get_time(us, vec![&mut first[..], &mut second[..]]), 0);
        first.extend(second);
        assert_eq!(first, expected);
    }
    let mut pieces = [[0u8; 1], [0u8; 1], [0u8; 1]];
    let buffers: Vec<&mut [u8]> = pieces.iter_mut().map(|piece| &mut piece[..]).collect();
    assert_eq!(sys_get_time(us, buffers), 0);
    assert_eq!([pieces[0][0], pieces[1][0], pieces[2][0]], expected[..3]);
    assert_eq!(sys_get_time(us, Vec::new()), 0);
}

#[test]
fn trace_reads_a_byte() {
    let step = sys_trace(0, 0x40, 9);
    assert_eq!(step, Step::Await(ProcessOp::CheckReadable { addr: 0x40 }));
    assert_eq!(sys_trace_readable(0x40, false), Step::Return(-1));
    assert_eq!(sys_trace_readable(0x40, true), Step::Await(ProcessOp::LoadByte { addr: 0x40 }));
    let mut byte = [0xabu8];
    assert_eq!(sys_trace_load(&vec![&mut byte[..]]), 0xab);
    assert_eq!(sys_trace_load(&Vec::new()), -1);
}

#[test]
fn trace_writes_a_byte() {
    let step = sys_trace(1, 0x40, 0x1234);
    assert_eq!(step, Step::Await(ProcessOp::CheckWritable { addr: 0x40, data: 0x1234 }));
    assert_eq!(sys_trace_writable(0x40, 0x1234, false), Step::Return(-1));
    let op = ProcessOp::StoreByte { addr: 0x40, data: 0x1234 };
    assert_eq!(sys_trace_writable(0x40, 0x1234, true), Step::Await(op));
    let mut first = [0u8; 2];
    let mut second = [7u8];
    assert_eq!(sys_trace_store(vec![&mut first[..], &mut second[..]], 0x1234), 0);
    assert_eq!(first, [0x34, 0]);
    assert_eq!(second, [7]);
    assert_eq!(sys_trace_store(Vec::new(), 0x1234), -1);
}

#[test]
fn trace_counts_calls() {
    assert_eq!(sys_trace(2, 64, 0), Step::Await(ProcessOp::CountCalls { id: 64 }));
    assert_eq!(sys_trace_counted(12), 12);
    assert_eq!(sys_trace(3, 64, 0), Step::Return(-1));
}

#[test]
fn scheduling_calls() {
    assert_eq!(sys_exit(3), Step::Await(ProcessOp::Exit { exit_code: 3 }));
    assert_eq!(sys_exit(-4), Step::Await(ProcessOp::Exit { exit_code: -4 }));
    assert_ne!(sys_exit(3), sys_exit(-4));
    assert_eq!(sys_yield(), Step::Finish(ProcessOp::Suspend, 0));
}

#[test]
fn memory_calls() {
    let op = ProcessOp::MapMemory { start: 0x1000, len: 20, prot: 3 };
    assert_eq!(sys_mmap(0x1000, 20, 3), Step::Await(op));
    assert_eq!(sys_mmap_resume(true), 0);
    assert_eq!(sys_mmap_resume(false), -1);
    let op = ProcessOp::UnmapMemory { start: 0x1000, len: 20 };
    assert_eq!(sys_munmap(0x1000, 20), Step::Await(op));
    assert_eq!(sys_munmap_resume(true), 0);
    assert_eq!(sys_munmap_resume(false), -1);
    assert_eq!(sys_sbrk(-8), Step::Await(ProcessOp::ChangeBreak { size: -8 }));
    assert_eq!(sys_sbrk_resume(Some(0x4000)), 0x4000);
    assert_eq!(sys_sbrk_resume(None), -1);
}
