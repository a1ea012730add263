//! Unit tests for the smaller pieces: the input buffer and line
//! editor, descriptor routing, environment variables, the clock
//! conversions, ELF parsing and planning, and the syscall dispatcher.

use ysos_proc::clock::{split_timestamp, sleep_elapsed, sys_clock};
use ysos_proc::elf::{image_ok, load_plan, parse_elf};
use ysos_proc::manager::ProcessManager;
use ysos_proc::syscall::{dispatcher, syscall_from, Syscall, SyscallRequest, WAIT_PID_PENDING};
use ysos_proc::text::dec_u64;
use ysos_proc::{ClockTime, ElfImage, ElfSegment, InputBuffer, ProcessContext, ProcessId};

#[test]
fn input_buffer_is_fifo() {
    let mut buf = InputBuffer::new();
    assert_eq!(buf.try_pop_key(), None);
    buf.push_key(7);
    buf.push_key(8);
    assert_eq!(buf.try_pop_key(), Some(7));
    assert_eq!(buf.get_char_as_u8(), 8);
    assert_eq!(buf.get_char_as_u8(), 0);
}

#[test]
fn input_buffer_drops_keys_when_full() {
    let mut buf = InputBuffer::new();
    for i in 0..200u32 {
        buf.push_key((i % 251) as u8);
    }
    // only the first 128 keys fit; the head is still the first key
    assert_eq!(buf.try_pop_key(), Some(0));
}

#[test]
fn get_line_edits_and_ends_at_enter() {
    let mut buf = InputBuffer::new();
    for &k in b"ab\x7fcd\x08e\rxyz" {
        buf.push_key(k);
    }
    // backspace deletes, enter ends the line and is kept
    let line = buf.get_line();
    assert_eq!(line, "ace\r");
    // the rest stays buffered
    assert_eq!(buf.try_pop_key(), Some(b'x'));
}

#[test]
fn get_line_backspace_on_empty_line() {
    let mut buf = InputBuffer::new();
    for &k in b"\x7f\x08a\r" {
        buf.push_key(k);
    }
    assert_eq!(buf.get_line(), "a\r");
}

#[test]
fn decimal_rendering() {
    assert_eq!(dec_u64(0), "0");
    assert_eq!(dec_u64(9), "9");
    assert_eq!(dec_u64(10), "10");
    assert_eq!(dec_u64(65535), "65535");
    assert_eq!(dec_u64(18_446_744_073_709_551_615), "18446744073709551615");
}

#[test]
fn descriptor_routing() {
    let mut m = ProcessManager::init(Vec::new(), 1);
    // stdout and stderr append to the console
    assert_eq!(m.write(1, &b"hi ".to_vec()), 3);
    assert_eq!(m.write(2, &b"there".to_vec()), 5);
    assert_eq!(m.console, b"hi there".to_vec());
    // stdin cannot be written, unknown descriptors fail
    assert_eq!(m.write(0, &b"x".to_vec()), -1);
    assert_eq!(m.write(9, &b"x".to_vec()), -1);
    // reading stdin takes one key from the input buffer and reports
    // the one byte read
    m.input.push_key(b'q');
    let mut buf = vec![0u8; 4];
    assert_eq!(m.read(0, &mut buf), 1);
    assert_eq!(buf[0], b'q');
    // an empty buffer reads a zero byte
    let mut buf2 = vec![1u8; 1];
    assert_eq!(m.read(0, &mut buf2), 1);
    assert_eq!(buf2[0], 0);
    // output descriptors cannot be read
    assert_eq!(m.read(1, &mut buf), -1);
}

#[test]
fn environment_bindings() {
    let mut m = ProcessManager::init(Vec::new(), 1);
    assert_eq!(m.env(&String::from("id")), None);
    m.set_env(String::from("id"), String::from("7"));
    m.set_env(String::from("home"), String::from("/"));
    assert_eq!(m.env(&String::from("id")), Some(String::from("7")));
    // the latest binding of a key wins
    m.set_env(String::from("id"), String::from("8"));
    assert_eq!(m.env(&String::from("id")), Some(String::from("8")));
    assert_eq!(m.env(&String::from("home")), Some(String::from("/")));
}

#[test]
fn clock_conversions() {
    // one second into the epoch
    let t = ClockTime { year: 1970, month: 1, day: 1, hour: 0, minute: 0, second: 1, nanosecond: 5 };
    assert_eq!(sys_clock(Some(t)), 1_000_000_005);
    // a later date: 2000-01-01 is 10957 days in
    let t2 = ClockTime { year: 2000, month: 1, day: 1, hour: 0, minute: 0, second: 0, nanosecond: 0 };
    assert_eq!(sys_clock(Some(t2)), 10_957 * 86_400 * 1_000_000_000);
    // an invalid date yields 0; a missing reading −1
    let bad = ClockTime { year: 2000, month: 13, day: 1, hour: 0, minute: 0, second: 0, nanosecond: 0 };
    assert_eq!(sys_clock(Some(bad)), 0);
    assert_eq!(sys_clock(None), -1);

    assert_eq!(split_timestamp(1_000_000_005), (1, 5));
    assert_eq!(split_timestamp(0), (0, 0));

    assert!(sleep_elapsed(0, 2_000_000, 2));
    assert!(!sleep_elapsed(0, 1_999_999, 2));
}

/// A minimal 64-bit ELF: one loadable segment, eight code bytes.
fn minimal_elf_bytes() -> Vec<u8> {
    let mut b = Vec::new();
    // identification
    b.extend_from_slice(&[0x7f, b'E', b'L', b'F', 2, 1, 1, 0]);
    b.extend_from_slice(&[0u8; 8]);
    b.extend_from_slice(&2u16.to_le_bytes()); // executable
    b.extend_from_slice(&0x3eu16.to_le_bytes()); // x86-64
    b.extend_from_slice(&1u32.to_le_bytes());
    b.extend_from_slice(&0x40_1000u64.to_le_bytes()); // entry
    b.extend_from_slice(&64u64.to_le_bytes()); // program headers at 64
    b.extend_from_slice(&0u64.to_le_bytes()); // no section headers
    b.extend_from_slice(&0u32.to_le_bytes());
    b.extend_from_slice(&64u16.to_le_bytes());
    b.extend_from_slice(&56u16.to_le_bytes());
    b.extend_from_slice(&1u16.to_le_bytes());
    b.extend_from_slice(&64u16.to_le_bytes());
    b.extend_from_slice(&0u16.to_le_bytes());
    b.extend_from_slice(&0u16.to_le_bytes());
    // one LOAD program header, readable and executable
    b.extend_from_slice(&1u32.to_le_bytes());
    b.extend_from_slice(&5u32.to_le_bytes());
    b.extend_from_slice(&0x78u64.to_le_bytes()); // file offset
    b.extend_from_slice(&0x40_1000u64.to_le_bytes()); // vaddr
    b.extend_from_slice(&0x40_1000u64.to_le_bytes()); // paddr
    b.extend_from_slice(&8u64.to_le_bytes()); // file size
    b.extend_from_slice(&16u64.to_le_bytes()); // memory size
    b.extend_from_slice(&0x1000u64.to_le_bytes()); // alignment
    // the code bytes
    b.extend_from_slice(&[0x90, 0x90, 0x90, 0x90, 0x90, 0x90, 0x90, 0xc3]);
    b
}

#[test]
fn elf_parsing_and_plan() {
    let bytes = minimal_elf_bytes();
    let image = parse_elf(&bytes).expect("a valid image parses");
    assert_eq!(image.entry, 0x40_1000);
    assert_eq!(image.segments.len(), 1);
    let seg = image.segments[0];
    assert!(seg.is_load);
    assert_eq!(seg.vaddr, 0x40_1000);
    assert_eq!(seg.file_size, 8);
    assert_eq!(seg.mem_size, 16);
    assert!(seg.readable && seg.executable && !seg.writable);

    assert!(image_ok(&image));
    let plan = load_plan(&image, true);
    assert_eq!(plan.len(), 1);
    // the eight file bytes fit in the page at the target address
    assert_eq!(plan[0].pages.start, 0x40_1000);
    assert_eq!(plan[0].pages.end, 0x40_2000);
    assert_eq!(plan[0].copy_bytes, 8);
    // the memory-only tail fits in the same page: nothing extra
    assert_eq!(plan[0].bss.start, plan[0].bss.end);
    // flags per the segment: present, user, executable, read-only
    assert!(plan[0].flags.present);
    assert!(plan[0].flags.user_accessible);
    assert!(!plan[0].flags.writable);
    assert!(!plan[0].flags.no_execute);

    // garbage does not parse
    assert!(parse_elf(&[0u8; 40]).is_none());
}

#[test]
fn spawn_by_name_uses_the_app_table() {
    let apps = vec![ysos_proc::AppEntry { name: String::from("init"), elf: minimal_elf_bytes() }];
    let mut m = ProcessManager::init(apps, 1);
    assert_eq!(ysos_proc::manager::spawn(&mut m, &String::from("nope")), None);
    let pid = ysos_proc::manager::spawn(&mut m, &String::from("init")).expect("spawns");
    let p = m.get_proc(pid).unwrap();
    assert_eq!(p.inner.name, "init");
    assert_eq!(p.inner.context.stack_frame.rip, 0x40_1000);
}

#[test]
fn dispatcher_round_trip() {
    let mut m = ProcessManager::init(Vec::new(), 1);
    let mut ctx = ProcessContext::new();

    dispatcher(SyscallRequest::GetPid, &mut m, &mut ctx);
    assert_eq!(ctx.rax, 1);

    let t = ClockTime { year: 1970, month: 1, day: 1, hour: 0, minute: 0, second: 2, nanosecond: 0 };
    dispatcher(SyscallRequest::Time { now: Some(t) }, &mut m, &mut ctx);
    assert_eq!(ctx.rax, 2_000_000_000);

    // waiting on a live process is pending (no marker); on a dead one
    // it reaps the code and hands the exited marker back
    let child = m.fork().unwrap();
    m.push_ready(child);
    let pending = dispatcher(SyscallRequest::WaitPid { pid: child.0 }, &mut m, &mut ctx);
    assert_eq!(ctx.rax, WAIT_PID_PENDING);
    assert!(pending.is_none());
    m.kill(child, 64);
    let reaped = dispatcher(SyscallRequest::WaitPid { pid: child.0 }, &mut m, &mut ctx);
    assert_eq!(ctx.rax, 64);
    assert!(reaped.is_some());
    // an exit code of -1 shares the pending value's bits; the marker
    // still tells the two apart
    let child2 = m.fork().unwrap();
    m.push_ready(child2);
    m.kill(child2, -1);
    let reaped2 = dispatcher(SyscallRequest::WaitPid { pid: child2.0 }, &mut m, &mut ctx);
    assert_eq!(ctx.rax, WAIT_PID_PENDING);
    assert!(reaped2.is_some());

    // writes land on the console through the Write syscall
    dispatcher(
        SyscallRequest::Write { fd: 1, data: b"ok".to_vec() },
        &mut m,
        &mut ctx,
    );
    assert_eq!(ctx.rax, 2);
    assert_eq!(m.console, b"ok".to_vec());

    // a read hands the bytes back and reports one byte from stdin
    m.input.push_key(b'z');
    let out = dispatcher(SyscallRequest::Read { fd: 0, len: 1 }, &mut m, &mut ctx);
    assert_eq!(out, Some(vec![b'z']));
    assert_eq!(ctx.rax, 1);

    // semaphore ops through the Sem syscall
    dispatcher(SyscallRequest::Sem { op: 0, key: 3, value: 1 }, &mut m, &mut ctx);
    assert_eq!(ctx.rax, 0);
    dispatcher(SyscallRequest::Sem { op: 0, key: 3, value: 1 }, &mut m, &mut ctx);
    assert_eq!(ctx.rax, 1);
    dispatcher(SyscallRequest::Sem { op: 1, key: 3, value: 0 }, &mut m, &mut ctx);
    assert_eq!(ctx.rax, 0);

    // the number decoder covers the whole table
    assert_eq!(syscall_from(0), Syscall::Read);
    assert_eq!(syscall_from(9), Syscall::Fork);
    assert_eq!(syscall_from(10), Syscall::Sem);
    assert_eq!(syscall_from(99), Syscall::Unknown);
}

#[test]
fn user_stream_handles() {
    let mut m = ProcessManager::init(Vec::new(), 1);
    let out = ysos_proc::stdout();
    out.write(&mut m, "hello ");
    let err = ysos_proc::stderr();
    err.write(&mut m, "world");
    assert_eq!(m.console, b"hello world".to_vec());

    m.input.push_key(b'k');
    let sin = ysos_proc::stdin();
    let mut buf = vec![0u8; 4];
    assert_eq!(sin.read_char_with_buf(&mut m, &mut buf), Some('k'));
}

#[test]
fn user_semaphore_handles() {
    let mut m = ProcessManager::init(Vec::new(), 1);
    let mut ctx = ProcessContext::new();
    let sem = ysos_proc::UserSemaphore::new(5);
    assert!(sem.init(&mut m, 1));
    assert!(!sem.init(&mut m, 1));
    sem.wait(&mut m, &mut ctx);
    sem.signal(&mut m, &mut ctx);
    assert!(sem.remove(&mut m));

    let mut lock = ysos_proc::SpinLock::new();
    assert!(lock.acquire());
    assert!(!lock.acquire());
    lock.release();
    assert!(lock.acquire());
}

#[test]
fn list_app_names() {
    let apps = vec![
        ysos_proc::AppEntry { name: String::from("sh"), elf: Vec::new() },
        ysos_proc::AppEntry { name: String::from("counter"), elf: Vec::new() },
    ];
    let m = ProcessManager::init(apps, 1);
    let names = ysos_proc::manager::list_app(&m);
    assert_eq!(names, vec![String::from("sh"), String::from("counter")]);
}

#[test]
fn read_line_through_stdin() {
    let mut m = ProcessManager::init(Vec::new(), 1);
    for &k in b"hi\x7fey\rrest" {
        m.input.push_key(k);
    }
    let sin = ysos_proc::stdin();
    // delete removes a character; the carriage return ends the line
    // and is not part of it
    assert_eq!(sin.read_line(&mut m), "hey");
    // the remaining keys stay buffered
    let mut buf = vec![0u8; 1];
    assert_eq!(sin.read_char_with_buf(&mut m, &mut buf), Some('r'));
}

#[test]
fn names_are_stored_lowercase() {
    let apps = vec![ysos_proc::AppEntry { name: String::from("Init"), elf: minimal_elf_bytes() }];
    let mut m = ProcessManager::init(apps, 1);
    let pid = ysos_proc::manager::spawn(&mut m, &String::from("Init")).expect("spawns");
    assert_eq!(m.get_proc(pid).unwrap().inner.name, "init");
}

#[test]
fn open_allocates_the_smallest_free_descriptor() {
    let mut set = ysos_proc::ResourceSet::new();
    // 0, 1, 2 are taken by stdio, so the next opening gets 3
    assert_eq!(set.open(ysos_proc::Resource::Null), 3);
    assert_eq!(set.open(ysos_proc::Resource::Null), 4);
    // closing frees the descriptor for reuse and keeps the others
    assert!(set.close(3));
    assert!(!set.close(3));
    assert_eq!(set.open(ysos_proc::Resource::Null), 3);
    let mut m = ProcessManager::init(Vec::new(), 1);
    let mut probe = vec![0u8; 1];
    // stdio descriptors still route as before
    m.input.push_key(b'a');
    assert_eq!(m.read(0, &mut probe), 1);
    assert_eq!(probe[0], b'a');
}
