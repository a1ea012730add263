//! Scheduler behavior: round-robin order, single running process, and
//! the ready-queue discipline.

use ysos_proc::manager::{switch, AppEntry, ProcessManager};
use ysos_proc::paging::{PAGE_SIZE, STACK_INIT_BOT, STACK_MAX_SIZE};
use ysos_proc::{ElfImage, ElfSegment, ProcessContext, ProcessId, ProgramStatus};

fn tiny_image() -> ElfImage {
    ElfImage {
        entry: 0x40_0000,
        segments: vec![ElfSegment {
            vaddr: 0x40_0000,
            mem_size: 0x100,
            file_size: 0x100,
            offset: 0x1000,
            is_load: true,
            readable: true,
            writable: false,
            executable: true,
        }],
    }
}

fn running_pids(m: &ProcessManager) -> Vec<u16> {
    m.processes
        .iter()
        .filter(|p| p.inner.status == ProgramStatus::Running)
        .map(|p| p.pid.0)
        .collect()
}

#[test]
fn kernel_starts_running() {
    let m = ProcessManager::init(Vec::new(), 1);
    assert_eq!(m.current_pid.0, 1);
    assert_eq!(running_pids(&m), vec![1]);
    assert_eq!(m.ready_queue.len(), 0);
}

#[test]
fn spawn_is_ready_and_enqueued() {
    let mut m = ProcessManager::init(Vec::new(), 1);
    let img = tiny_image();
    let a = m.spawn(&img, String::from("alpha"), Some(ProcessId(1)), None);
    assert_eq!(a.0, 2);
    let p = m.get_proc(a).unwrap();
    assert_eq!(p.inner.status, ProgramStatus::Ready);
    assert_eq!(p.inner.name, "alpha");
    assert_eq!(p.inner.parent, Some(ProcessId(1)));
    assert_eq!(p.inner.context.stack_frame.rip, 0x40_0000);
    // the stack sits at the top of the pid's slot
    let d = p.inner.proc_data.as_ref().unwrap();
    let seg = d.stack_segment.unwrap();
    assert_eq!(seg.start, STACK_INIT_BOT - (a.0 as u64 - 1) * STACK_MAX_SIZE);
    assert_eq!(seg.end - seg.start, PAGE_SIZE);
    assert_eq!(m.ready_queue.front(), Some(&a));
    // exactly one process is running (the kernel)
    assert_eq!(running_pids(&m), vec![1]);
}

#[test]
fn round_robin_order_is_fifo() {
    // Ready sequence [A, B, C] runs as A, B, C, A, B, C, ...
    let mut m = ProcessManager::init(Vec::new(), 1);
    let img = tiny_image();
    let a = m.spawn(&img, String::from("a"), Some(ProcessId(1)), None);
    let b = m.spawn(&img, String::from("b"), Some(ProcessId(1)), None);
    let c = m.spawn(&img, String::from("c"), Some(ProcessId(1)), None);
    let mut ctx = ProcessContext::new();

    let mut order = Vec::new();
    for _ in 0..8 {
        switch(&mut m, &mut ctx);
        order.push(m.current_pid);
        // exactly one process is running at any time, and it is current
        assert_eq!(running_pids(&m), vec![m.current_pid.0]);
        // every queued pid is Ready
        for k in 0..m.ready_queue.len() {
            let q = m.ready_queue[k];
            assert_eq!(m.get_proc(q).unwrap().inner.status, ProgramStatus::Ready);
        }
    }
    let kernel = ProcessId(1);
    assert_eq!(order, vec![a, b, c, kernel, a, b, c, kernel]);
}

#[test]
fn switch_with_empty_queue_keeps_current() {
    let mut m = ProcessManager::init(Vec::new(), 1);
    let mut ctx = ProcessContext::new();
    switch(&mut m, &mut ctx);
    assert_eq!(m.current_pid.0, 1);
    assert_eq!(running_pids(&m), vec![1]);
}

#[test]
fn restored_context_is_the_saved_one() {
    let mut m = ProcessManager::init(Vec::new(), 1);
    let img = tiny_image();
    let a = m.spawn(&img, String::from("a"), Some(ProcessId(1)), None);
    let mut ctx = ProcessContext::new();
    ctx.rax = 77;
    switch(&mut m, &mut ctx);
    // now A runs with its own saved context
    assert_eq!(m.current_pid, a);
    assert_eq!(ctx.stack_frame.rip, 0x40_0000);
    // the kernel's context was saved with rax 77
    let k = m.get_proc(ProcessId(1)).unwrap();
    assert_eq!(k.inner.context.rax, 77);
    // switching again resumes the kernel with the saved value
    switch(&mut m, &mut ctx);
    assert_eq!(m.current_pid.0, 1);
    assert_eq!(ctx.rax, 77);
}

#[test]
fn kill_removes_from_queue_and_releases() {
    let mut m = ProcessManager::init(Vec::new(), 1);
    let img = tiny_image();
    let a = m.spawn(&img, String::from("a"), Some(ProcessId(1)), None);
    let b = m.spawn(&img, String::from("b"), Some(ProcessId(1)), None);
    m.kill(a, -9);
    let p = m.get_proc(a).unwrap();
    assert_eq!(p.inner.status, ProgramStatus::Dead);
    assert_eq!(p.inner.exit_code, Some(-9));
    assert!(p.inner.proc_data.is_none());
    assert!(p.inner.page_table.is_none());
    // the queue holds only the other process
    assert_eq!(m.ready_queue.len(), 1);
    assert_eq!(m.ready_queue.front(), Some(&b));
    // killing again is a no-op
    m.kill(a, 3);
    assert_eq!(m.get_proc(a).unwrap().inner.exit_code, Some(-9));
    // unknown pid is a no-op too
    m.kill(ProcessId(999), 0);
    assert!(m.still_alive(b));
}

#[test]
fn wait_pid_reports_exit_code_only_when_dead() {
    let mut m = ProcessManager::init(Vec::new(), 1);
    let img = tiny_image();
    let a = m.spawn(&img, String::from("a"), Some(ProcessId(1)), None);
    assert_eq!(m.wait_pid(a), None);
    assert!(m.still_alive(a));
    m.kill(a, 64);
    assert_eq!(m.wait_pid(a), Some(64));
    assert!(!m.still_alive(a));
    assert_eq!(m.wait_pid(ProcessId(999)), None);
}

#[test]
fn process_list_renders_live_processes() {
    let mut m = ProcessManager::init(Vec::new(), 1);
    let img = tiny_image();
    let a = m.spawn(&img, String::from("alpha"), Some(ProcessId(1)), None);
    let table = m.print_process_list();
    assert!(table.contains("alpha"));
    assert!(table.contains("Running"));
    assert!(table.contains("Ready"));
    m.kill(a, 0);
    let table2 = m.print_process_list();
    assert!(!table2.contains("alpha"));
}
