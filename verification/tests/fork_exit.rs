//! Fork semantics: the two return values, the copied stack, the shared
//! family data, and the exit/reap path.

use ysos_proc::manager::{exit, fork, switch, ProcessManager};
use ysos_proc::paging::STACK_MAX_SIZE;
use ysos_proc::{ElfImage, ElfSegment, ProcessContext, ProcessId, ProgramStatus};

fn tiny_image() -> ElfImage {
    ElfImage {
        entry: 0x40_0000,
        segments: vec![ElfSegment {
            vaddr: 0x40_0000,
            mem_size: 0x80,
            file_size: 0x80,
            offset: 0x1000,
            is_load: true,
            readable: true,
            writable: false,
            executable: true,
        }],
    }
}

/// Spawns one user process and makes it current.
fn manager_with_current_user() -> (ProcessManager, ProcessId, ProcessContext) {
    let mut m = ProcessManager::init(Vec::new(), 1);
    let parent = m.spawn(&tiny_image(), String::from("parent"), Some(ProcessId(1)), None);
    let mut ctx = ProcessContext::new();
    switch(&mut m, &mut ctx);
    assert_eq!(m.current_pid, parent);
    (m, parent, ctx)
}

#[test]
fn fork_returns_child_pid_to_parent_and_zero_to_child() {
    let (mut m, parent, mut ctx) = manager_with_current_user();
    let child_raw = fork(&mut m, &mut ctx);
    assert_ne!(child_raw, u16::MAX);
    let child = ProcessId(child_raw);
    // the parent's saved rax carries the child pid; the child's is 0
    let pp = m.get_proc(parent).unwrap();
    assert_eq!(pp.inner.context.rax, child_raw as u64);
    let cp = m.get_proc(child).unwrap();
    assert_eq!(cp.inner.context.rax, 0);
    assert_eq!(cp.inner.parent, Some(parent));
    // both are alive and scheduled
    assert!(m.still_alive(parent));
    assert!(m.still_alive(child));
}

#[test]
fn fork_copies_the_stack_bytes() {
    let (mut m, parent, mut ctx) = manager_with_current_user();
    // the parent writes a pattern onto its stack
    {
        let idx = m.processes.iter().position(|p| p.pid == parent).unwrap();
        let d = m.processes[idx].inner.proc_data.as_mut().unwrap();
        d.stack_mem[0] = 0xde;
        d.stack_mem[1] = 0xad;
        d.stack_mem[4095] = 0x77;
    }
    let child_raw = fork(&mut m, &mut ctx);
    assert_ne!(child_raw, u16::MAX);
    let child = ProcessId(child_raw);
    let parent_mem = m
        .get_proc(parent)
        .unwrap()
        .inner
        .proc_data
        .as_ref()
        .unwrap()
        .stack_mem
        .clone();
    let child_mem = m
        .get_proc(child)
        .unwrap()
        .inner
        .proc_data
        .as_ref()
        .unwrap()
        .stack_mem
        .clone();
    // both stacks hold the same bytes at the moment of the fork
    assert_eq!(parent_mem, child_mem);
    assert_eq!(child_mem[0], 0xde);
    assert_eq!(child_mem[4095], 0x77);
    // but in disjoint address ranges, one slot size below the parent
    let ps = m.get_proc(parent).unwrap().inner.proc_data.as_ref().unwrap().stack_segment.unwrap();
    let cs = m.get_proc(child).unwrap().inner.proc_data.as_ref().unwrap().stack_segment.unwrap();
    assert_eq!(cs.start, ps.start - STACK_MAX_SIZE);
    assert!(cs.end <= ps.start || ps.end <= cs.start);
}

#[test]
fn stacks_are_independent_after_fork() {
    // the child sees the parent's pre-fork value, overwrites its own
    // copy, and the parent's memory keeps the original value
    let (mut m, parent, mut ctx) = manager_with_current_user();
    {
        let idx = m.processes.iter().position(|p| p.pid == parent).unwrap();
        let d = m.processes[idx].inner.proc_data.as_mut().unwrap();
        d.stack_mem[100] = 0xbe;
    }
    let child_raw = fork(&mut m, &mut ctx);
    let child = ProcessId(child_raw);
    {
        let idx = m.processes.iter().position(|p| p.pid == child).unwrap();
        let d = m.processes[idx].inner.proc_data.as_mut().unwrap();
        assert_eq!(d.stack_mem[100], 0xbe);
        d.stack_mem[100] = 0x33;
    }
    let parent_val =
        m.get_proc(parent).unwrap().inner.proc_data.as_ref().unwrap().stack_mem[100];
    assert_eq!(parent_val, 0xbe);
}

#[test]
fn fork_shares_the_family_data() {
    let (mut m, parent, mut ctx) = manager_with_current_user();
    let child_raw = fork(&mut m, &mut ctx);
    let child = ProcessId(child_raw);
    let pd = m.get_proc(parent).unwrap().inner.proc_data.as_ref().unwrap().data_id;
    let cd = m.get_proc(child).unwrap().inner.proc_data.as_ref().unwrap().data_id;
    assert_eq!(pd, cd);
    // a semaphore created by one is visible to the other: create it
    // while the parent is current, then check from the child
    while m.current_pid != parent {
        switch(&mut m, &mut ctx);
    }
    assert_eq!(m.new_sem(7, 1), 0);
    while m.current_pid != child {
        switch(&mut m, &mut ctx);
    }
    // creating the same key from the child is refused: it exists
    assert_eq!(m.new_sem(7, 1), 1);
}

#[test]
fn second_fork_takes_the_next_slot_down() {
    let (mut m, parent, mut ctx) = manager_with_current_user();
    let c1 = ProcessId(fork(&mut m, &mut ctx));
    while m.current_pid != parent {
        switch(&mut m, &mut ctx);
    }
    let c2 = ProcessId(fork(&mut m, &mut ctx));
    let ps = m.get_proc(parent).unwrap().inner.proc_data.as_ref().unwrap().stack_segment.unwrap();
    let s1 = m.get_proc(c1).unwrap().inner.proc_data.as_ref().unwrap().stack_segment.unwrap();
    let s2 = m.get_proc(c2).unwrap().inner.proc_data.as_ref().unwrap().stack_segment.unwrap();
    assert_eq!(s1.start, ps.start - STACK_MAX_SIZE);
    assert_eq!(s2.start, ps.start - 2 * STACK_MAX_SIZE);
}

#[test]
fn exit_and_reap() {
    let (mut m, parent, mut ctx) = manager_with_current_user();
    let child_raw = fork(&mut m, &mut ctx);
    let child = ProcessId(child_raw);
    // run until the child is current, then it exits with 64
    while m.current_pid != child {
        switch(&mut m, &mut ctx);
    }
    exit(&mut m, 64, &mut ctx);
    assert!(!m.still_alive(child));
    // the parent polls the exit code
    assert_eq!(m.wait_pid(child), Some(64));
    let cp = m.get_proc(child).unwrap();
    assert_eq!(cp.inner.status, ProgramStatus::Dead);
    assert!(cp.inner.proc_data.is_none());
    assert!(cp.inner.page_table.is_none());
    // the parent keeps running rounds
    while m.current_pid != parent {
        switch(&mut m, &mut ctx);
    }
    assert_eq!(m.current_pid, parent);
}
