//! Page-fault-driven stack growth: faults inside the current process's
//! stack slot map the missing pages; anything else is fatal.

use ysos_proc::manager::{switch, ProcessManager};
use ysos_proc::paging::{
    PAGE_FAULT_PROTECTION_VIOLATION, PAGE_SIZE, STACK_MAX, STACK_MAX_SIZE,
};
use ysos_proc::{ElfImage, ElfSegment, ProcessContext, ProcessId};

fn tiny_image() -> ElfImage {
    ElfImage {
        entry: 0x40_0000,
        segments: vec![ElfSegment {
            vaddr: 0x40_0000,
            mem_size: 0x80,
            file_size: 0x80,
            offset: 0x1000,
            is_load: true,
            readable: true,
            writable: false,
            executable: true,
        }],
    }
}

#[test]
fn growth_maps_pages_down_to_the_fault() {
    let mut m = ProcessManager::init(Vec::new(), 1);
    let a = m.spawn(&tiny_image(), String::from("a"), Some(ProcessId(1)), None);
    let mut ctx = ProcessContext::new();
    switch(&mut m, &mut ctx);
    assert_eq!(m.current_pid, a);

    let before = m.get_proc(a).unwrap().inner.proc_data.as_ref().unwrap().stack_segment.unwrap();
    // a local array larger than one page faults three pages below
    let addr = before.start - 3 * PAGE_SIZE + 5;
    assert!(m.handle_page_fault(addr, 0));
    let after = m.get_proc(a).unwrap().inner.proc_data.as_ref().unwrap().stack_segment.unwrap();
    assert_eq!(after.end, before.end);
    assert_eq!(after.start, before.start - 3 * PAGE_SIZE);
    // the new pages are mapped and zeroed
    let d = m.get_proc(a).unwrap().inner.proc_data.as_ref().unwrap();
    assert_eq!(d.stack_mem.len(), (after.end - after.start) as usize);
    assert!(d.stack_mem[..3 * PAGE_SIZE as usize].iter().all(|&b| b == 0));
}

#[test]
fn growth_is_idempotent() {
    let mut m = ProcessManager::init(Vec::new(), 1);
    let a = m.spawn(&tiny_image(), String::from("a"), Some(ProcessId(1)), None);
    let mut ctx = ProcessContext::new();
    switch(&mut m, &mut ctx);
    let before = m.get_proc(a).unwrap().inner.proc_data.as_ref().unwrap().stack_segment.unwrap();
    let addr = before.start - PAGE_SIZE;
    assert!(m.handle_page_fault(addr, 0));
    let grown = m.get_proc(a).unwrap().inner.proc_data.as_ref().unwrap().stack_segment.unwrap();
    // handling the same address again changes nothing (no fault loop)
    assert!(m.handle_page_fault(addr, 0));
    let again = m.get_proc(a).unwrap().inner.proc_data.as_ref().unwrap().stack_segment.unwrap();
    assert_eq!(grown, again);
}

#[test]
fn faults_outside_the_slot_or_with_protection_bit_are_fatal() {
    let mut m = ProcessManager::init(Vec::new(), 1);
    let a = m.spawn(&tiny_image(), String::from("a"), Some(ProcessId(1)), None);
    let mut ctx = ProcessContext::new();
    switch(&mut m, &mut ctx);
    let slot_min = STACK_MAX - (a.0 as u64) * STACK_MAX_SIZE;
    // a protection violation is never stack growth
    assert!(!m.handle_page_fault(slot_min + 10, PAGE_FAULT_PROTECTION_VIOLATION));
    // an address below the slot belongs to someone else
    assert!(!m.handle_page_fault(slot_min - 1, 0));
    // an address in the code area is not stack growth either
    assert!(!m.handle_page_fault(0x40_0000, 0));
}
