//! The semaphore set: counting, FIFO wait queues, and the documented
//! design decision that a semaphore with waiters cannot be removed.

use ysos_proc::{ProcessId, SemaphoreResult, SemaphoreSet};

#[test]
fn insert_wait_signal_counts() {
    let mut s = SemaphoreSet::new();
    assert!(s.insert(1, 2));
    // a second insert under the same key is refused
    assert!(!s.insert(1, 5));

    // two units can be taken without blocking
    assert_eq!(s.wait(1, ProcessId(10)), SemaphoreResult::Done);
    assert_eq!(s.wait(1, ProcessId(11)), SemaphoreResult::Done);
    // the third caller blocks
    assert_eq!(s.wait(1, ProcessId(12)), SemaphoreResult::Block(ProcessId(12)));
    // a signal hands the unit to the waiter instead of counting it
    assert_eq!(s.signal(1), SemaphoreResult::WakeUp(ProcessId(12)));
    // with no waiters left, signals count up again
    assert_eq!(s.signal(1), SemaphoreResult::Done);
    assert_eq!(s.signal(1), SemaphoreResult::Done);
}

#[test]
fn missing_keys_are_reported() {
    let mut s = SemaphoreSet::new();
    assert_eq!(s.wait(9, ProcessId(2)), SemaphoreResult::NotExist);
    assert_eq!(s.signal(9), SemaphoreResult::NotExist);
    assert!(!s.remove(9));
}

#[test]
fn waiters_are_woken_oldest_first() {
    let mut s = SemaphoreSet::new();
    assert!(s.insert(3, 0));
    assert_eq!(s.wait(3, ProcessId(21)), SemaphoreResult::Block(ProcessId(21)));
    assert_eq!(s.wait(3, ProcessId(22)), SemaphoreResult::Block(ProcessId(22)));
    assert_eq!(s.wait(3, ProcessId(23)), SemaphoreResult::Block(ProcessId(23)));
    assert_eq!(s.signal(3), SemaphoreResult::WakeUp(ProcessId(21)));
    assert_eq!(s.signal(3), SemaphoreResult::WakeUp(ProcessId(22)));
    assert_eq!(s.signal(3), SemaphoreResult::WakeUp(ProcessId(23)));
    assert_eq!(s.signal(3), SemaphoreResult::Done);
}

#[test]
fn remove_refuses_while_processes_wait() {
    // the design decision for removal: refuse rather than drop blocked
    // processes silently
    let mut s = SemaphoreSet::new();
    assert!(s.insert(4, 0));
    assert_eq!(s.wait(4, ProcessId(30)), SemaphoreResult::Block(ProcessId(30)));
    assert!(!s.remove(4));
    // once the waiter is gone, removal succeeds
    assert_eq!(s.signal(4), SemaphoreResult::WakeUp(ProcessId(30)));
    assert!(s.remove(4));
    assert!(!s.remove(4));
}

#[test]
fn counter_positive_implies_no_waiters() {
    let mut s = SemaphoreSet::new();
    assert!(s.insert(5, 1));
    // take the unit, then queue two waiters
    assert_eq!(s.wait(5, ProcessId(40)), SemaphoreResult::Done);
    assert_eq!(s.wait(5, ProcessId(41)), SemaphoreResult::Block(ProcessId(41)));
    assert_eq!(s.wait(5, ProcessId(42)), SemaphoreResult::Block(ProcessId(42)));
    // while waiters exist, signals wake instead of counting: the
    // counter only grows again once the queue is empty
    assert_eq!(s.signal(5), SemaphoreResult::WakeUp(ProcessId(41)));
    assert_eq!(s.signal(5), SemaphoreResult::WakeUp(ProcessId(42)));
    assert_eq!(s.signal(5), SemaphoreResult::Done);
    // a fresh waiter now succeeds immediately
    assert_eq!(s.wait(5, ProcessId(43)), SemaphoreResult::Done);
}

#[test]
fn purge_drops_a_killed_waiter() {
    let mut s = SemaphoreSet::new();
    assert!(s.insert(6, 0));
    assert_eq!(s.wait(6, ProcessId(50)), SemaphoreResult::Block(ProcessId(50)));
    assert_eq!(s.wait(6, ProcessId(51)), SemaphoreResult::Block(ProcessId(51)));
    s.purge_pid(ProcessId(50));
    // the remaining waiter is now the oldest
    assert_eq!(s.signal(6), SemaphoreResult::WakeUp(ProcessId(51)));
}
