//! The subsystem's invariants, stated on their own: what holds of every
//! reachable manager state and of every semaphore set.

use vstd::prelude::*;

use crate::manager::ProcessManager;
use crate::process::ProgramStatus;
use crate::sync::SemaphoreSet;

verus! {

/// At most one process runs, and it is the current one: in a state
/// where the current process runs, any running process is the current
/// process.
pub proof fn lemma_one_running(m: ProcessManager, i: int, j: int)
    requires
        m.current_running(),
        0 <= i < m.procs().len(),
        0 <= j < m.procs().len(),
        m.procs()[i].inner.status == ProgramStatus::Running,
        m.procs()[j].inner.status == ProgramStatus::Running,
    ensures
        m.procs()[i].pid == m.current_pid,
        m.procs()[i].pid == m.procs()[j].pid,
{
}

/// Every entry of the ready queue names an existing process whose
/// status is `Ready`.
pub proof fn lemma_ready_queue_ready(m: ProcessManager, k: int)
    requires
        m.inv(),
        0 <= k < m.ready_queue@.len(),
    ensures
        m.has_pid(m.ready_queue@[k]),
        m.inner_of(m.ready_queue@[k]).status == ProgramStatus::Ready,
{
}

/// A semaphore's counter is never negative, and while it is positive
/// nobody waits.
pub proof fn lemma_semaphore_counter(s: SemaphoreSet, key: u32)
    requires
        s.wf(),
        s.has_key(key),
    ensures
        s.sem(key).count >= 0,
        s.sem(key).count > 0 ==> s.sem(key).queue().len() == 0,
{
    let i = s.idx_of(key);
    assert(s.entries@[i].sem.wf());
}

/// A dead process has released its address space and its data, and
/// carries an exit code; a live one holds both and no exit code yet.
pub proof fn lemma_dead_released(m: ProcessManager, pid: crate::pid::ProcessId)
    requires
        m.inv(),
        m.has_pid(pid),
    ensures
        m.inner_of(pid).status == ProgramStatus::Dead ==> {
            &&& m.inner_of(pid).page_table is None
            &&& m.inner_of(pid).proc_data is None
            &&& m.inner_of(pid).exit_code is Some
        },
        m.inner_of(pid).status != ProgramStatus::Dead ==> {
            &&& m.inner_of(pid).page_table is Some
            &&& m.inner_of(pid).proc_data is Some
            &&& m.inner_of(pid).exit_code is None
        },
{
    let i = m.idx_of(pid);
    assert(m.procs()[i].inner.wf());
}

} // verus!
