//! User-side synchronization: a spin lock over a shared memory word,
//! and a handle on a kernel semaphore. A spin lock's `acquire` models
//! one compare-exchange attempt — the spinning is the scheduler
//! interleaving the attempts until the holder releases.

use vstd::prelude::*;

use crate::context::ProcessContext;
use crate::manager::ProcessManager;
use crate::process::ProgramStatus;

verus! {

/// A test-and-set lock over one shared word.
#[derive(Clone, Copy, Debug, PartialEq, Eq, Structural)]
pub struct SpinLock {
    /// Whether the lock is held.
    pub bolt: bool,
}

impl SpinLock {
    /// A free lock.
    pub fn new() -> (r: SpinLock)
        ensures
            !r.bolt,
    {
        SpinLock { bolt: false }
    }

    /// One acquisition attempt (a compare-exchange of the lock word):
    /// succeeds exactly when the lock was free, and then holds it.
    /// A process that fails simply retries on a later time slice.
    pub fn acquire(&mut self) -> (r: bool)
        ensures
            r == !old(self).bolt,
            final(self).bolt,
    {
        if !self.bolt {
            self.bolt = true;
            true
        } else {
            false
        }
    }

    /// Releases the lock.
    pub fn release(&mut self)
        ensures
            !final(self).bolt,
    {
        self.bolt = false;
    }
}

/// A user-side handle on the kernel semaphore with a fixed key.
#[derive(Clone, Copy, Debug, PartialEq, Eq, Structural)]
pub struct Semaphore {
    /// The key naming the semaphore in the caller's fork family.
    pub key: u32,
}

impl Semaphore {
    /// A handle on the semaphore named `key`.
    pub fn new(key: u32) -> (r: Semaphore)
        ensures
            r.key == key,
    {
        Semaphore { key }
    }

    /// Creates the semaphore with `value` units; `false` when the key
    /// is already bound.
    pub fn init(&self, m: &mut ProcessManager, value: usize) -> (r: bool)
        requires
            old(m).inv(),
            old(m).cur().status != ProgramStatus::Dead,
        ensures
            final(m).inv(),
            ({
                let did = old(m).cur().proc_data->Some_0.data_id as int;
                let sems = old(m).shared@[did].semaphores;
                &&& r == !sems.has_key(self.key)
                &&& (r ==> {
                    &&& final(m).shared@[did].semaphores.has_key(self.key)
                    &&& final(m).shared@[did].semaphores.sem(self.key).count == value
                    &&& final(m).shared@[did].semaphores.sem(self.key).queue()
                        =~= Seq::<crate::pid::ProcessId>::empty()
                    &&& sems.same_except(final(m).shared@[did].semaphores, self.key)
                })
                &&& (!r ==> final(m).shared@[did].semaphores == sems)
                &&& final(m).procs() == old(m).procs()
                &&& final(m).ready_queue@ == old(m).ready_queue@
            }),
    {
        m.new_sem(self.key, value) == 0
    }

    /// Deletes the semaphore; `false` when it does not exist or still
    /// has waiters.
    pub fn remove(&self, m: &mut ProcessManager) -> (r: bool)
        requires
            old(m).inv(),
            old(m).cur().status != ProgramStatus::Dead,
        ensures
            final(m).inv(),
            ({
                let did = old(m).cur().proc_data->Some_0.data_id as int;
                let sems = old(m).shared@[did].semaphores;
                &&& r == (sems.has_key(self.key) && sems.sem(self.key).queue().len() == 0)
                &&& (r ==> !final(m).shared@[did].semaphores.has_key(self.key)
                    && sems.same_except(final(m).shared@[did].semaphores, self.key))
                &&& (!r ==> final(m).shared@[did].semaphores == sems)
                &&& final(m).procs() == old(m).procs()
                &&& final(m).ready_queue@ == old(m).ready_queue@
            }),
    {
        m.remove_sem(self.key) == 0
    }

    /// Returns one unit: the oldest waiter (if any) becomes ready and
    /// is enqueued, otherwise the counter grows; `rax` reports 0 for
    /// success and 1 for a missing key.
    pub fn signal(&self, m: &mut ProcessManager, context: &mut ProcessContext)
        requires
            old(m).inv(),
            old(m).current_running(),
        ensures
            final(m).inv(),
            final(m).current_running(),
            final(m).current_pid == old(m).current_pid,
            ({
                let did = old(m).cur().proc_data->Some_0.data_id as int;
                let sems = old(m).shared@[did].semaphores;
                &&& if !sems.has_key(self.key) {
                    &&& *final(context) == (ProcessContext { rax: 1, ..*old(context) })
                    &&& final(m).shared@[did].semaphores == sems
                    &&& final(m).ready_queue@ == old(m).ready_queue@
                } else if sems.sem(self.key).queue().len() > 0 {
                    let woken = sems.sem(self.key).queue()[0];
                    &&& *final(context) == (ProcessContext { rax: 0, ..*old(context) })
                    &&& final(m).shared@[did].semaphores.sem(self.key).queue() == sems.sem(
                        self.key,
                    ).queue().drop_first()
                    &&& final(m).shared@[did].semaphores.sem(self.key).count == sems.sem(
                        self.key,
                    ).count
                    &&& sems.same_except(final(m).shared@[did].semaphores, self.key)
                    &&& (old(m).has_pid(woken) && old(m).inner_of(woken).status
                        == ProgramStatus::Blocked ==> {
                        &&& final(m).inner_of(woken).status == ProgramStatus::Ready
                        &&& final(m).ready_queue@ == old(m).ready_queue@.push(woken)
                    })
                } else {
                    &&& *final(context) == (ProcessContext { rax: 0, ..*old(context) })
                    &&& final(m).ready_queue@ == old(m).ready_queue@
                    &&& final(m).shared@[did].semaphores.sem(self.key).count == (if sems.sem(
                        self.key,
                    ).count < usize::MAX {
                        sems.sem(self.key).count + 1
                    } else {
                        sems.sem(self.key).count as int
                    })
                    &&& final(m).shared@[did].semaphores.sem(self.key).queue() == sems.sem(
                        self.key,
                    ).queue()
                    &&& sems.same_except(final(m).shared@[did].semaphores, self.key)
                }
            }),
    {
        crate::manager::sem_signal(m, self.key, context);
    }

    /// Takes one unit: the counter is decremented when positive (`rax`
    /// 0); a missing key is reported (`rax` 1); otherwise the caller
    /// joins the semaphore's wait queue, blocks, and the scheduler
    /// picks the next process.
    pub fn wait(&self, m: &mut ProcessManager, context: &mut ProcessContext)
        requires
            old(m).inv(),
            old(m).current_running(),
        ensures
            final(m).inv(),
            ({
                let pid = old(m).current_pid;
                let did = old(m).cur().proc_data->Some_0.data_id as int;
                let sems = old(m).shared@[did].semaphores;
                &&& if !sems.has_key(self.key) {
                    &&& *final(context) == (ProcessContext { rax: 1, ..*old(context) })
                    &&& final(m).shared@[did].semaphores == sems
                    &&& final(m).current_pid == pid
                    &&& final(m).current_running()
                } else if sems.sem(self.key).count > 0 {
                    &&& *final(context) == (ProcessContext { rax: 0, ..*old(context) })
                    &&& final(m).shared@[did].semaphores.sem(self.key).count == sems.sem(
                        self.key,
                    ).count - 1
                    &&& final(m).shared@[did].semaphores.sem(self.key).queue() == sems.sem(
                        self.key,
                    ).queue()
                    &&& sems.same_except(final(m).shared@[did].semaphores, self.key)
                    &&& final(m).current_pid == pid
                    &&& final(m).current_running()
                } else {
                    &&& final(m).shared@[did].semaphores.sem(self.key).queue() == sems.sem(
                        self.key,
                    ).queue().push(pid)
                    &&& final(m).shared@[did].semaphores.sem(self.key).count == 0
                    &&& sems.same_except(final(m).shared@[did].semaphores, self.key)
                    &&& final(m).has_pid(pid)
                    &&& final(m).inner_of(pid).status == ProgramStatus::Blocked
                    &&& (old(m).ready_queue@.len() > 0 ==> final(m).current_running())
                }
            }),
    {
        crate::manager::sem_wait(m, self.key, context);
    }
}

} // verus!