//! The process manager: the process table, the FIFO ready queue, the
//! current-process cell, the table of data shared within fork families,
//! the application list handed over by the bootloader, and the console
//! and input endpoints.
//!
//! Scheduling discipline: a trap saves the running process with
//! [`ProcessManager::save_current`] (which re-enqueues it) and then picks
//! the head of the ready queue with [`ProcessManager::switch_next`].
//! Processes that block or die are removed from the ready queue at once,
//! so the queue holds ready processes only.

use vstd::prelude::*;

use std::collections::VecDeque;

use crate::context::ProcessContext;
use crate::data::ProcessData;
use crate::input::InputBuffer;
use crate::paging::PageTableContext;
use crate::pid::{ProcessId, KERNEL_PID};
use crate::process::{Process, ProcessInner, ProgramStatus};
use crate::resource::ResourceSet;
use crate::sync::{SemaphoreResult, SemaphoreSet};

verus! {

/// Highest process identifier that still owns a stack slot below
/// `STACK_MAX` (the stack area holds this many slots).
pub const MAX_STACK_SLOTS: u16 = 16384;

/// One application the bootloader loaded: its name and its image.
#[derive(Clone, Debug)]
pub struct AppEntry {
    /// The short name used by spawn-by-name.
    pub name: String,
    /// The raw image bytes.
    pub elf: Vec<u8>,
}

/// One environment binding.
#[derive(Clone, Debug)]
pub struct EnvEntry {
    /// Variable name.
    pub key: String,
    /// Variable value.
    pub val: String,
}

/// The state a fork family shares by reference: environment variables,
/// open file descriptors and semaphores. Each table entry is named by
/// the `data_id` of the processes that share it.
#[derive(Clone, Debug)]
pub struct SharedData {
    /// Environment variables, last binding of a key authoritative.
    pub env: Vec<EnvEntry>,
    /// The file-descriptor table.
    pub resources: ResourceSet,
    /// The keyed semaphores.
    pub semaphores: SemaphoreSet,
}

impl SharedData {
    /// A fresh entry: empty environment, standard descriptors, no
    /// semaphores.
    pub fn new() -> (r: SharedData)
        ensures
            r.semaphores.wf(),
            forall|k: u32| !r.semaphores.has_key(k),
            r.env@.len() == 0,
            r.resources.spec_get(0) == Some(
                crate::resource::Resource::Console(crate::resource::StdIO::Stdin),
            ),
            r.resources.spec_get(1) == Some(
                crate::resource::Resource::Console(crate::resource::StdIO::Stdout),
            ),
            r.resources.spec_get(2) == Some(
                crate::resource::Resource::Console(crate::resource::StdIO::Stderr),
            ),
            forall|fd: u8| fd >= 3 ==> #[trigger] r.resources.spec_get(fd) is None,
    {
        SharedData {
            env: Vec::new(),
            resources: ResourceSet::new(),
            semaphores: crate::sync::SemaphoreSet::new(),
        }
    }
}

/// The process manager.
pub struct ProcessManager {
    /// All processes ever created, in order of creation (so in order of
    /// ascending identifier); dead ones stay until reaped.
    pub processes: Vec<Process>,
    /// Identifiers of the processes eligible to run, oldest first.
    pub ready_queue: VecDeque<ProcessId>,
    /// The identifier of the process the CPU is executing.
    pub current_pid: ProcessId,
    /// The next identifier to hand out; identifiers are never reused.
    pub next_pid: u16,
    /// The shared-data table; `ProcessData::data_id` indexes it.
    pub shared: Vec<SharedData>,
    /// The applications the bootloader loaded.
    pub app_list: Vec<AppEntry>,
    /// The next fresh page-table root identity.
    pub next_table_root: u64,
    /// Everything written to the serial console.
    pub console: Vec<u8>,
    /// The keyboard input buffer.
    pub input: InputBuffer,
}

impl ProcessManager {
    /// The process table as a sequence.
    pub open spec fn procs(self) -> Seq<Process> {
        self.processes@
    }

    /// Whether a process with `pid` exists.
    pub open spec fn has_pid(self, pid: ProcessId) -> bool {
        seq_has_pid(self.procs(), pid)
    }

    /// The table index of `pid` (meaningful when `has_pid`).
    pub open spec fn idx_of(self, pid: ProcessId) -> int {
        seq_idx_of(self.procs(), pid)
    }

    /// The state of the process `pid` (meaningful when `has_pid`).
    pub open spec fn inner_of(self, pid: ProcessId) -> ProcessInner {
        self.procs()[self.idx_of(pid)].inner
    }

    /// The state of the current process.
    pub open spec fn cur(self) -> ProcessInner {
        self.inner_of(self.current_pid)
    }

    /// Identifiers are at least 1, ascend along the table, stay below
    /// `next_pid`, and the kernel process sits first.
    pub open spec fn pids_ok(self) -> bool {
        &&& self.procs().len() >= 1
        &&& self.procs()[0].pid.0 == KERNEL_PID
        &&& forall|i: int, j: int|
            0 <= i < j < self.procs().len() ==> (#[trigger] self.procs()[i].pid).0 < (
            #[trigger] self.procs()[j].pid).0
        &&& forall|i: int|
            0 <= i < self.procs().len() ==> 1 <= (#[trigger] self.procs()[i].pid).0
                < self.next_pid
    }

    /// Every process record satisfies its invariant, and every live
    /// process points at an existing shared-data entry.
    pub open spec fn procs_wf(self) -> bool {
        &&& forall|i: int|
            0 <= i < self.procs().len() ==> (#[trigger] self.procs()[i].inner).wf()
        &&& forall|i: int|
            0 <= i < self.procs().len() ==> match (#[trigger] self.procs()[i].inner).proc_data {
                Some(d) => d.data_id < self.shared@.len(),
                None => true,
            }
    }

    /// Every entry of the ready queue names an existing, ready process.
    pub open spec fn queue_ready(self) -> bool {
        forall|k: int|
            0 <= k < self.ready_queue@.len() ==> {
                &&& self.has_pid(#[trigger] self.ready_queue@[k])
                &&& self.inner_of(self.ready_queue@[k]).status == ProgramStatus::Ready
            }
    }

    /// No identifier is enqueued twice.
    pub open spec fn queue_distinct(self) -> bool {
        forall|k: int, l: int|
            0 <= k < l < self.ready_queue@.len() ==> (#[trigger] self.ready_queue@[k]) != (
            #[trigger] self.ready_queue@[l])
    }

    /// Every shared semaphore set satisfies its invariant.
    pub open spec fn shared_wf(self) -> bool {
        forall|i: int|
            0 <= i < self.shared@.len() ==> (#[trigger] self.shared@[i]).semaphores.wf()
    }

    /// The manager invariant.
    pub open spec fn inv(self) -> bool {
        &&& self.pids_ok()
        &&& self.procs_wf()
        &&& self.queue_ready()
        &&& self.queue_distinct()
        &&& self.shared_wf()
        &&& self.has_pid(self.current_pid)
        &&& self.input.wf()
    }

    /// No process is running (the state between saving the old process
    /// and picking the next one).
    pub open spec fn zero_running(self) -> bool {
        forall|i: int|
            0 <= i < self.procs().len() ==> (#[trigger] self.procs()[i].inner).status
                != ProgramStatus::Running
    }

    /// The current process is running and nothing else is.
    pub open spec fn current_running(self) -> bool {
        &&& self.cur().status == ProgramStatus::Running
        &&& forall|i: int|
            0 <= i < self.procs().len() && (#[trigger] self.procs()[i].inner).status
                == ProgramStatus::Running ==> self.procs()[i].pid == self.current_pid
    }

    /// In a table with ascending identifiers, the record found at `i`
    /// is the record of its identifier.
    pub proof fn lemma_pid_idx(self, pid: ProcessId, i: int)
        requires
            self.pids_ok(),
            0 <= i < self.procs().len(),
            self.procs()[i].pid == pid,
        ensures
            self.has_pid(pid),
            self.idx_of(pid) == i,
    {
        assert(self.has_pid(pid));
        let j = self.idx_of(pid);
        if i < j {
            assert(self.procs()[i].pid.0 < self.procs()[j].pid.0);
        } else if j < i {
            assert(self.procs()[j].pid.0 < self.procs()[i].pid.0);
        }
    }

    /// Two states whose tables carry the same identifiers agree on
    /// `has_pid` and `idx_of`.
    pub proof fn lemma_same_pids(self, other: ProcessManager)
        requires
            self.pids_ok(),
            other.procs().len() == self.procs().len(),
            forall|i: int|
                0 <= i < self.procs().len() ==> (#[trigger] other.procs()[i]).pid
                    == self.procs()[i].pid,
        ensures
            forall|pid: ProcessId| #[trigger] other.has_pid(pid) == self.has_pid(pid),
            forall|pid: ProcessId|
                self.has_pid(pid) ==> #[trigger] other.idx_of(pid) == self.idx_of(pid),
    {
        assert forall|pid: ProcessId| #[trigger] other.has_pid(pid) == self.has_pid(pid) by {
            if other.has_pid(pid) {
                let i = choose|i: int|
                    0 <= i < other.procs().len() && other.procs()[i].pid == pid;
                assert(self.procs()[i].pid == pid);
            }
            if self.has_pid(pid) {
                let i = choose|i: int|
                    0 <= i < self.procs().len() && self.procs()[i].pid == pid;
                assert(other.procs()[i].pid == pid);
            }
        }
        assert forall|pid: ProcessId| self.has_pid(pid) implies #[trigger] other.idx_of(pid)
            == self.idx_of(pid) by {
            let i = self.idx_of(pid);
            assert(self.procs()[i].pid == pid);
            assert(other.procs()[i].pid == pid);
            let j = other.idx_of(pid);
            assert(0 <= j < other.procs().len() && other.procs()[j].pid == pid);
            if i < j {
                assert(self.procs()[i].pid.0 < self.procs()[j].pid.0);
            } else if j < i {
                assert(self.procs()[j].pid.0 < self.procs()[i].pid.0);
            }
        }
    }

    /// Finds the table index of `pid`.
    fn find_index(&self, pid: ProcessId) -> (r: Option<usize>)
        ensures
            match r {
                Some(i) => i < self.procs().len() && self.procs()[i as int].pid == pid,
                None => !self.has_pid(pid),
            },
    {
        let n = self.processes.len();
        for i in 0..n
            invariant
                n == self.procs().len(),
                forall|j: int| 0 <= j < i ==> (#[trigger] self.procs()[j]).pid != pid,
        {
            if self.processes[i].pid.0 == pid.0 {
                return Some(i);
            }
        }
        None
    }

    /// Builds the manager around the kernel process: the kernel runs,
    /// owns its kernel stack and the first shared-data entry, and the
    /// ready queue is empty.
    pub fn init(app_list: Vec<AppEntry>, kernel_root: u64) -> (r: ProcessManager)
        ensures
            r.inv(),
            r.current_running(),
            r.current_pid.0 == KERNEL_PID,
            r.next_pid == 2,
            r.ready_queue@.len() == 0,
            r.procs().len() == 1,
            r.app_list == app_list,
            r.input.contents() == Seq::<u8>::empty(),
            r.console@.len() == 0,
    {
        let mut kproc_data = ProcessData::new(0);
        proof {
            assert(crate::paging::KSTACK_INIT_BOT % crate::paging::PAGE_SIZE == 0);
        }
        kproc_data.set_stack(crate::paging::KSTACK_INIT_BOT, crate::paging::KSTACK_DEF_PAGE);
        let mut kernel_inner = ProcessInner::new(
            kernel_name(),
            None,
            PageTableContext::new(kernel_root),
            kproc_data,
        );
        kernel_inner.resume();
        let kproc = Process { pid: crate::pid::kernel_pid(), inner: kernel_inner };
        let mut processes: Vec<Process> = Vec::new();
        processes.push(kproc);
        let mut shared: Vec<SharedData> = Vec::new();
        shared.push(SharedData::new());
        let r = ProcessManager {
            processes,
            ready_queue: VecDeque::new(),
            current_pid: crate::pid::kernel_pid(),
            next_pid: 2,
            shared,
            app_list,
            next_table_root: if kernel_root < u64::MAX {
                kernel_root + 1
            } else {
                0
            },
            console: Vec::new(),
            input: InputBuffer::new(),
        };
        proof {
            r.lemma_pid_idx(ProcessId(KERNEL_PID), 0);
        }
        r
    }

    /// The identifier of the current process.
    pub fn get_pid(&self) -> (r: ProcessId)
        ensures
            r == self.current_pid,
    {
        self.current_pid
    }

    /// The process with `pid`, if it exists.
    pub fn get_proc(&self, pid: ProcessId) -> (r: Option<&Process>)
        requires
            self.pids_ok(),
        ensures
            match r {
                Some(p) => self.has_pid(pid) && *p == self.procs()[self.idx_of(pid)],
                None => !self.has_pid(pid),
            },
    {
        match self.find_index(pid) {
            Some(i) => {
                proof {
                    self.lemma_pid_idx(pid, i as int);
                }
                Some(&self.processes[i])
            },
            None => None,
        }
    }

    /// The current process.
    pub fn current(&self) -> (r: &Process)
        requires
            self.pids_ok(),
            self.has_pid(self.current_pid),
        ensures
            *r == self.procs()[self.idx_of(self.current_pid)],
            r.inner == self.cur(),
    {
        let r = self.get_proc(self.current_pid);
        r.unwrap()
    }

    /// Whether `pid` names a process that has not died.
    pub fn still_alive(&self, pid: ProcessId) -> (r: bool)
        requires
            self.pids_ok(),
        ensures
            r == (self.has_pid(pid) && self.inner_of(pid).status != ProgramStatus::Dead),
    {
        match self.get_proc(pid) {
            Some(p) => p.inner.status() != ProgramStatus::Dead,
            None => false,
        }
    }

    /// The exit code of `pid` once it died; `None` while it lives.
    /// User code polls this to wait for a child.
    pub fn wait_pid(&self, pid: ProcessId) -> (r: Option<isize>)
        requires
            self.pids_ok(),
            self.procs_wf(),
        ensures
            self.has_pid(pid) && self.inner_of(pid).status == ProgramStatus::Dead ==> r
                == self.inner_of(pid).exit_code && r is Some,
            !(self.has_pid(pid) && self.inner_of(pid).status == ProgramStatus::Dead) ==> r
                is None,
    {
        match self.get_proc(pid) {
            Some(p) => {
                if p.inner.status() == ProgramStatus::Dead {
                    p.inner.exit_code()
                } else {
                    None
                }
            },
            None => None,
        }
    }

    /// The application table.
    pub fn app_list(&self) -> (r: &Vec<AppEntry>)
        ensures
            r == &self.app_list,
    {
        &self.app_list
    }

    /// Appends `pid` to the ready queue.
    pub fn push_ready(&mut self, pid: ProcessId)
        requires
            old(self).inv(),
            old(self).has_pid(pid),
            old(self).inner_of(pid).status == ProgramStatus::Ready,
            !old(self).ready_queue@.contains(pid),
        ensures
            final(self).inv(),
            *final(self) == (ProcessManager { ready_queue: final(self).ready_queue, ..*old(self) }),
            final(self).ready_queue@ == old(self).ready_queue@.push(pid),
    {
        self.ready_queue.push_back(pid);
    }

    /// Saves the hardware context into the current process's record:
    /// its tick count grows, its context is replaced, and — when it was
    /// running — it becomes ready and joins the tail of the ready
    /// queue.
    ///
    /// Design decision: only a running process is enqueued. Enqueueing
    /// a blocked current process (or a ready one a second time) would
    /// put a non-ready or duplicate entry into the ready queue, against
    /// the invariant that the queue holds exactly the ready processes;
    /// the blocking and killing paths purge the queue instead of
    /// leaving stale entries for the scheduler to skip.
    pub fn save_current(&mut self, context: &ProcessContext)
        requires
            old(self).inv(),
        ensures
            final(self).inv(),
            *final(self) == (ProcessManager {
                processes: final(self).processes,
                ready_queue: final(self).ready_queue,
                ..*old(self)
            }),
            final(self).procs() == old(self).procs().update(
                old(self).idx_of(old(self).current_pid),
                Process {
                    pid: old(self).current_pid,
                    inner: spec_saved(old(self).cur(), *context),
                },
            ),
            final(self).ready_queue@ == if old(self).cur().status == ProgramStatus::Running {
                old(self).ready_queue@.push(old(self).current_pid)
            } else {
                old(self).ready_queue@
            },
            old(self).current_running() ==> final(self).zero_running(),
    {
        let ghost pre = *self;
        let pid = self.current_pid;
        let i = self.find_index(pid).unwrap();
        proof {
            pre.lemma_pid_idx(pid, i as int);
        }
        let p = &mut self.processes[i];
        let was_running = p.inner.status() == ProgramStatus::Running;
        p.inner.tick();
        p.inner.save(context);
        proof {
            pre.lemma_same_pids(*self);
            assert forall|k: int|
                0 <= k < self.ready_queue@.len() implies {
                &&& self.has_pid(#[trigger] self.ready_queue@[k])
                &&& self.inner_of(self.ready_queue@[k]).status == ProgramStatus::Ready
            } by {
                let q = self.ready_queue@[k];
                assert(pre.inner_of(q).status == ProgramStatus::Ready);
                if pre.idx_of(q) == i as int {
                    assert(pre.procs()[i as int].pid == q);
                }
            }
        }
        if was_running {
            proof {
                assert(!self.ready_queue@.contains(pid)) by {
                    if self.ready_queue@.contains(pid) {
                        let k = choose|k: int|
                            0 <= k < self.ready_queue@.len() && self.ready_queue@[k] == pid;
                        assert(pre.inner_of(pid).status == ProgramStatus::Ready);
                        assert(pre.idx_of(pid) == i as int);
                    }
                }
            }
            self.ready_queue.push_back(pid);
        }
        proof {
            let post = *self;
            pre.lemma_same_pids(post);
            if pre.current_running() {
                assert forall|j: int|
                    0 <= j < post.procs().len() implies (#[trigger] post.procs()[j].inner).status
                    != ProgramStatus::Running by {
                    if j != i as int {
                        assert(post.procs()[j] == pre.procs()[j]);
                        if post.procs()[j].inner.status == ProgramStatus::Running {
                            assert(pre.procs()[j].pid == pre.current_pid);
                            pre.lemma_pid_idx(pre.current_pid, j);
                        }
                    }
                }
            }
        }
    }

    /// Picks the next process: the head of the ready queue becomes the
    /// running current process and its saved context is restored. With
    /// an empty queue the current process keeps the CPU (it resumes if
    /// it was ready; a blocked or dead current process leaves the CPU
    /// idle with nothing running).
    pub fn switch_next(&mut self, context: &mut ProcessContext) -> (r: ProcessId)
        requires
            old(self).inv(),
        ensures
            final(self).inv(),
            *final(self) == (ProcessManager {
                processes: final(self).processes,
                ready_queue: final(self).ready_queue,
                current_pid: final(self).current_pid,
                ..*old(self)
            }),
            old(self).ready_queue@.len() > 0 ==> {
                let next = old(self).ready_queue@[0];
                &&& r == next
                &&& final(self).current_pid == next
                &&& final(self).ready_queue@ == old(self).ready_queue@.drop_first()
                &&& final(self).procs() == old(self).procs().update(
                    old(self).idx_of(next),
                    Process {
                        pid: next,
                        inner: ProcessInner {
                            status: ProgramStatus::Running,
                            ..old(self).inner_of(next)
                        },
                    },
                )
                &&& *final(context) == old(self).inner_of(next).context
            },
            old(self).ready_queue@.len() == 0 ==> {
                &&& r == old(self).current_pid
                &&& final(self).current_pid == old(self).current_pid
                &&& final(self).ready_queue@ == old(self).ready_queue@
                &&& if old(self).cur().status == ProgramStatus::Ready {
                    &&& final(self).procs() == old(self).procs().update(
                        old(self).idx_of(old(self).current_pid),
                        Process {
                            pid: old(self).current_pid,
                            inner: ProcessInner {
                                status: ProgramStatus::Running,
                                ..old(self).cur()
                            },
                        },
                    )
                    &&& *final(context) == old(self).cur().context
                } else {
                    final(self).procs() == old(self).procs() && *final(context) == *old(context)
                }
            },
            old(self).zero_running() && (old(self).ready_queue@.len() > 0 || old(
                self,
            ).cur().status == ProgramStatus::Ready) ==> final(self).current_running(),
    {
        let ghost pre = *self;
        let popped = self.ready_queue.pop_front();
        match popped {
            Some(next) => {
                proof {
                    assert(pre.ready_queue@[0] == next);
                    assert(pre.has_pid(next));
                }
                let i = self.find_index(next).unwrap();
                proof {
                    pre.lemma_pid_idx(next, i as int);
                }
                let p = &mut self.processes[i];
                p.inner.restore(context);
                self.current_pid = next;
                proof {
                    let post = *self;
                    pre.lemma_same_pids(post);
                    assert(post.procs() == pre.procs().update(
                        i as int,
                        Process {
                            pid: next,
                            inner: ProcessInner {
                                status: ProgramStatus::Running,
                                ..pre.inner_of(next)
                            },
                        },
                    ));
                    assert forall|k: int|
                        0 <= k < post.ready_queue@.len() implies {
                        &&& post.has_pid(#[trigger] post.ready_queue@[k])
                        &&& post.inner_of(post.ready_queue@[k]).status == ProgramStatus::Ready
                    } by {
                        let q = post.ready_queue@[k];
                        assert(q == pre.ready_queue@[k + 1]);
                        assert(pre.has_pid(q));
                        assert(pre.inner_of(q).status == ProgramStatus::Ready);
                        assert(q != next);
                        assert(pre.idx_of(q) != i as int);
                    }
                    if pre.zero_running() {
                        assert forall|j: int|
                            0 <= j < post.procs().len() && (#[trigger] post.procs()[j].inner).status
                                == ProgramStatus::Running implies post.procs()[j].pid
                            == post.current_pid by {
                            if j != i as int {
                                assert(post.procs()[j] == pre.procs()[j]);
                            }
                        }
                    }
                }
                next
            },
            None => {
                let pid = self.current_pid;
                let i = self.find_index(pid).unwrap();
                proof {
                    pre.lemma_pid_idx(pid, i as int);
                }
                let st = self.processes[i].inner.status();
                if st == ProgramStatus::Ready {
                    let p = &mut self.processes[i];
                    p.inner.restore(context);
                    proof {
                        let post = *self;
                        pre.lemma_same_pids(post);
                        if pre.zero_running() {
                            assert forall|j: int|
                                0 <= j < post.procs().len() && (#[trigger] post.procs()[j].inner).status
                                    == ProgramStatus::Running implies post.procs()[j].pid
                                == post.current_pid by {
                                if j != i as int {
                                    assert(post.procs()[j] == pre.procs()[j]);
                                }
                            }
                        }
                    }
                } else {
                    proof {
                        assert(self.procs() =~= pre.procs());
                    }
                }
                pid
            },
        }
    }

    /// Terminates `pid` with exit code `ret`: the record stays in the
    /// table (so the exit code can be reaped) but the process releases
    /// its address space and data, leaves the ready queue, and leaves
    /// every wait queue of its family's semaphores. Killing an unknown
    /// or already dead process does nothing.
    pub fn kill(&mut self, pid: ProcessId, ret: isize)
        requires
            old(self).inv(),
        ensures
            final(self).inv(),
            !(old(self).has_pid(pid) && old(self).inner_of(pid).status != ProgramStatus::Dead)
                ==> *final(self) == *old(self),
            old(self).has_pid(pid) && old(self).inner_of(pid).status != ProgramStatus::Dead
                ==> {
                let did = old(self).inner_of(pid).proc_data->Some_0.data_id;
                &&& *final(self) == (ProcessManager {
                    processes: final(self).processes,
                    ready_queue: final(self).ready_queue,
                    shared: final(self).shared,
                    ..*old(self)
                })
                &&& final(self).procs() == old(self).procs().update(
                    old(self).idx_of(pid),
                    Process {
                        pid,
                        inner: ProcessInner {
                            status: ProgramStatus::Dead,
                            exit_code: Some(ret),
                            proc_data: None,
                            page_table: None,
                            ..old(self).inner_of(pid)
                        },
                    },
                )
                &&& final(self).ready_queue@ == old(self).ready_queue@.filter(
                    crate::sync::not_pid(pid),
                )
                &&& final(self).shared@.len() == old(self).shared@.len()
                &&& forall|s: int|
                    0 <= s < old(self).shared@.len() && s != did ==> final(self).shared@[s]
                        == old(self).shared@[s]
                &&& final(self).shared@[did as int].env == old(self).shared@[did as int].env
                &&& final(self).shared@[did as int].resources == old(
                    self,
                ).shared@[did as int].resources
                &&& forall|k: u32|
                    #[trigger] final(self).shared@[did as int].semaphores.has_key(k) == old(
                        self,
                    ).shared@[did as int].semaphores.has_key(k)
                &&& forall|k: u32|
                    old(self).shared@[did as int].semaphores.has_key(k) ==> {
                        &&& (#[trigger] final(self).shared@[did as int].semaphores.sem(
                            k,
                        )).count == old(self).shared@[did as int].semaphores.sem(k).count
                        &&& final(self).shared@[did as int].semaphores.sem(k).queue() == old(
                            self,
                        ).shared@[did as int].semaphores.sem(k).queue().filter(
                            crate::sync::not_pid(pid),
                        )
                    }
            },
    {
        let ghost pre = *self;
        let idx_opt = self.find_index(pid);
        let i = match idx_opt {
            Some(i) => i,
            None => {
                return ;
            },
        };
        proof {
            pre.lemma_pid_idx(pid, i as int);
        }
        if self.processes[i].inner.status() == ProgramStatus::Dead {
            return ;
        }
        let did = match &self.processes[i].inner.proc_data {
            Some(d) => d.data_id,
            None => 0,  // unreachable: a live process holds its data
        };
        let p = &mut self.processes[i];
        p.inner.kill(ret);
        purge_deque(&mut self.ready_queue, pid);
        let sd = &mut self.shared[did];
        sd.semaphores.purge_pid(pid);
        proof {
            let post = *self;
            pre.lemma_same_pids(post);
            lemma_filter_subset(pre.ready_queue@, crate::sync::not_pid(pid));
            lemma_filter_distinct(pre.ready_queue@, crate::sync::not_pid(pid));
            assert forall|k: int|
                0 <= k < post.ready_queue@.len() implies {
                &&& post.has_pid(#[trigger] post.ready_queue@[k])
                &&& post.inner_of(post.ready_queue@[k]).status == ProgramStatus::Ready
            } by {
                let q = post.ready_queue@[k];
                assert(pre.ready_queue@.filter(crate::sync::not_pid(pid)).contains(q));
                assert(pre.ready_queue@.contains(q));
                let l = choose|l: int|
                    0 <= l < pre.ready_queue@.len() && pre.ready_queue@[l] == q;
                assert(pre.inner_of(q).status == ProgramStatus::Ready);
                assert(crate::sync::not_pid(pid)(q));
                assert(q != pid);
                assert(pre.idx_of(q) != i as int);
            }
        }
    }

    /// Terminates the current process (see [`ProcessManager::kill`]).
    pub fn kill_current(&mut self, ret: isize)
        requires
            old(self).inv(),
        ensures
            final(self).inv(),
            old(self).cur().status != ProgramStatus::Dead ==> {
                &&& final(self).cur().status == ProgramStatus::Dead
                &&& final(self).cur().exit_code == Some(ret)
                &&& final(self).cur().proc_data is None
                &&& final(self).cur().page_table is None
                &&& final(self).ready_queue@ == old(self).ready_queue@.filter(
                    crate::sync::not_pid(old(self).current_pid),
                )
                &&& final(self).current_pid == old(self).current_pid
            },
            old(self).cur().status == ProgramStatus::Dead ==> *final(self) == *old(self),
    {
        let ghost pre = *self;
        let pid = self.current_pid;
        self.kill(pid, ret);
        proof {
            if pre.cur().status != ProgramStatus::Dead {
                pre.lemma_same_pids(*self);
            }
        }
    }

    /// Terminates the current process; syscall paths use this alias.
    pub fn kill_self(&mut self, ret: isize)
        requires
            old(self).inv(),
        ensures
            final(self).inv(),
            old(self).cur().status != ProgramStatus::Dead ==> {
                &&& final(self).cur().status == ProgramStatus::Dead
                &&& final(self).cur().exit_code == Some(ret)
            },
    {
        self.kill_current(ret);
    }

    /// Blocks `pid`: its status becomes `Blocked` and it leaves the
    /// ready queue.
    pub fn block(&mut self, pid: ProcessId)
        requires
            old(self).inv(),
            old(self).has_pid(pid),
            old(self).inner_of(pid).status != ProgramStatus::Dead,
        ensures
            final(self).inv(),
            *final(self) == (ProcessManager {
                processes: final(self).processes,
                ready_queue: final(self).ready_queue,
                ..*old(self)
            }),
            final(self).procs() == old(self).procs().update(
                old(self).idx_of(pid),
                Process {
                    pid,
                    inner: ProcessInner {
                        status: ProgramStatus::Blocked,
                        ..old(self).inner_of(pid)
                    },
                },
            ),
            final(self).ready_queue@ == old(self).ready_queue@.filter(
                crate::sync::not_pid(pid),
            ),
    {
        let ghost pre = *self;
        let i = self.find_index(pid).unwrap();
        proof {
            pre.lemma_pid_idx(pid, i as int);
        }
        let p = &mut self.processes[i];
        p.inner.block();
        purge_deque(&mut self.ready_queue, pid);
        proof {
            let post = *self;
            pre.lemma_same_pids(post);
            lemma_filter_subset(pre.ready_queue@, crate::sync::not_pid(pid));
            lemma_filter_distinct(pre.ready_queue@, crate::sync::not_pid(pid));
            assert forall|k: int|
                0 <= k < post.ready_queue@.len() implies {
                &&& post.has_pid(#[trigger] post.ready_queue@[k])
                &&& post.inner_of(post.ready_queue@[k]).status == ProgramStatus::Ready
            } by {
                let q = post.ready_queue@[k];
                assert(pre.ready_queue@.filter(crate::sync::not_pid(pid)).contains(q));
                assert(pre.ready_queue@.contains(q));
                let l = choose|l: int|
                    0 <= l < pre.ready_queue@.len() && pre.ready_queue@[l] == q;
                assert(pre.inner_of(q).status == ProgramStatus::Ready);
                assert(crate::sync::not_pid(pid)(q));
                assert(pre.idx_of(q) != i as int);
            }
        }
    }

    /// Wakes `pid` after a signal: a blocked process becomes ready and
    /// joins the tail of the ready queue; any other process is left
    /// alone.
    pub fn wakeup(&mut self, pid: ProcessId)
        requires
            old(self).inv(),
        ensures
            final(self).inv(),
            old(self).has_pid(pid) && old(self).inner_of(pid).status == ProgramStatus::Blocked
                ==> {
                &&& *final(self) == (ProcessManager {
                    processes: final(self).processes,
                    ready_queue: final(self).ready_queue,
                    ..*old(self)
                })
                &&& final(self).procs() == old(self).procs().update(
                    old(self).idx_of(pid),
                    Process {
                        pid,
                        inner: ProcessInner {
                            status: ProgramStatus::Ready,
                            ..old(self).inner_of(pid)
                        },
                    },
                )
                &&& final(self).ready_queue@ == old(self).ready_queue@.push(pid)
            },
            !(old(self).has_pid(pid) && old(self).inner_of(pid).status
                == ProgramStatus::Blocked) ==> *final(self) == *old(self),
    {
        let ghost pre = *self;
        let idx_opt = self.find_index(pid);
        let i = match idx_opt {
            Some(i) => i,
            None => {
                return ;
            },
        };
        proof {
            pre.lemma_pid_idx(pid, i as int);
        }
        if self.processes[i].inner.status() != ProgramStatus::Blocked {
            return ;
        }
        proof {
            assert(!pre.ready_queue@.contains(pid)) by {
                if pre.ready_queue@.contains(pid) {
                    let k = choose|k: int|
                        0 <= k < pre.ready_queue@.len() && pre.ready_queue@[k] == pid;
                    assert(pre.inner_of(pid).status == ProgramStatus::Ready);
                }
            }
        }
        let p = &mut self.processes[i];
        p.inner.pause();
        self.ready_queue.push_back(pid);
        proof {
            let post = *self;
            pre.lemma_same_pids(post);
            assert forall|k: int|
                0 <= k < post.ready_queue@.len() implies {
                &&& post.has_pid(#[trigger] post.ready_queue@[k])
                &&& post.inner_of(post.ready_queue@[k]).status == ProgramStatus::Ready
            } by {
                let q = post.ready_queue@[k];
                if k < pre.ready_queue@.len() {
                    assert(q == pre.ready_queue@[k]);
                    assert(pre.inner_of(q).status == ProgramStatus::Ready);
                    if pre.idx_of(q) == i as int {
                        assert(pre.procs()[i as int].pid == q);
                    }
                } else {
                    assert(q == pid);
                }
            }
        }
    }
    /// A table extended with a fresh, larger identifier keeps its
    /// ordering, and the old records keep their indices.
    pub proof fn lemma_push_pids(self, other: ProcessManager, x: Process)
        requires
            self.pids_ok(),
            forall|i: int|
                0 <= i < self.procs().len() ==> (#[trigger] self.procs()[i].pid).0 < x.pid.0,
            other.procs() == self.procs().push(x),
            1 <= x.pid.0 < other.next_pid,
            self.next_pid <= other.next_pid,
        ensures
            other.pids_ok(),
            forall|pid: ProcessId|
                self.has_pid(pid) ==> #[trigger] other.has_pid(pid) && other.idx_of(pid)
                    == self.idx_of(pid),
            other.has_pid(x.pid),
            other.idx_of(x.pid) == self.procs().len(),
            forall|pid: ProcessId|
                #[trigger] other.has_pid(pid) ==> self.has_pid(pid) || pid == x.pid,
    {
        let n = self.procs().len() as int;
        assert(other.procs()[n] == x);
        assert forall|i: int| 0 <= i < other.procs().len() implies 1 <= (
        #[trigger] other.procs()[i].pid).0 < other.next_pid by {
            if i < n {
                assert(other.procs()[i] == self.procs()[i]);
                assert(self.procs()[i].pid.0 < self.next_pid);
            }
        }
        assert(other.pids_ok());
        assert forall|pid: ProcessId| self.has_pid(pid) implies #[trigger] other.has_pid(pid)
            && other.idx_of(pid) == self.idx_of(pid) by {
            let i = self.idx_of(pid);
            assert(self.procs()[i].pid == pid);
            assert(other.procs()[i].pid == pid);
            other.lemma_pid_idx(pid, i);
        }
        other.lemma_pid_idx(x.pid, n);
        assert forall|pid: ProcessId| #[trigger] other.has_pid(pid) implies self.has_pid(pid)
            || pid == x.pid by {
            let i = other.idx_of(pid);
            if i < n {
                assert(self.procs()[i].pid == pid);
            } else {
                assert(other.procs()[i] == x);
            }
        }
    }

    /// Creates a process from a parsed image: a fresh identifier, an
    /// address space cloned from the kernel's, the image mapped, a
    /// one-page stack at the top of the new process's stack slot, a
    /// ring-3 entry frame at the image's entry point, and a place at
    /// the tail of the ready queue. When no data is handed in, the
    /// process starts a fresh fork family (fresh environment,
    /// descriptors and semaphores).
    pub fn spawn(
        &mut self,
        image: &crate::elf::ElfImage,
        name: String,
        parent: Option<ProcessId>,
        proc_data: Option<ProcessData>,
    ) -> (r: ProcessId)
        requires
            old(self).inv(),
            crate::elf::spec_image_ok(image.segments@),
            old(self).next_pid <= MAX_STACK_SLOTS,
            old(self).procs()[0].inner.page_table is Some,
            match proc_data {
                Some(d) => d.wf() && d.data_id < old(self).shared@.len(),
                None => true,
            },
        ensures
            final(self).inv(),
            old(self).current_running() ==> final(self).current_running(),
            r.0 == old(self).next_pid,
            final(self).next_pid == old(self).next_pid + 1,
            final(self).current_pid == old(self).current_pid,
            final(self).procs().len() == old(self).procs().len() + 1,
            forall|i: int|
                0 <= i < old(self).procs().len() ==> final(self).procs()[i] == old(
                    self,
                ).procs()[i],
            final(self).ready_queue@ == old(self).ready_queue@.push(r),
            final(self).has_pid(r),
            final(self).idx_of(r) == old(self).procs().len(),
            ({
                let ni = final(self).inner_of(r);
                let stack_bot = crate::paging::STACK_INIT_BOT - (r.0 - 1)
                    * crate::paging::STACK_MAX_SIZE;
                let plan = crate::elf::spec_load_plan(image.segments@, true);
                &&& ni.name@ == crate::text::spec_ascii_lower(name@)
                &&& ni.parent == parent
                &&& ni.children@.len() == 0
                &&& ni.ticks_passed == 0
                &&& ni.status == ProgramStatus::Ready
                &&& ni.exit_code is None
                &&& ni.context == (ProcessContext {
                    rax: 0,
                    stack_frame: crate::context::InterruptFrame {
                        rip: image.entry,
                        cs: crate::context::USER_CODE_SELECTOR,
                        rflags: crate::context::RFLAGS_IF,
                        rsp: (stack_bot + crate::paging::STACK_DEF_SIZE - 8) as u64,
                        ss: crate::context::USER_DATA_SELECTOR,
                    },
                })
                &&& ni.page_table == old(self).procs()[0].inner.page_table
                &&& ni.proc_data matches Some(d2) && {
                    &&& d2.data_id == (match proc_data {
                        Some(d) => d.data_id as int,
                        None => old(self).shared@.len() as int,
                    })
                    &&& d2.stack_segment == Some(
                        crate::paging::PageRange {
                            start: stack_bot as u64,
                            end: (stack_bot + crate::paging::STACK_DEF_SIZE) as u64,
                        },
                    )
                    &&& d2.stack_mem@ =~= Seq::new(
                        crate::paging::STACK_DEF_SIZE as nat,
                        |x: int| 0u8,
                    )
                    &&& d2.code_segments matches Some(v) && v@.len() == plan.len() && (
                    forall|i: int| 0 <= i < v@.len() ==> v@[i] == (#[trigger] plan[i]).pages)
                }
            }),
            proc_data is Some ==> final(self).shared == old(self).shared,
            proc_data is None ==> {
                &&& final(self).shared@.len() == old(self).shared@.len() + 1
                &&& forall|s: int|
                    0 <= s < old(self).shared@.len() ==> final(self).shared@[s] == old(
                        self,
                    ).shared@[s]
                &&& forall|k: u32|
                    !final(self).shared@[old(self).shared@.len() as int].semaphores.has_key(k)
                &&& final(self).shared@[old(self).shared@.len() as int].env@.len() == 0
            },
    {
        let ghost pre = *self;
        let pid_raw = self.next_pid;
        self.next_pid = self.next_pid + 1;
        let pid = ProcessId(pid_raw);
        let kernel_pt = self.processes[0].inner.clone_page_table();
        let data = match proc_data {
            Some(d) => d,
            None => {
                let did = self.shared.len();
                self.shared.push(SharedData::new());
                ProcessData::new(did)
            },
        };
        let mut inner = ProcessInner::new(name, parent, kernel_pt, data);
        let stack_bot = inner.load_elf(image, pid_raw as u64);
        let stack_top = stack_bot + crate::paging::STACK_DEF_SIZE - 8;
        inner.init_user_stack_frame(image.entry, stack_top);
        let new_proc = Process { pid, inner };
        self.processes.push(new_proc);
        proof {
            pre.lemma_push_pids(*self, self.procs().last());
        }
        proof {
            assert(!self.ready_queue@.contains(pid)) by {
                if self.ready_queue@.contains(pid) {
                    let k = choose|k: int|
                        0 <= k < self.ready_queue@.len() && self.ready_queue@[k] == pid;
                    assert(pre.has_pid(pid));
                    let i = pre.idx_of(pid);
                    assert(pre.procs()[i].pid.0 < pre.next_pid);
                }
            }
        }
        self.ready_queue.push_back(pid);
        proof {
            let post = *self;
            pre.lemma_push_pids(post, post.procs().last());
            assert forall|k: int|
                0 <= k < post.ready_queue@.len() implies {
                &&& post.has_pid(#[trigger] post.ready_queue@[k])
                &&& post.inner_of(post.ready_queue@[k]).status == ProgramStatus::Ready
            } by {
                let q = post.ready_queue@[k];
                if k < pre.ready_queue@.len() {
                    assert(q == pre.ready_queue@[k]);
                    assert(pre.has_pid(q));
                    assert(pre.inner_of(q).status == ProgramStatus::Ready);
                    assert(post.has_pid(q));
                    assert(post.idx_of(q) == pre.idx_of(q));
                    assert(post.procs()[pre.idx_of(q)] == pre.procs()[pre.idx_of(q)]);
                } else {
                    assert(q == pid);
                }
            }
            if pre.current_running() {
                assert forall|j: int|
                    0 <= j < post.procs().len() && (#[trigger] post.procs()[j].inner).status
                        == ProgramStatus::Running implies post.procs()[j].pid
                    == post.current_pid by {
                    if j < pre.procs().len() {
                        assert(post.procs()[j] == pre.procs()[j]);
                    } else {
                        assert(post.procs()[j].inner.status == ProgramStatus::Ready);
                    }
                }
                assert(post.cur() == pre.cur()) by {
                    assert(post.idx_of(post.current_pid) == pre.idx_of(pre.current_pid));
                    assert(post.procs()[pre.idx_of(pre.current_pid)] == pre.procs()[pre.idx_of(
                        pre.current_pid,
                    )]);
                }
            }
        }
        pid
    }

    /// Whether a fault at `addr` with `err_code` is stack growth for
    /// the current process: the error is a missing page (no protection
    /// violation) and the address lies in the current process's stack
    /// slot.
    pub open spec fn spec_growable(self, addr: u64, err_code: u64) -> bool {
        let pid = self.current_pid.0 as int;
        let min = crate::paging::STACK_MAX - pid * crate::paging::STACK_MAX_SIZE;
        let max = min + crate::paging::STACK_MAX_SIZE;
        &&& err_code & crate::paging::PAGE_FAULT_PROTECTION_VIOLATION == 0
        &&& min >= 0
        &&& min <= addr < max
    }

    /// Routes a page fault: a missing-page fault inside the current
    /// process's stack slot grows the stack down to the faulting page
    /// (every page in between becomes mapped and zeroed) and is
    /// handled; any other fault is not.
    pub fn handle_page_fault(&mut self, addr: u64, err_code: u64) -> (r: bool)
        requires
            old(self).inv(),
            old(self).cur().status != ProgramStatus::Dead,
            old(self).cur().proc_data->Some_0.stack_segment is Some,
            ({
                let range = old(self).cur().proc_data->Some_0.stack_segment->Some_0;
                crate::paging::spec_page_of(addr) < range.start ==> range.end
                    - crate::paging::spec_page_of(addr) <= usize::MAX
            }),
        ensures
            final(self).inv(),
            r == old(self).spec_growable(addr, err_code),
            !r ==> *final(self) == *old(self),
            r ==> {
                let d = old(self).cur().proc_data->Some_0;
                let old_range = d.stack_segment->Some_0;
                let new_start = if crate::paging::spec_page_of(addr) < old_range.start {
                    crate::paging::spec_page_of(addr)
                } else {
                    old_range.start
                };
                &&& *final(self) == (ProcessManager {
                    processes: final(self).processes,
                    ..*old(self)
                })
                &&& final(self).procs() == old(self).procs().update(
                    old(self).idx_of(old(self).current_pid),
                    Process {
                        pid: old(self).current_pid,
                        inner: ProcessInner {
                            proc_data: final(self).cur().proc_data,
                            ..old(self).cur()
                        },
                    },
                )
                &&& final(self).cur().proc_data matches Some(d2) && {
                    &&& d2.data_id == d.data_id
                    &&& d2.code_segments == d.code_segments
                    &&& d2.stack_segment == Some(
                        crate::paging::PageRange { start: new_start, end: old_range.end },
                    )
                    &&& d2.stack_mem@ =~= Seq::new(
                        (old_range.start - new_start) as nat,
                        |x: int| 0u8,
                    ) + d.stack_mem@
                }
            },
    {
        let ghost pre = *self;
        if err_code & crate::paging::PAGE_FAULT_PROTECTION_VIOLATION != 0 {
            return false;
        }
        let pid = self.current_pid;
        let i = self.find_index(pid).unwrap();
        proof {
            pre.lemma_pid_idx(pid, i as int);
        }
        let pid64 = pid.0 as u64;
        if pid64 > crate::paging::STACK_MAX / crate::paging::STACK_MAX_SIZE {
            proof {
                assert(pid64 * crate::paging::STACK_MAX_SIZE > crate::paging::STACK_MAX)
                    by (nonlinear_arith)
                    requires
                        pid64 > crate::paging::STACK_MAX / crate::paging::STACK_MAX_SIZE,
                        crate::paging::STACK_MAX_SIZE == 0x100000000,
                        crate::paging::STACK_MAX == 0x4000_0000_0000,
                ;
            }
            return false;
        }
        proof {
            assert(pid64 * crate::paging::STACK_MAX_SIZE <= crate::paging::STACK_MAX)
                by (nonlinear_arith)
                requires
                    pid64 <= crate::paging::STACK_MAX / crate::paging::STACK_MAX_SIZE,
                    crate::paging::STACK_MAX_SIZE == 0x100000000,
                    crate::paging::STACK_MAX == 0x4000_0000_0000,
            ;
        }
        let min_addr = crate::paging::STACK_MAX - pid64 * crate::paging::STACK_MAX_SIZE;
        let max_addr = min_addr + crate::paging::STACK_MAX_SIZE;
        if addr < min_addr || addr >= max_addr {
            return false;
        }
        let p = &mut self.processes[i];
        p.inner.alloc_new_stack_page(addr);
        proof {
            let post = *self;
            pre.lemma_same_pids(post);
            assert forall|k: int|
                0 <= k < post.ready_queue@.len() implies {
                &&& post.has_pid(#[trigger] post.ready_queue@[k])
                &&& post.inner_of(post.ready_queue@[k]).status == ProgramStatus::Ready
            } by {
                let q = post.ready_queue@[k];
                assert(pre.inner_of(q).status == ProgramStatus::Ready);
                if pre.idx_of(q) == i as int {
                    assert(pre.procs()[i as int].pid == q);
                }
            }
        }
        true
    }

    /// Whether mapping `size` bytes of stack at `base` would collide
    /// with a stack already mapped in the shared lower page tables,
    /// that is, with any process's stack segment.
    pub open spec fn spec_base_taken(self, base: u64, size: u64) -> bool {
        exists|i: int|
            0 <= i < self.procs().len() && ((#[trigger] self.procs()[i].inner).proc_data matches
                Some(d) && (d.stack_segment matches Some(rg) && rg.start < base + size && base
                < rg.end))
    }

    /// The stack base the fork scan settles on: the first candidate
    /// (counting down one slot size at a time) whose range is free, or
    /// nothing once the scan would leave the address space.
    pub open spec fn spec_scan(self, base: int, size: u64) -> Option<u64>
        decreases base,
    {
        if base < 0 {
            None
        } else if !self.spec_base_taken(base as u64, size) {
            Some(base as u64)
        } else if base < crate::paging::STACK_MAX_SIZE {
            None
        } else {
            self.spec_scan(base - crate::paging::STACK_MAX_SIZE, size)
        }
    }

    /// Checks a candidate stack range against every mapped stack.
    fn base_taken(&self, base: u64, size: u64) -> (r: bool)
        requires
            base + size <= u64::MAX,
        ensures
            r == self.spec_base_taken(base, size),
    {
        let n = self.processes.len();
        for i in 0..n
            invariant
                base + size <= u64::MAX,
                n == self.procs().len(),
                forall|j: int|
                    0 <= j < i ==> !((#[trigger] self.procs()[j].inner).proc_data matches Some(
                        d,
                    ) && (d.stack_segment matches Some(rg) && rg.start < base + size && base
                        < rg.end)),
        {
            if let Some(d) = self.processes[i].inner.proc_data.as_ref() {
                if let Some(rg) = d.stack_segment.as_ref() {
                    if rg.start < base + size && base < rg.end {
                        return true;
                    }
                }
            }
        }
        false
    }

    /// The fork scan reads only each process's recorded stacks, so two
    /// states whose processes hold the same data scan alike.
    pub proof fn lemma_scan_eq(self, other: ProcessManager, base: int, size: u64)
        requires
            self.procs().len() == other.procs().len(),
            forall|i: int|
                0 <= i < self.procs().len() ==> (#[trigger] self.procs()[i].inner).proc_data
                    == other.procs()[i].inner.proc_data,
        ensures
            self.spec_scan(base, size) == other.spec_scan(base, size),
        decreases base,
    {
        assert forall|x: u64| #[trigger] self.spec_base_taken(x, size) == other.spec_base_taken(
            x,
            size,
        ) by {
            if self.spec_base_taken(x, size) {
                let i = choose|i: int|
                    0 <= i < self.procs().len() && ((#[trigger] self.procs()[i].inner).proc_data
                        matches Some(d) && (d.stack_segment matches Some(rg) && rg.start < x
                        + size && x < rg.end));
                assert(other.procs()[i].inner.proc_data == self.procs()[i].inner.proc_data);
            }
            if other.spec_base_taken(x, size) {
                let i = choose|i: int|
                    0 <= i < other.procs().len() && ((
                    #[trigger] other.procs()[i].inner).proc_data matches Some(d) && (
                    d.stack_segment matches Some(rg) && rg.start < x + size && x < rg.end));
                assert(self.procs()[i].inner.proc_data == other.procs()[i].inner.proc_data);
            }
        }
        if base >= 0 && self.spec_base_taken(base as u64, size) && base
            >= crate::paging::STACK_MAX_SIZE {
            self.lemma_scan_eq(other, base - crate::paging::STACK_MAX_SIZE, size);
        }
    }

    /// Forks the current process. The child shares the parent's data
    /// (environment, descriptors, semaphores), gets a forked page
    /// table, and gets a fresh stack — the first free slot-aligned
    /// range below the parent's stack — filled with a copy of the
    /// parent's stack bytes; its stack pointer is shifted by the
    /// distance between the stacks. The child's `rax` is 0 and the
    /// parent's is the child's identifier, so each side sees fork's
    /// return value when resumed. The child is not yet enqueued. The
    /// fork is refused (and nothing changes) only when no free range
    /// remains above address zero.
    pub fn fork(&mut self) -> (r: Option<ProcessId>)
        requires
            old(self).inv(),
            old(self).next_pid < u16::MAX,
            old(self).cur().status != ProgramStatus::Dead,
            old(self).cur().proc_data->Some_0.stack_segment is Some,
        ensures
            final(self).inv(),
            ({
                let parent = old(self).current_pid;
                let d = old(self).cur().proc_data->Some_0;
                let rg = d.stack_segment->Some_0;
                let first = rg.start - (old(self).cur().children@.len() + 1)
                    * crate::paging::STACK_MAX_SIZE;
                let scan = old(self).spec_scan(first, rg.spec_size());
                match r {
                    None => scan is None && *final(self) == *old(self),
                    Some(child) => {
                        let base = scan->Some_0;
                        let pi = final(self).inner_of(parent);
                        let ci = final(self).inner_of(child);
                        &&& scan is Some
                        &&& child.0 == old(self).next_pid
                        &&& final(self).next_pid == old(self).next_pid + 1
                        &&& final(self).current_pid == parent
                        &&& final(self).ready_queue@ == old(self).ready_queue@
                        &&& final(self).shared == old(self).shared
                        &&& final(self).app_list == old(self).app_list
                        &&& final(self).console == old(self).console
                        &&& final(self).input == old(self).input
                        &&& final(self).procs().len() == old(self).procs().len() + 1
                        &&& forall|j: int|
                            0 <= j < old(self).procs().len() && j != old(self).idx_of(parent)
                                ==> final(self).procs()[j] == old(self).procs()[j]
                        &&& final(self).has_pid(parent)
                        &&& final(self).idx_of(parent) == old(self).idx_of(parent)
                        &&& final(self).has_pid(child)
                        &&& final(self).idx_of(child) == old(self).procs().len()
                        &&& pi.children@ == old(self).cur().children@.push(child)
                        &&& pi.context == (ProcessContext {
                            rax: child.0 as u64,
                            ..old(self).cur().context
                        })
                        &&& pi.name == old(self).cur().name
                        &&& pi.parent == old(self).cur().parent
                        &&& pi.ticks_passed == old(self).cur().ticks_passed
                        &&& pi.status == old(self).cur().status
                        &&& pi.exit_code == old(self).cur().exit_code
                        &&& pi.page_table == old(self).cur().page_table
                        &&& pi.proc_data == old(self).cur().proc_data
                        &&& ci.name == old(self).cur().name
                        &&& ci.parent == Some(parent)
                        &&& ci.children@.len() == 0
                        &&& ci.ticks_passed == 0
                        &&& ci.status == ProgramStatus::Ready
                        &&& ci.exit_code is None
                        &&& ci.page_table == Some(
                            crate::paging::PageTableContext { root: old(self).next_table_root },
                        )
                        &&& ci.context == (ProcessContext {
                            rax: 0,
                            stack_frame: crate::context::InterruptFrame {
                                rsp: crate::paging::spec_wrap_sub64(
                                    old(self).cur().context.stack_frame.rsp,
                                    (rg.start - base) as u64,
                                ),
                                ..old(self).cur().context.stack_frame
                            },
                        })
                        &&& ci.proc_data matches Some(d2) && {
                            &&& d2.data_id == d.data_id
                            &&& d2.stack_segment == Some(
                                crate::paging::PageRange {
                                    start: base,
                                    end: (base + rg.spec_size()) as u64,
                                },
                            )
                            &&& d2.stack_mem@ == d.stack_mem@
                        }
                    },
                }
            }),
    {
        let ghost pre = *self;
        let parent_pid = self.current_pid;
        let i = self.find_index(parent_pid).unwrap();
        proof {
            pre.lemma_pid_idx(parent_pid, i as int);
        }
        let stack_info = self.processes[i].inner.proc_data.as_ref().unwrap().stack_segment
            .unwrap();
        let old_base = stack_info.start;
        let size = stack_info.size();
        let kids = self.processes[i].inner.children.len();
        let ghost first = stack_info.start - (pre.cur().children@.len() + 1)
            * crate::paging::STACK_MAX_SIZE as int;
        let k128 = kids as u128 + 1;
        let off128 = k128 * (crate::paging::STACK_MAX_SIZE as u128);
        proof {
            assert(off128 == (pre.cur().children@.len() + 1) * (
            crate::paging::STACK_MAX_SIZE as int)) by (nonlinear_arith)
                requires
                    off128 == k128 * (crate::paging::STACK_MAX_SIZE as u128),
                    k128 == kids + 1,
                    kids == pre.cur().children@.len(),
            ;
        }
        if off128 > old_base as u128 {
            proof {
                assert(first < 0);
                assert(pre.spec_scan(first, stack_info.spec_size()) is None);
            }
            return None;
        }
        let mut base = old_base - off128 as u64;
        proof {
            assert(base == first);
            assert(base % crate::paging::PAGE_SIZE == 0) by (nonlinear_arith)
                requires
                    base == old_base - off128,
                    old_base % crate::paging::PAGE_SIZE == 0,
                    off128 == k128 * (crate::paging::STACK_MAX_SIZE as u128),
                    crate::paging::STACK_MAX_SIZE == 0x1_0000_0000,
                    crate::paging::PAGE_SIZE == 4096,
                    off128 <= old_base,
            ;
            assert(stack_info.wf());
            assert(base + size <= u64::MAX) by {
                assert(old_base + size == stack_info.end);
            }
        }
        while self.base_taken(base, size)
            invariant
                *self == pre,
                pre == *old(self),
                pre.inv(),
                stack_info.wf(),
                stack_info == old(self).cur().proc_data->Some_0.stack_segment->Some_0,
                first == stack_info.start - (old(self).cur().children@.len() + 1)
                    * crate::paging::STACK_MAX_SIZE,
                size == stack_info.spec_size(),
                base <= stack_info.start,
                base + size <= u64::MAX,
                base % crate::paging::PAGE_SIZE == 0,
                pre.spec_scan(base as int, size) == pre.spec_scan(first, size),
            decreases base,
        {
            if base < crate::paging::STACK_MAX_SIZE {
                proof {
                    assert(pre.spec_scan(base as int, size) is None);
                }
                return None;
            }
            proof {
                assert(pre.spec_scan(base as int, size) == pre.spec_scan(
                    base - crate::paging::STACK_MAX_SIZE,
                    size,
                ));
            }
            base = base - crate::paging::STACK_MAX_SIZE;
        }
        proof {
            assert(pre.spec_scan(base as int, size) == Some(base));
        }
        let root = self.next_table_root;
        self.next_table_root = if self.next_table_root < u64::MAX {
            self.next_table_root + 1
        } else {
            0
        };
        let child_pid_raw = self.next_pid;
        self.next_pid = self.next_pid + 1;
        let child_pid = ProcessId(child_pid_raw);
        let child_inner = self.processes[i].inner.fork(parent_pid, base, root);
        let p = &mut self.processes[i];
        p.inner.children.push(child_pid);
        p.inner.context.set_rax(child_pid_raw as u64);
        let ghost mid = *self;
        proof {
            pre.lemma_same_pids(mid);
        }
        self.processes.push(Process { pid: child_pid, inner: child_inner });
        proof {
            let post = *self;
            mid.lemma_push_pids(post, post.procs().last());
            assert forall|kq: int|
                0 <= kq < post.ready_queue@.len() implies {
                &&& post.has_pid(#[trigger] post.ready_queue@[kq])
                &&& post.inner_of(post.ready_queue@[kq]).status == ProgramStatus::Ready
            } by {
                let q = post.ready_queue@[kq];
                assert(pre.has_pid(q));
                assert(pre.inner_of(q).status == ProgramStatus::Ready);
                assert(mid.has_pid(q));
                assert(mid.idx_of(q) == pre.idx_of(q));
                assert(post.has_pid(q));
                assert(post.idx_of(q) == mid.idx_of(q));
                if pre.idx_of(q) == i as int {
                    assert(pre.procs()[i as int].pid == q);
                }
            }
            assert(post.has_pid(parent_pid));
            assert(post.idx_of(parent_pid) == i as int);
            assert(post.has_pid(child_pid));
            assert(post.idx_of(child_pid) == pre.procs().len());
        }
        Some(child_pid)
    }

    /// The shared-data index of the current process's fork family.
    fn cur_data_id(&self) -> (r: usize)
        requires
            self.inv(),
            self.cur().status != ProgramStatus::Dead,
        ensures
            r == self.cur().proc_data->Some_0.data_id,
            r < self.shared@.len(),
    {
        let i = self.find_index(self.current_pid).unwrap();
        proof {
            self.lemma_pid_idx(self.current_pid, i as int);
        }
        match &self.processes[i].inner.proc_data {
            Some(d) => d.data_id,
            None => 0,  // unreachable: a live process holds its data
        }
    }

    /// Creates a semaphore under `key` in the current family; 0 on
    /// success, 1 when the key exists already.
    pub fn new_sem(&mut self, key: u32, value: usize) -> (r: usize)
        requires
            old(self).inv(),
            old(self).cur().status != ProgramStatus::Dead,
        ensures
            final(self).inv(),
            ({
                let did = old(self).cur().proc_data->Some_0.data_id as int;
                let sems = old(self).shared@[did].semaphores;
                &&& *final(self) == (ProcessManager { shared: final(self).shared, ..*old(self) })
                &&& final(self).shared@.len() == old(self).shared@.len()
                &&& forall|sx: int|
                    0 <= sx < old(self).shared@.len() && sx != did ==> final(self).shared@[sx]
                        == old(self).shared@[sx]
                &&& final(self).shared@[did].env == old(self).shared@[did].env
                &&& final(self).shared@[did].resources == old(self).shared@[did].resources
                &&& r == (if sems.has_key(key) {
                    1int
                } else {
                    0int
                })
                &&& (r == 0 ==> {
                    &&& final(self).shared@[did].semaphores.has_key(key)
                    &&& final(self).shared@[did].semaphores.sem(key).count == value
                    &&& final(self).shared@[did].semaphores.sem(key).queue()
                        =~= Seq::<ProcessId>::empty()
                    &&& sems.same_except(final(self).shared@[did].semaphores, key)
                })
                &&& (r == 1 ==> final(self).shared@[did].semaphores == sems)
            }),
    {
        let did = self.cur_data_id();
        let sd = &mut self.shared[did];
        let ok = sd.semaphores.insert(key, value);
        if ok {
            0
        } else {
            1
        }
    }

    /// Deletes the semaphore under `key` in the current family; 0 on
    /// success, 1 when it does not exist or processes still wait on it.
    pub fn remove_sem(&mut self, key: u32) -> (r: usize)
        requires
            old(self).inv(),
            old(self).cur().status != ProgramStatus::Dead,
        ensures
            final(self).inv(),
            ({
                let did = old(self).cur().proc_data->Some_0.data_id as int;
                let sems = old(self).shared@[did].semaphores;
                &&& *final(self) == (ProcessManager { shared: final(self).shared, ..*old(self) })
                &&& final(self).shared@.len() == old(self).shared@.len()
                &&& forall|sx: int|
                    0 <= sx < old(self).shared@.len() && sx != did ==> final(self).shared@[sx]
                        == old(self).shared@[sx]
                &&& final(self).shared@[did].env == old(self).shared@[did].env
                &&& final(self).shared@[did].resources == old(self).shared@[did].resources
                &&& r == (if sems.has_key(key) && sems.sem(key).queue().len() == 0 {
                    0int
                } else {
                    1int
                })
                &&& (r == 0 ==> !final(self).shared@[did].semaphores.has_key(key)
                    && sems.same_except(final(self).shared@[did].semaphores, key))
                &&& (r == 1 ==> final(self).shared@[did].semaphores == sems)
            }),
    {
        let did = self.cur_data_id();
        let sd = &mut self.shared[did];
        let ok = sd.semaphores.remove(key);
        if ok {
            0
        } else {
            1
        }
    }

    /// The value bound to `key` in the current process's environment.
    pub fn env(&self, key: &String) -> (r: Option<String>)
        requires
            self.inv(),
            self.cur().status != ProgramStatus::Dead,
        ensures
            ({
                let did = self.cur().proc_data->Some_0.data_id as int;
                match r {
                    Some(v) => spec_env_lookup(self.shared@[did].env@, key@) == Some(v@),
                    None => spec_env_lookup(self.shared@[did].env@, key@) is None,
                }
            }),
    {
        let did = self.cur_data_id();
        let env = &self.shared[did].env;
        let n = env.len();
        let mut j = n;
        proof {
            assert(env@.take(n as int) =~= env@);
        }
        loop
            invariant
                did < self.shared@.len(),
                did == self.cur().proc_data->Some_0.data_id,
                env == &self.shared@[did as int].env,
                n == env@.len(),
                j <= n,
                spec_env_lookup(env@.take(j as int), key@) == spec_env_lookup(env@, key@),
            decreases j,
        {
            if j == 0 {
                return None;
            }
            j = j - 1;
            proof {
                assert(env@.take(j + 1).drop_last() =~= env@.take(j as int));
                assert(env@.take(j + 1).last() == env@[j as int]);
            }
            if env[j].key == *key {
                return Some(env[j].val.clone());
            }
        }
    }

    /// Binds `key` to `val` in the current process's environment; the
    /// binding is seen by the whole fork family.
    pub fn set_env(&mut self, key: String, val: String)
        requires
            old(self).inv(),
            old(self).cur().status != ProgramStatus::Dead,
        ensures
            final(self).inv(),
            ({
                let did = old(self).cur().proc_data->Some_0.data_id as int;
                &&& *final(self) == (ProcessManager { shared: final(self).shared, ..*old(self) })
                &&& final(self).shared@.len() == old(self).shared@.len()
                &&& forall|sx: int|
                    0 <= sx < old(self).shared@.len() && sx != did ==> final(self).shared@[sx]
                        == old(self).shared@[sx]
                &&& final(self).shared@[did].resources == old(self).shared@[did].resources
                &&& final(self).shared@[did].semaphores == old(self).shared@[did].semaphores
                &&& spec_env_lookup(final(self).shared@[did].env@, key@) == Some(val@)
                &&& forall|k2: Seq<char>|
                    k2 != key@ ==> #[trigger] spec_env_lookup(
                        final(self).shared@[did].env@,
                        k2,
                    ) == spec_env_lookup(old(self).shared@[did].env@, k2)
            }),
    {
        let did = self.cur_data_id();
        let sd = &mut self.shared[did];
        let ghost old_env = sd.env@;
        let ghost key_view = key@;
        let ghost val_view = val@;
        sd.env.push(EnvEntry { key, val });
        proof {
            assert(sd.env@.drop_last() =~= old_env);
            assert(sd.env@.last().key@ == key_view && sd.env@.last().val@ == val_view);
        }
    }

    /// Reads from the current process's descriptor `fd` into `buf`:
    /// the byte count, or −1 when the descriptor is unbound or
    /// unreadable. Stdin delivers one key from the input buffer.
    pub fn read(&mut self, fd: u8, buf: &mut Vec<u8>) -> (r: isize)
        requires
            old(self).inv(),
            old(self).cur().status != ProgramStatus::Dead,
            old(buf)@.len() <= isize::MAX,
        ensures
            final(self).inv(),
            *final(self) == (ProcessManager { input: final(self).input, ..*old(self) }),
            ({
                let did = old(self).cur().proc_data->Some_0.data_id as int;
                let set = old(self).shared@[did].resources;
                match set.spec_get(fd) {
                    None => r == -1 && *final(buf) == *old(buf) && final(self).input == old(
                        self,
                    ).input,
                    Some(res) => match res {
                        crate::resource::Resource::Console(crate::resource::StdIO::Stdin) => {
                            if old(buf)@.len() == 0 {
                                r == 0 && *final(buf) == *old(buf) && final(self).input == old(
                                    self,
                                ).input
                            } else {
                                &&& r == 1
                                &&& final(buf)@ == old(buf)@.update(
                                    0,
                                    if old(self).input.contents().len() > 0 {
                                        old(self).input.contents()[0]
                                    } else {
                                        0u8
                                    },
                                )
                                &&& final(self).input.contents() == if old(
                                    self,
                                ).input.contents().len() > 0 {
                                    old(self).input.contents().drop_first()
                                } else {
                                    old(self).input.contents()
                                }
                            }
                        },
                        crate::resource::Resource::Console(_) => r == -1 && *final(buf) == *old(
                            buf,
                        ) && final(self).input == old(self).input,
                        crate::resource::Resource::Null => r == 0 && *final(buf) == *old(buf)
                            && final(self).input == old(self).input,
                    },
                }
            }),
    {
        let did = self.cur_data_id();
        let set = &self.shared[did].resources;
        set.read(fd, buf, &mut self.input)
    }

    /// Writes `buf` to the current process's descriptor `fd`: the byte
    /// count, or −1 when the descriptor is unbound or unwritable.
    /// Stdout and stderr append to the console log.
    pub fn write(&mut self, fd: u8, buf: &Vec<u8>) -> (r: isize)
        requires
            old(self).inv(),
            old(self).cur().status != ProgramStatus::Dead,
            buf@.len() <= isize::MAX,
            old(self).console@.len() + buf@.len() <= usize::MAX,
        ensures
            final(self).inv(),
            *final(self) == (ProcessManager { console: final(self).console, ..*old(self) }),
            ({
                let did = old(self).cur().proc_data->Some_0.data_id as int;
                let set = old(self).shared@[did].resources;
                match set.spec_get(fd) {
                    None => r == -1 && final(self).console == old(self).console,
                    Some(res) => match res {
                        crate::resource::Resource::Console(crate::resource::StdIO::Stdin) => r
                            == -1 && final(self).console == old(self).console,
                        crate::resource::Resource::Console(_) => r == buf@.len() && final(self).console@ == old(self).console@ + buf@,
                        crate::resource::Resource::Null => r == buf@.len() && final(self).console == old(self).console,
                    },
                }
            }),
    {
        let did = self.cur_data_id();
        let set = &self.shared[did].resources;
        set.write(fd, buf, &mut self.console)
    }

    /// Renders the process table: one line per non-dead process with
    /// its identifier, parent, name, tick count and status, followed
    /// by the ready queue.
    #[verifier::rlimit(50)]
    pub fn print_process_list(&self) -> (r: String)
        requires
            self.inv(),
        ensures
            r@ == spec_process_table(self.procs(), self.ready_queue@),
            r@.len() > 0,
    {
        let mut out = String::new();
        out.push_str("  PID | PPID | Process Name |  Ticks  | Status\n");
        proof {
            reveal_strlit("  PID | PPID | Process Name |  Ticks  | Status\n");
            assert(self.procs().take(0).len() == 0);
            assert(out@ =~= "  PID | PPID | Process Name |  Ticks  | Status\n"@
                + spec_process_rows(self.procs().take(0)));
        }
        let n = self.processes.len();
        for i in 0..n
            invariant
                n == self.procs().len(),
                out@.len() > 0,
                out@ == "  PID | PPID | Process Name |  Ticks  | Status\n"@
                    + spec_process_rows(self.procs().take(i as int)),
        {
            proof {
                assert(self.procs().take(i + 1).drop_last() =~= self.procs().take(i as int));
                assert(self.procs().take(i + 1).last() == self.procs()[i as int]);
            }
            let ghost before = out@;
            let p = &self.processes[i];
            if p.inner.status() != ProgramStatus::Dead {
                out.push_str("  #");
                out.push_str(crate::text::dec_u64(p.pid.0 as u64).as_str());
                out.push_str(" | #");
                let ppid: u64 = match p.inner.parent() {
                    Some(pp) => pp.0 as u64,
                    None => 0,
                };
                out.push_str(crate::text::dec_u64(ppid).as_str());
                out.push_str(" | ");
                out.push_str(p.inner.name().as_str());
                out.push_str(" | ");
                out.push_str(crate::text::dec_u64(p.inner.ticks_passed).as_str());
                out.push_str(" | ");
                out.push_str(status_label(p.inner.status()).as_str());
                out.push_str("\n");
                proof {
                    assert(out@ =~= before + spec_process_row(self.procs()[i as int]));
                    assert(out@ =~= "  PID | PPID | Process Name |  Ticks  | Status\n"@
                        + spec_process_rows(self.procs().take(i + 1)));
                }
            } else {
                proof {
                    assert(out@ =~= "  PID | PPID | Process Name |  Ticks  | Status\n"@
                        + spec_process_rows(self.procs().take(i + 1)));
                }
            }
        }
        proof {
            assert(self.procs().take(n as int) =~= self.procs());
        }
        out.push_str("Queue  :");
        let ghost after_rows = out@;
        proof {
            assert(self.ready_queue@.take(0).len() == 0);
            assert(out@ =~= after_rows + spec_queue_listing(self.ready_queue@.take(0)));
        }
        let qn = self.ready_queue.len();
        let mut k: usize = 0;
        while k < qn
            invariant
                qn == self.ready_queue@.len(),
                k <= qn,
                out@.len() > 0,
                out@ == after_rows + spec_queue_listing(self.ready_queue@.take(k as int)),
                after_rows == "  PID | PPID | Process Name |  Ticks  | Status\n"@
                    + spec_process_rows(self.procs()) + "Queue  :"@,
            decreases qn - k,
        {
            proof {
                assert(self.ready_queue@.take(k + 1).drop_last() =~= self.ready_queue@.take(
                    k as int,
                ));
                assert(self.ready_queue@.take(k + 1).last() == self.ready_queue@[k as int]);
            }
            let ghost before = out@;
            out.push_str(" ");
            out.push_str(crate::text::dec_u64(self.ready_queue[k].0 as u64).as_str());
            proof {
                assert(out@ =~= before + (" "@ + crate::text::spec_dec_u64(
                    self.ready_queue@[k as int].0 as nat,
                )));
                assert(out@ =~= after_rows + spec_queue_listing(self.ready_queue@.take(k + 1)));
            }
            k = k + 1;
        }
        proof {
            assert(self.ready_queue@.take(qn as int) =~= self.ready_queue@);
        }
        out.push_str("\n");
        proof {
            assert(out@ =~= spec_process_table(self.procs(), self.ready_queue@));
        }
        out
    }

}



/// Removes every occurrence of `pid` from the deque, keeping the order
/// of the rest.
fn purge_deque(queue: &mut VecDeque<ProcessId>, pid: ProcessId)
    ensures
        final(queue)@ == old(queue)@.filter(crate::sync::not_pid(pid)),
{
    let ghost pred = crate::sync::not_pid(pid);
    let n = queue.len();
    let ghost orig = queue@;
    proof {
        reveal(Seq::filter);
        assert(orig.take(0).filter(pred) =~= Seq::<ProcessId>::empty());
        assert(orig.skip(0) =~= orig);
    }
    for k in 0..n
        invariant
            n == orig.len(),
            queue@ =~= orig.skip(k as int) + orig.take(k as int).filter(pred),
            pred == crate::sync::not_pid(pid),
    {
        let ghost pre_q = queue@;
        if let Some(p) = queue.pop_front() {
            proof {
                assert(pre_q[0] == orig.skip(k as int)[0]);
                assert(p == orig[k as int]);
            }
            if p.0 != pid.0 {
                queue.push_back(p);
            }
            proof {
                let take_k = orig.take(k as int);
                let take_k1 = orig.take(k + 1);
                assert(take_k1.drop_last() =~= take_k);
                assert(take_k1.last() == orig[k as int]);
                assert(take_k1.filter(pred) == if pred(orig[k as int]) {
                    take_k.filter(pred).push(orig[k as int])
                } else {
                    take_k.filter(pred)
                }) by {
                    reveal(Seq::filter);
                }
                assert(queue@ =~= orig.skip(k + 1) + take_k1.filter(pred));
            }
        } else {
            proof {
                assert(false);
            }
        }
    }
    proof {
        assert(orig.skip(n as int).len() == 0);
        assert(orig.take(n as int) =~= orig);
        assert(queue@ =~= orig.filter(pred));
    }
}

/// Every element of a filtered sequence occurs in the original.
proof fn lemma_filter_subset<T>(s: Seq<T>, pred: spec_fn(T) -> bool)
    ensures
        forall|x: T| #[trigger] s.filter(pred).contains(x) ==> s.contains(x) && pred(x),
    decreases s.len(),
{
    reveal(Seq::filter);
    if s.len() > 0 {
        lemma_filter_subset(s.drop_last(), pred);
        assert forall|x: T| #[trigger] s.filter(pred).contains(x) implies s.contains(x)
            && pred(x) by {
            if s.drop_last().filter(pred).contains(x) {
                assert(s.drop_last().contains(x));
                let j = choose|j: int|
                    0 <= j < s.drop_last().len() && s.drop_last()[j] == x;
                assert(s[j] == x);
            } else {
                assert(x == s.last());
                assert(s[s.len() - 1] == x);
            }
        }
    }
}

/// Filtering keeps the entries of a duplicate-free sequence
/// duplicate-free.
proof fn lemma_filter_distinct<T>(s: Seq<T>, pred: spec_fn(T) -> bool)
    requires
        forall|k: int, l: int| 0 <= k < l < s.len() ==> s[k] != s[l],
    ensures
        forall|k: int, l: int|
            0 <= k < l < s.filter(pred).len() ==> s.filter(pred)[k] != s.filter(pred)[l],
    decreases s.len(),
{
    reveal(Seq::filter);
    if s.len() > 0 {
        let d = s.drop_last();
        assert(forall|k: int, l: int| 0 <= k < l < d.len() ==> d[k] != d[l]) by {
            assert(forall|k: int| 0 <= k < d.len() ==> d[k] == s[k]);
        }
        lemma_filter_distinct(d, pred);
        lemma_filter_subset(d, pred);
        if pred(s.last()) {
            let f = s.filter(pred);
            assert(f == d.filter(pred).push(s.last()));
            assert forall|k: int, l: int| 0 <= k < l < f.len() implies f[k] != f[l] by {
                if l < f.len() - 1 {
                    assert(f[k] == d.filter(pred)[k]);
                    assert(f[l] == d.filter(pred)[l]);
                } else {
                    assert(f[l] == s.last());
                    assert(f[k] == d.filter(pred)[k]);
                    if f[k] == s.last() {
                        assert(d.filter(pred).contains(f[k])) by {
                            assert(d.filter(pred)[k] == f[k]);
                        }
                        assert(d.contains(s.last()));
                        let j = choose|j: int| 0 <= j < d.len() && d[j] == s.last();
                        assert(s[j] == s[s.len() - 1]);
                    }
                }
            }
        }
    }
}


/// Whether the table `s` holds a process with `pid`.
pub open spec fn seq_has_pid(s: Seq<Process>, pid: ProcessId) -> bool {
    exists|i: int| 0 <= i < s.len() && s[i].pid == pid
}

/// The index of `pid` in the table `s` (meaningful when present).
pub open spec fn seq_idx_of(s: Seq<Process>, pid: ProcessId) -> int {
    choose|i: int| 0 <= i < s.len() && s[i].pid == pid
}

/// The value bound to `key`, latest binding first.
pub open spec fn spec_env_lookup(env: Seq<EnvEntry>, key: Seq<char>) -> Option<Seq<char>>
    decreases env.len(),
{
    if env.len() == 0 {
        None
    } else if env.last().key@ == key {
        Some(env.last().val@)
    } else {
        spec_env_lookup(env.drop_last(), key)
    }
}


/// Filtering with a predicate that holds everywhere changes nothing.
proof fn lemma_filter_all<T>(s: Seq<T>, pred: spec_fn(T) -> bool)
    requires
        forall|i: int| 0 <= i < s.len() ==> pred(#[trigger] s[i]),
    ensures
        s.filter(pred) == s,
    decreases s.len(),
{
    reveal(Seq::filter);
    if s.len() > 0 {
        let d = s.drop_last();
        assert(forall|i: int| 0 <= i < d.len() ==> pred(#[trigger] d[i])) by {
            assert(forall|i: int| 0 <= i < d.len() ==> d[i] == s[i]);
        }
        lemma_filter_all(d, pred);
        assert(s.filter(pred) =~= s);
    }
}

/// The tick counter after one more timer interrupt (saturating).
pub open spec fn spec_tick(t: u64) -> u64 {
    if t < u64::MAX {
        (t + 1) as u64
    } else {
        t
    }
}

/// A process record as `save_current` leaves it: the given context
/// saved, one more tick, and running demoted to ready.
pub open spec fn spec_saved(inner: ProcessInner, context: ProcessContext) -> ProcessInner {
    ProcessInner {
        context,
        ticks_passed: spec_tick(inner.ticks_passed),
        status: if inner.status == ProgramStatus::Running {
            ProgramStatus::Ready
        } else {
            inner.status
        },
        ..inner
    }
}


/// The timer-trap path: saves the running process (which re-enqueues
/// it) and hands the CPU to the head of the ready queue. One process
/// is running before, one — the head of the queue, or the same one if
/// the queue was empty — is running after: the round-robin step.
pub fn switch(m: &mut ProcessManager, context: &mut ProcessContext)
    requires
        old(m).inv(),
        old(m).current_running(),
    ensures
        final(m).inv(),
        final(m).current_running(),
        old(m).ready_queue@.len() > 0 ==> {
            &&& final(m).current_pid == old(m).ready_queue@[0]
            &&& final(m).ready_queue@ == old(m).ready_queue@.drop_first().push(
                old(m).current_pid,
            )
        },
        old(m).ready_queue@.len() == 0 ==> {
            &&& final(m).current_pid == old(m).current_pid
            &&& final(m).ready_queue@ == old(m).ready_queue@
        },
        final(m).cur().status == ProgramStatus::Running,
        *final(context) == final(m).cur().context,
{
    m.save_current(context);
    m.switch_next(context);
}

/// The fork syscall path: the parent is saved and re-enqueued, the
/// child is created and enqueued behind it, and the scheduler picks
/// the next process. Returns the child's identifier — the value the
/// parent sees in `rax` — or `u16::MAX` when every candidate stack
/// range was taken and the fork was aborted.
#[verifier::rlimit(50)]
pub fn fork(m: &mut ProcessManager, context: &mut ProcessContext) -> (r: u16)
    requires
        old(m).inv(),
        old(m).current_running(),
        old(m).next_pid < u16::MAX,
        old(m).cur().proc_data->Some_0.stack_segment is Some,
    ensures
        final(m).inv(),
        final(m).current_running(),
        r != u16::MAX ==> {
            &&& r == old(m).next_pid
            &&& final(m).has_pid(ProcessId(r))
            &&& final(m).inner_of(ProcessId(r)).context.rax == 0
            &&& final(m).inner_of(ProcessId(r)).parent == Some(old(m).current_pid)
            &&& final(m).inner_of(ProcessId(r)).proc_data->Some_0.stack_mem@ == old(
                m,
            ).cur().proc_data->Some_0.stack_mem@
            &&& final(m).inner_of(old(m).current_pid).context.rax == r
            &&& final(m).inner_of(old(m).current_pid).proc_data == old(m).cur().proc_data
        },
        r == u16::MAX ==> {
            &&& final(m).procs().len() == old(m).procs().len()
            &&& final(m).next_pid == old(m).next_pid
        },
        (r == u16::MAX) == ({
            let d = old(m).cur().proc_data->Some_0;
            let rg = d.stack_segment->Some_0;
            old(m).spec_scan(
                rg.start - (old(m).cur().children@.len() + 1) * crate::paging::STACK_MAX_SIZE,
                rg.spec_size(),
            ) is None
        }),
{
    let ghost pre = *m;
    let parent_pid = m.current_pid;
    m.save_current(context);
    let ghost saved = *m;
    proof {
        pre.lemma_same_pids(saved);
        assert(saved.zero_running());
        assert(saved.cur().proc_data == pre.cur().proc_data);
    }
    let child = m.fork();
    proof {
        let d = pre.cur().proc_data->Some_0;
        let rg = d.stack_segment->Some_0;
        let first = rg.start - (pre.cur().children@.len() + 1)
            * crate::paging::STACK_MAX_SIZE;
        assert(saved.cur().proc_data == pre.cur().proc_data);
        assert(saved.cur().children@ == pre.cur().children@);
        pre.lemma_scan_eq(saved, first, rg.spec_size());
    }
    match child {
        Some(child_pid) => {
            let ghost forked = *m;
            proof {
                assert(!forked.ready_queue@.contains(child_pid)) by {
                    if forked.ready_queue@.contains(child_pid) {
                        let k = choose|k: int|
                            0 <= k < forked.ready_queue@.len() && forked.ready_queue@[k]
                                == child_pid;
                        assert(saved.has_pid(child_pid));
                        let ix = saved.idx_of(child_pid);
                        assert(saved.procs()[ix].pid.0 < saved.next_pid);
                    }
                }
            }
            m.push_ready(child_pid);
            let ghost pushed = *m;
            proof {
                forked.lemma_same_pids(pushed);
                assert(pushed.ready_queue@.len() > 0);
                assert(pushed.zero_running()) by {
                    assert forall|j: int|
                        0 <= j < pushed.procs().len() implies (
                    #[trigger] pushed.procs()[j].inner).status != ProgramStatus::Running by {
                        if j < saved.procs().len() {
                            if j == saved.idx_of(parent_pid) {
                                assert(pushed.procs()[j].inner.status == saved.cur().status);
                            } else {
                                assert(pushed.procs()[j] == saved.procs()[j]);
                            }
                        } else {
                            assert(pushed.procs()[j].inner.status == ProgramStatus::Ready);
                        }
                    }
                }
            }
            m.switch_next(context);
            proof {
                let post = *m;
                pushed.lemma_same_pids(post);
                let next = pushed.ready_queue@[0];
                // the queue head is an older process than the child
                assert(next != child_pid) by {
                    if 0 < saved.ready_queue@.len() {
                        assert(pushed.ready_queue@[0] == saved.ready_queue@[0]);
                        assert(saved.has_pid(next));
                        let ix = saved.idx_of(next);
                        assert(saved.procs()[ix].pid.0 < saved.next_pid);
                    } else {
                        assert(pushed.ready_queue@[0] == child_pid || pushed.ready_queue@[0]
                            == parent_pid);
                        if pushed.ready_queue@[0] == child_pid {
                            assert(saved.ready_queue@.len() == 0);
                            assert(forked.ready_queue@ == saved.ready_queue@);
                            assert(pushed.ready_queue@ == forked.ready_queue@.push(child_pid));
                            assert(pushed.ready_queue@[0] == child_pid);
                            // parent was enqueued by save_current, so the queue
                            // cannot have been empty
                            assert(saved.ready_queue@ == pre.ready_queue@.push(parent_pid));
                            assert(false);
                        }
                    }
                }
                assert(pushed.idx_of(next) != pushed.idx_of(child_pid)) by {
                    if pushed.idx_of(next) == pushed.idx_of(child_pid) {
                        assert(pushed.procs()[pushed.idx_of(next)].pid == next);
                        assert(pushed.procs()[pushed.idx_of(child_pid)].pid == child_pid);
                    }
                }
                assert(post.inner_of(child_pid) == pushed.inner_of(child_pid));
                assert(post.inner_of(child_pid).context.rax == 0);
                assert(post.inner_of(parent_pid).context.rax == child_pid.0 as u64) by {
                    if pushed.idx_of(next) == pushed.idx_of(parent_pid) {
                        assert(post.inner_of(parent_pid).context == pushed.inner_of(
                            parent_pid,
                        ).context);
                    } else {
                        assert(post.inner_of(parent_pid) == pushed.inner_of(parent_pid));
                    }
                }
                assert(post.inner_of(parent_pid).proc_data == pushed.inner_of(
                    parent_pid,
                ).proc_data);
            }
            child_pid.0
        },
        None => {
            proof {
                assert(m.ready_queue@.len() > 0);
            }
            m.switch_next(context);
            u16::MAX
        },
    }
}

/// The sem-wait syscall path on the current process's semaphore `key`:
/// a unit is taken if available (`rax` 0), a missing key is reported
/// (`rax` 1), and otherwise the caller joins the semaphore's wait
/// queue, blocks, and the scheduler picks the next process.
#[verifier::rlimit(50)]
pub fn sem_wait(m: &mut ProcessManager, key: u32, context: &mut ProcessContext)
    requires
        old(m).inv(),
        old(m).current_running(),
    ensures
        final(m).inv(),
        ({
            let pid = old(m).current_pid;
            let did = old(m).cur().proc_data->Some_0.data_id as int;
            let sems = old(m).shared@[did].semaphores;
            &&& final(m).shared@.len() == old(m).shared@.len()
            &&& forall|sx: int|
                0 <= sx < old(m).shared@.len() && sx != did ==> final(m).shared@[sx] == old(
                    m,
                ).shared@[sx]
            &&& if !sems.has_key(key) {
                &&& *final(context) == (ProcessContext { rax: 1, ..*old(context) })
                &&& final(m).procs() == old(m).procs()
                &&& final(m).ready_queue@ == old(m).ready_queue@
                &&& final(m).current_pid == pid
                &&& final(m).shared@[did].semaphores == sems
                &&& final(m).current_running()
            } else if sems.sem(key).count > 0 {
                &&& *final(context) == (ProcessContext { rax: 0, ..*old(context) })
                &&& final(m).procs() == old(m).procs()
                &&& final(m).ready_queue@ == old(m).ready_queue@
                &&& final(m).current_pid == pid
                &&& final(m).shared@[did].semaphores.sem(key).count == sems.sem(key).count - 1
                &&& final(m).shared@[did].semaphores.sem(key).queue() == sems.sem(key).queue()
                &&& sems.same_except(final(m).shared@[did].semaphores, key)
                &&& final(m).current_running()
            } else {
                &&& final(m).shared@[did].semaphores.sem(key).queue() == sems.sem(
                    key,
                ).queue().push(pid)
                &&& final(m).shared@[did].semaphores.sem(key).count == 0
                &&& sems.same_except(final(m).shared@[did].semaphores, key)
                &&& final(m).has_pid(pid)
                &&& final(m).inner_of(pid).status == ProgramStatus::Blocked
                &&& final(m).inner_of(pid).context == *old(context)
                &&& if old(m).ready_queue@.len() > 0 {
                    &&& final(m).current_pid == old(m).ready_queue@[0]
                    &&& final(m).ready_queue@ == old(m).ready_queue@.drop_first()
                    &&& final(m).current_running()
                    &&& *final(context) == old(m).inner_of(old(m).ready_queue@[0]).context
                } else {
                    &&& final(m).ready_queue@.len() == 0
                    &&& final(m).current_pid == pid
                }
            }
        }),
{
    let ghost pre = *m;
    let pid = m.current_pid;
    let did = m.cur_data_id();
    let sd = &mut m.shared[did];
    let result = sd.semaphores.wait(key, pid);
    let ghost waited = *m;
    proof {
        pre.lemma_same_pids(waited);
        assert(waited.inv());
        assert(waited.current_running()) by {
            assert(waited.cur() == pre.cur());
        }
    }
    match result {
        SemaphoreResult::Done => {
            context.set_rax(0);
        },
        SemaphoreResult::NotExist => {
            context.set_rax(1);
        },
        SemaphoreResult::Block(blocked) => {
            m.save_current(context);
            let ghost saved = *m;
            proof {
                waited.lemma_same_pids(saved);
                assert(!pre.ready_queue@.contains(pid)) by {
                    if pre.ready_queue@.contains(pid) {
                        let k = choose|k: int|
                            0 <= k < pre.ready_queue@.len() && pre.ready_queue@[k] == pid;
                        assert(pre.inner_of(pid).status == ProgramStatus::Ready);
                    }
                }
            }
            m.block(blocked);
            let ghost blockedst = *m;
            proof {
                saved.lemma_same_pids(blockedst);
                assert(blockedst.ready_queue@ == saved.ready_queue@.filter(
                    crate::sync::not_pid(pid),
                ));
                assert(saved.ready_queue@ == pre.ready_queue@.push(pid));
                assert(saved.ready_queue@.drop_last() =~= pre.ready_queue@);
                assert(blockedst.ready_queue@ == pre.ready_queue@.filter(
                    crate::sync::not_pid(pid),
                )) by {
                    reveal(Seq::filter);
                }
                lemma_filter_all(pre.ready_queue@, crate::sync::not_pid(pid));
                assert(blockedst.ready_queue@ == pre.ready_queue@);
                assert(blockedst.zero_running()) by {
                    assert forall|j: int|
                        0 <= j < blockedst.procs().len() implies (
                    #[trigger] blockedst.procs()[j].inner).status != ProgramStatus::Running by {
                        if j == waited.idx_of(pid) {
                        } else {
                            assert(blockedst.procs()[j].inner == waited.procs()[j].inner);
                            if blockedst.procs()[j].inner.status == ProgramStatus::Running {
                                assert(waited.procs()[j].pid == pid);
                                waited.lemma_pid_idx(pid, j);
                            }
                        }
                    }
                }
            }
            m.switch_next(context);
            proof {
                let post = *m;
                blockedst.lemma_same_pids(post);
                if pre.ready_queue@.len() > 0 {
                    let next = pre.ready_queue@[0];
                    assert(next != pid);
                    assert(blockedst.idx_of(next) != blockedst.idx_of(pid)) by {
                        if blockedst.idx_of(next) == blockedst.idx_of(pid) {
                            assert(blockedst.procs()[blockedst.idx_of(next)].pid == next);
                            assert(blockedst.procs()[blockedst.idx_of(pid)].pid == pid);
                        }
                    }
                    assert(post.inner_of(pid) == blockedst.inner_of(pid));
                    assert(blockedst.inner_of(next).context == pre.inner_of(next).context) by {
                        if waited.idx_of(next) == waited.idx_of(pid) {
                            assert(waited.procs()[waited.idx_of(next)].pid == next);
                        }
                    }
                }
            }
        },
        SemaphoreResult::WakeUp(_) => {
            proof {
                assert(false);
            }
        },
    }
}

/// The sem-signal syscall path on the current process's semaphore
/// `key`: the oldest waiter is woken (made ready and enqueued) or a
/// unit is returned; `rax` is 0 on success and 1 for a missing key.
#[verifier::rlimit(50)]
pub fn sem_signal(m: &mut ProcessManager, key: u32, context: &mut ProcessContext)
    requires
        old(m).inv(),
        old(m).current_running(),
    ensures
        final(m).inv(),
        final(m).current_running(),
        final(m).current_pid == old(m).current_pid,
        ({
            let did = old(m).cur().proc_data->Some_0.data_id as int;
            let sems = old(m).shared@[did].semaphores;
            &&& final(m).shared@.len() == old(m).shared@.len()
            &&& forall|sx: int|
                0 <= sx < old(m).shared@.len() && sx != did ==> final(m).shared@[sx] == old(
                    m,
                ).shared@[sx]
            &&& if !sems.has_key(key) {
                &&& *final(context) == (ProcessContext { rax: 1, ..*old(context) })
                &&& final(m).procs() == old(m).procs()
                &&& final(m).ready_queue@ == old(m).ready_queue@
                &&& final(m).shared@[did].semaphores == sems
            } else if sems.sem(key).queue().len() > 0 {
                let woken = sems.sem(key).queue()[0];
                &&& *final(context) == (ProcessContext { rax: 0, ..*old(context) })
                &&& final(m).shared@[did].semaphores.sem(key).queue() == sems.sem(
                    key,
                ).queue().drop_first()
                &&& final(m).shared@[did].semaphores.sem(key).count == sems.sem(key).count
                &&& sems.same_except(final(m).shared@[did].semaphores, key)
                &&& (old(m).has_pid(woken) && old(m).inner_of(woken).status
                    == ProgramStatus::Blocked ==> {
                    &&& final(m).inner_of(woken).status == ProgramStatus::Ready
                    &&& final(m).ready_queue@ == old(m).ready_queue@.push(woken)
                })
            } else {
                &&& *final(context) == (ProcessContext { rax: 0, ..*old(context) })
                &&& final(m).procs() == old(m).procs()
                &&& final(m).ready_queue@ == old(m).ready_queue@
                &&& final(m).shared@[did].semaphores.sem(key).count == (if sems.sem(
                    key,
                ).count < usize::MAX {
                    sems.sem(key).count + 1
                } else {
                    sems.sem(key).count as int
                })
                &&& final(m).shared@[did].semaphores.sem(key).queue() == sems.sem(key).queue()
                &&& sems.same_except(final(m).shared@[did].semaphores, key)
            }
        }),
{
    let ghost pre = *m;
    let pid = m.current_pid;
    let did = m.cur_data_id();
    let sd = &mut m.shared[did];
    let result = sd.semaphores.signal(key);
    let ghost signaled = *m;
    proof {
        pre.lemma_same_pids(signaled);
        assert(signaled.inv());
        assert(signaled.current_running()) by {
            assert(signaled.cur() == pre.cur());
        }
    }
    match result {
        SemaphoreResult::WakeUp(woken) => {
            m.wakeup(woken);
            context.set_rax(0);
            proof {
                let post = *m;
                signaled.lemma_same_pids(post);
                assert(post.current_running()) by {
                    if post.has_pid(woken) && signaled.inner_of(woken).status
                        == ProgramStatus::Blocked {
                        assert forall|j: int|
                            0 <= j < post.procs().len() && (
                        #[trigger] post.procs()[j].inner).status == ProgramStatus::Running
                            implies post.procs()[j].pid == post.current_pid by {
                            if j == signaled.idx_of(woken) {
                            } else {
                                assert(post.procs()[j] == signaled.procs()[j]);
                            }
                        }
                    }
                }
            }
        },
        SemaphoreResult::Done => {
            context.set_rax(0);
        },
        SemaphoreResult::NotExist => {
            context.set_rax(1);
        },
        SemaphoreResult::Block(_) => {
            proof {
                assert(false);
            }
        },
    }
}

/// The exit syscall path: the current process dies with `code` and the
/// scheduler picks the next process. With an empty ready queue the CPU
/// is left with nothing to run.
pub fn exit(m: &mut ProcessManager, code: isize, context: &mut ProcessContext)
    requires
        old(m).inv(),
        old(m).current_running(),
    ensures
        final(m).inv(),
        final(m).has_pid(old(m).current_pid),
        final(m).inner_of(old(m).current_pid).status == ProgramStatus::Dead,
        final(m).inner_of(old(m).current_pid).exit_code == Some(code),
        old(m).ready_queue@.len() > 0 ==> {
            &&& final(m).current_pid == old(m).ready_queue@[0]
            &&& final(m).current_running()
            &&& final(m).ready_queue@ == old(m).ready_queue@.drop_first()
            &&& *final(context) == old(m).inner_of(old(m).ready_queue@[0]).context
        },
{
    let ghost pre = *m;
    let pid = m.current_pid;
    m.kill(pid, code);
    let ghost killed = *m;
    proof {
        pre.lemma_same_pids(killed);
        lemma_filter_all(pre.ready_queue@, crate::sync::not_pid(pid));
        assert(!pre.ready_queue@.contains(pid)) by {
            if pre.ready_queue@.contains(pid) {
                let k = choose|k: int|
                    0 <= k < pre.ready_queue@.len() && pre.ready_queue@[k] == pid;
                assert(pre.inner_of(pid).status == ProgramStatus::Ready);
            }
        }
        assert(killed.ready_queue@ == pre.ready_queue@);
        assert(killed.zero_running()) by {
            assert forall|j: int|
                0 <= j < killed.procs().len() implies (
            #[trigger] killed.procs()[j].inner).status != ProgramStatus::Running by {
                if j == pre.idx_of(pid) {
                } else {
                    if killed.procs()[j].inner.status == ProgramStatus::Running {
                        assert(killed.procs()[j].inner == pre.procs()[j].inner);
                        assert(pre.procs()[j].pid == pid);
                        pre.lemma_pid_idx(pid, j);
                    }
                }
            }
        }
    }
    m.switch_next(context);
    proof {
        let post = *m;
        killed.lemma_same_pids(post);
        if pre.ready_queue@.len() > 0 {
            let next = pre.ready_queue@[0];
            assert(next != pid);
            assert(killed.idx_of(next) != killed.idx_of(pid)) by {
                if killed.idx_of(next) == killed.idx_of(pid) {
                    assert(killed.procs()[killed.idx_of(next)].pid == next);
                    assert(killed.procs()[killed.idx_of(pid)].pid == pid);
                }
            }
            assert(post.inner_of(pid) == killed.inner_of(pid));
            assert(killed.inner_of(next).context == pre.inner_of(next).context) by {
                if pre.idx_of(next) == pre.idx_of(pid) {
                    assert(pre.procs()[pre.idx_of(next)].pid == next);
                }
            }
        } else {
            assert(post.inner_of(pid) == killed.inner_of(pid));
        }
    }
}


/// The status column of the process table.
pub open spec fn spec_status_label(s: ProgramStatus) -> Seq<char> {
    match s {
        ProgramStatus::Running => "Running"@,
        ProgramStatus::Ready => "Ready"@,
        ProgramStatus::Blocked => "Blocked"@,
        ProgramStatus::Dead => "Dead"@,
    }
}

/// One rendered row of the process table.
pub open spec fn spec_process_row(p: Process) -> Seq<char> {
    "  #"@ + crate::text::spec_dec_u64(p.pid.0 as nat) + " | #"@ + crate::text::spec_dec_u64(
        (match p.inner.parent {
            Some(pp) => pp.0,
            None => 0,
        }) as nat,
    ) + " | "@ + p.inner.name@ + " | "@ + crate::text::spec_dec_u64(
        p.inner.ticks_passed as nat,
    ) + " | "@ + spec_status_label(p.inner.status) + "
"@
}

/// The rows of the table: one per process that is not dead, in table
/// order.
pub open spec fn spec_process_rows(s: Seq<Process>) -> Seq<char>
    decreases s.len(),
{
    if s.len() == 0 {
        Seq::empty()
    } else if s.last().inner.status == ProgramStatus::Dead {
        spec_process_rows(s.drop_last())
    } else {
        spec_process_rows(s.drop_last()) + spec_process_row(s.last())
    }
}

/// The rendered ready queue, oldest entry first.
pub open spec fn spec_queue_listing(q: Seq<ProcessId>) -> Seq<char>
    decreases q.len(),
{
    if q.len() == 0 {
        Seq::empty()
    } else {
        spec_queue_listing(q.drop_last()) + (" "@ + crate::text::spec_dec_u64(
            q.last().0 as nat,
        ))
    }
}

/// The whole rendered table: the header, one row per non-dead
/// process, and the ready queue.
pub open spec fn spec_process_table(s: Seq<Process>, q: Seq<ProcessId>) -> Seq<char> {
    "  PID | PPID | Process Name |  Ticks  | Status
"@ + spec_process_rows(s) + "Queue  :"@
        + spec_queue_listing(q) + "
"@
}

/// The first application whose name is `name`.
pub open spec fn spec_find_app(apps: Seq<AppEntry>, name: Seq<char>) -> Option<int>
    decreases apps.len(),
{
    if apps.len() == 0 {
        None
    } else if apps[0].name@ == name {
        Some(0int)
    } else {
        match spec_find_app(apps.drop_first(), name) {
            Some(i) => Some(i + 1),
            None => None,
        }
    }
}

/// Renders the process table (see
/// [`ProcessManager::print_process_list`]).
pub fn list_process(m: &ProcessManager) -> (r: String)
    requires
        m.inv(),
    ensures
        r@ == spec_process_table(m.procs(), m.ready_queue@),
{
    m.print_process_list()
}

/// The names of the loaded applications.
pub fn list_app(m: &ProcessManager) -> (r: Vec<String>)
    ensures
        r@.len() == m.app_list@.len(),
        forall|i: int| 0 <= i < r@.len() ==> r@[i]@ == (#[trigger] m.app_list@[i]).name@,
{
    let mut out: Vec<String> = Vec::new();
    let n = m.app_list.len();
    for i in 0..n
        invariant
            n == m.app_list@.len(),
            out@.len() == i,
            forall|j: int| 0 <= j < i ==> out@[j]@ == (#[trigger] m.app_list@[j]).name@,
    {
        out.push(m.app_list[i].name.clone());
    }
    out
}

/// Spawns the named application as a child of the current process:
/// the app table is scanned for the name, the image is checked and
/// parsed, and on success the new process is created and enqueued.
/// `None` exactly when the name is unknown, the bytes cannot be
/// handed to the parser, the parse fails, or the image's loadable
/// segments are unusable.
pub fn spawn(m: &mut ProcessManager, name: &String) -> (r: Option<ProcessId>)
    requires
        old(m).inv(),
        old(m).next_pid <= MAX_STACK_SLOTS,
        old(m).procs()[0].inner.page_table is Some,
    ensures
        final(m).inv(),
        old(m).current_running() ==> final(m).current_running(),
        spec_find_app(old(m).app_list@, name@) is None ==> r is None && *final(m) == *old(m),
        ({
            let found = spec_find_app(old(m).app_list@, name@);
            found matches Some(i) ==> {
                let b = old(m).app_list@[i].elf@;
                let parsed = crate::elf::elf_parse(b);
                &&& (!crate::elf::spec_elf_bytes_ok(b) ==> r is None && *final(m) == *old(m))
                &&& (crate::elf::spec_elf_bytes_ok(b) && parsed is None ==> r is None
                    && *final(m) == *old(m))
                &&& (crate::elf::spec_elf_bytes_ok(b) && (parsed matches Some(p)
                    && !crate::elf::spec_image_ok(p.1)) ==> r is None && *final(m) == *old(m))
                &&& (crate::elf::spec_elf_bytes_ok(b) && (parsed matches Some(p)
                    && crate::elf::spec_image_ok(p.1)) ==> r is Some)
            }
        }),
        r matches Some(pid) ==> {
            let i = spec_find_app(old(m).app_list@, name@)->Some_0;
            let parsed = crate::elf::elf_parse(old(m).app_list@[i].elf@);
            &&& spec_find_app(old(m).app_list@, name@) is Some
            &&& parsed is Some
            &&& pid.0 == old(m).next_pid
            &&& final(m).has_pid(pid)
            &&& final(m).inner_of(pid).status == ProgramStatus::Ready
            &&& final(m).inner_of(pid).name@ == crate::text::spec_ascii_lower(name@)
            &&& final(m).inner_of(pid).parent == Some(old(m).current_pid)
            &&& final(m).inner_of(pid).context.stack_frame.rip == parsed->Some_0.0
            &&& final(m).ready_queue@ == old(m).ready_queue@.push(pid)
        },
{
    let idx = find_app(&m.app_list, name);
    match idx {
        None => None,
        Some(i) => {
            if !crate::elf::elf_bytes_ok(m.app_list[i].elf.as_slice()) {
                return None;
            }
            let parsed = crate::elf::parse_elf(m.app_list[i].elf.as_slice());
            match parsed {
                None => None,
                Some(image) => elf_spawn(m, m.app_list[i].name.clone(), &image),
            }
        },
    }
}

/// Spawns a process from an already parsed image under the given
/// name, as a child of the current process. `None` when the image's
/// loadable segments are unusable.
pub fn elf_spawn(m: &mut ProcessManager, name: String, image: &crate::elf::ElfImage) -> (r:
    Option<ProcessId>)
    requires
        old(m).inv(),
        old(m).next_pid <= MAX_STACK_SLOTS,
        old(m).procs()[0].inner.page_table is Some,
    ensures
        final(m).inv(),
        old(m).current_running() ==> final(m).current_running(),
        r is Some <==> crate::elf::spec_image_ok(image.segments@),
        !crate::elf::spec_image_ok(image.segments@) ==> r is None && *final(m) == *old(m),
        r matches Some(pid) ==> {
            &&& crate::elf::spec_image_ok(image.segments@)
            &&& pid.0 == old(m).next_pid
            &&& final(m).has_pid(pid)
            &&& final(m).inner_of(pid).status == ProgramStatus::Ready
            &&& final(m).inner_of(pid).name@ == crate::text::spec_ascii_lower(name@)
            &&& final(m).inner_of(pid).parent == Some(old(m).current_pid)
            &&& final(m).inner_of(pid).context.stack_frame.rip == image.entry
            &&& final(m).ready_queue@ == old(m).ready_queue@.push(pid)
        },
{
    if !crate::elf::image_ok(image) {
        return None;
    }
    let parent = m.get_pid();
    Some(m.spawn(image, name, Some(parent), None))
}

/// Finds the first application with the given name.
fn find_app(apps: &Vec<AppEntry>, name: &String) -> (r: Option<usize>)
    ensures
        match r {
            Some(i) => {
                &&& spec_find_app(apps@, name@) == Some(i as int)
                &&& i < apps@.len()
                &&& apps@[i as int].name@ == name@
            },
            None => spec_find_app(apps@, name@) is None,
        },
{
    let n = apps.len();
    proof {
        assert(apps@.skip(0) =~= apps@);
    }
    for i in 0..n
        invariant
            n == apps@.len(),
            forall|j: int| 0 <= j < i ==> (#[trigger] apps@[j]).name@ != name@,
            spec_find_app_offset(apps@, name@, i as int),
    {
        proof {
            assert(apps@.skip(i as int)[0] == apps@[i as int]);
            assert(apps@.skip(i as int).drop_first() =~= apps@.skip(i + 1));
        }
        if apps[i].name == *name {
            proof {
                lemma_find_app_skip(apps@, name@, i as int);
            }
            return Some(i);
        }
    }
    proof {
        assert(apps@.skip(n as int).len() == 0);
        lemma_find_app_skip_none(apps@, name@, n as int);
    }
    None
}

/// The scan through the first `i` entries found nothing.
pub open spec fn spec_find_app_offset(apps: Seq<AppEntry>, name: Seq<char>, i: int) -> bool {
    forall|j: int| 0 <= j < i ==> (#[trigger] apps[j]).name@ != name
}

/// When the first `i` names differ, a match at `i` is the first match.
proof fn lemma_find_app_skip(apps: Seq<AppEntry>, name: Seq<char>, i: int)
    requires
        0 <= i < apps.len(),
        forall|j: int| 0 <= j < i ==> (#[trigger] apps[j]).name@ != name,
        apps[i].name@ == name,
    ensures
        spec_find_app(apps, name) == Some(i),
    decreases i,
{
    if i == 0 {
    } else {
        assert(apps[0].name@ != name);
        let d = apps.drop_first();
        assert(forall|j: int| 0 <= j < i - 1 ==> (#[trigger] d[j]).name@ != name) by {
            assert(forall|j: int| 0 <= j < i - 1 ==> d[j] == apps[j + 1]);
        }
        assert(d[i - 1] == apps[i]);
        lemma_find_app_skip(d, name, i - 1);
    }
}

/// When no name matches, the scan finds nothing.
proof fn lemma_find_app_skip_none(apps: Seq<AppEntry>, name: Seq<char>, i: int)
    requires
        i == apps.len(),
        forall|j: int| 0 <= j < i ==> (#[trigger] apps[j]).name@ != name,
    ensures
        spec_find_app(apps, name) is None,
    decreases apps.len(),
{
    if apps.len() > 0 {
        assert(apps[0].name@ != name);
        let d = apps.drop_first();
        assert(forall|j: int| 0 <= j < d.len() ==> (#[trigger] d[j]).name@ != name) by {
            assert(forall|j: int| 0 <= j < d.len() ==> d[j] == apps[j + 1]);
        }
        lemma_find_app_skip_none(d, name, d.len() as int);
    }
}

/// The status column of the process table.
fn status_label(status: ProgramStatus) -> (r: String)
    ensures
        r@ == spec_status_label(status),
    {
    let s = match status {
        ProgramStatus::Running => "Running",
        ProgramStatus::Ready => "Ready",
        ProgramStatus::Blocked => "Blocked",
        ProgramStatus::Dead => "Dead",
    };
    proof {
        reveal_strlit("Running");
        reveal_strlit("Ready");
        reveal_strlit("Blocked");
        reveal_strlit("Dead");
    }
    s.to_owned()
}

/// The name of the kernel process.
fn kernel_name() -> String {
    "kernel".to_owned()
}

} // verus!
