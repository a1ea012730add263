//! A process record: identity, status, saved context, address-space
//! handle and per-process data, with the status transitions driven by
//! the scheduler.

use vstd::prelude::*;

use crate::context::ProcessContext;
use crate::data::ProcessData;
use crate::paging::{PageRange, PageTableContext, PAGE_SIZE};
use crate::pid::ProcessId;

verus! {

/// The scheduling state of a process.
#[derive(Clone, Copy, Debug, PartialEq, Eq, Structural)]
pub enum ProgramStatus {
    /// The one process the CPU is executing.
    Running,
    /// Eligible to run; sits in the ready queue.
    Ready,
    /// Waiting in a semaphore queue; not eligible to run.
    Blocked,
    /// Terminated; only the exit code remains of interest.
    Dead,
}

/// The mutable state of a process.
pub struct ProcessInner {
    /// Program name.
    pub name: String,
    /// Back-reference to the parent, if any.
    pub parent: Option<ProcessId>,
    /// Identifiers of the children created by fork.
    pub children: Vec<ProcessId>,
    /// Timer interrupts taken while this process was current.
    pub ticks_passed: u64,
    /// Scheduling state.
    pub status: ProgramStatus,
    /// Exit code; present exactly when the process is dead.
    pub exit_code: Option<isize>,
    /// Saved register context.
    pub context: ProcessContext,
    /// Address-space handle; released on death.
    pub page_table: Option<PageTableContext>,
    /// Per-process data; released on death.
    pub proc_data: Option<ProcessData>,
}

/// A process: an identifier and its mutable state.
pub struct Process {
    /// The process identifier, fixed at creation.
    pub pid: ProcessId,
    /// The mutable state.
    pub inner: ProcessInner,
}

impl ProcessInner {
    /// The record invariant: a dead process has released its address
    /// space and data and recorded its exit code; a live one holds both
    /// and no exit code yet.
    pub open spec fn wf(self) -> bool {
        &&& self.status == ProgramStatus::Dead ==> {
            &&& self.proc_data is None
            &&& self.page_table is None
            &&& self.exit_code is Some
        }
        &&& self.status != ProgramStatus::Dead ==> {
            &&& self.proc_data is Some
            &&& self.page_table is Some
            &&& self.exit_code is None
        }
        &&& match self.proc_data {
            Some(d) => d.wf(),
            None => true,
        }
    }

    /// A fresh record in `Ready` state; the name is stored in ASCII
    /// lower case.
    pub fn new(
        name: String,
        parent: Option<ProcessId>,
        page_table: PageTableContext,
        proc_data: ProcessData,
    ) -> (r: ProcessInner)
        requires
            proc_data.wf(),
        ensures
            r.wf(),
            r == (ProcessInner {
                name: r.name,
                parent,
                children: r.children,
                ticks_passed: 0,
                status: ProgramStatus::Ready,
                exit_code: None,
                context: ProcessContext::spec_default(),
                page_table: Some(page_table),
                proc_data: Some(proc_data),
            }),
            r.name@ == crate::text::spec_ascii_lower(name@),
            r.children@ =~= Seq::<ProcessId>::empty(),
    {
        let name = name.as_str().to_ascii_lowercase();
        ProcessInner {
            name,
            parent,
            children: Vec::new(),
            ticks_passed: 0,
            status: ProgramStatus::Ready,
            exit_code: None,
            context: ProcessContext::new(),
            page_table: Some(page_table),
            proc_data: Some(proc_data),
        }
    }

    /// The program name.
    pub fn name(&self) -> (r: &String)
        ensures
            r == &self.name,
    {
        &self.name
    }

    /// The scheduling state.
    pub fn status(&self) -> (r: ProgramStatus)
        ensures
            r == self.status,
    {
        self.status
    }

    /// The exit code, present exactly for dead processes.
    pub fn exit_code(&self) -> (r: Option<isize>)
        ensures
            r == self.exit_code,
    {
        self.exit_code
    }

    /// The parent's identifier, if a parent was recorded.
    pub fn parent(&self) -> (r: Option<ProcessId>)
        ensures
            r == self.parent,
    {
        self.parent
    }

    /// Whether the process may be picked by the scheduler.
    pub fn is_ready(&self) -> (r: bool)
        ensures
            r == (self.status == ProgramStatus::Ready),
    {
        self.status == ProgramStatus::Ready
    }

    /// Counts one timer interrupt (saturating at the machine maximum).
    pub fn tick(&mut self)
        ensures
            *final(self) == (ProcessInner {
                ticks_passed: if old(self).ticks_passed < u64::MAX {
                    (old(self).ticks_passed + 1) as u64
                } else {
                    old(self).ticks_passed
                },
                ..*old(self)
            }),
    {
        if self.ticks_passed < u64::MAX {
            self.ticks_passed = self.ticks_passed + 1;
        }
    }

    /// Marks the process ready.
    pub fn pause(&mut self)
        ensures
            *final(self) == (ProcessInner { status: ProgramStatus::Ready, ..*old(self) }),
    {
        self.status = ProgramStatus::Ready;
    }

    /// Marks the process running.
    pub fn resume(&mut self)
        ensures
            *final(self) == (ProcessInner { status: ProgramStatus::Running, ..*old(self) }),
    {
        self.status = ProgramStatus::Running;
    }

    /// Marks the process blocked.
    pub fn block(&mut self)
        ensures
            *final(self) == (ProcessInner { status: ProgramStatus::Blocked, ..*old(self) }),
    {
        self.status = ProgramStatus::Blocked;
    }

    /// Saves the hardware context and, if the process was running, marks
    /// it ready.
    pub fn save(&mut self, context: &ProcessContext)
        ensures
            *final(self) == (ProcessInner {
                context: *context,
                status: if old(self).status == ProgramStatus::Running {
                    ProgramStatus::Ready
                } else {
                    old(self).status
                },
                ..*old(self)
            }),
    {
        self.context.save(context);
        if self.status == ProgramStatus::Running {
            self.status = ProgramStatus::Ready;
        }
    }

    /// Restores the saved context into the hardware context and marks
    /// the process running. (On hardware this also reloads the page
    /// table root into the MMU.)
    pub fn restore(&mut self, context: &mut ProcessContext)
        ensures
            *final(self) == (ProcessInner { status: ProgramStatus::Running, ..*old(self) }),
            *final(context) == old(self).context,
    {
        self.context.restore(context);
        self.status = ProgramStatus::Running;
    }

    /// A second handle on this process's address space.
    pub fn clone_page_table(&self) -> (r: PageTableContext)
        requires
            self.page_table is Some,
        ensures
            Some(r) == self.page_table,
    {
        match &self.page_table {
            Some(pt) => pt.clone_l4(),
            None => PageTableContext::new(0),  // unreachable under the precondition
        }
    }

    /// Terminates the process: records the exit code, releases the
    /// address space and the per-process data.
    pub fn kill(&mut self, ret: isize)
        ensures
            *final(self) == (ProcessInner {
                status: ProgramStatus::Dead,
                exit_code: Some(ret),
                proc_data: None,
                page_table: None,
                ..*old(self)
            }),
            final(self).wf(),
    {
        self.exit_code = Some(ret);
        self.status = ProgramStatus::Dead;
        self.proc_data = None;
        self.page_table = None;
    }

    /// Initializes a ring-0 entry frame in the saved context.
    pub fn init_stack_frame(&mut self, entry: u64, stack_top: u64)
        ensures
            *final(self) == (ProcessInner {
                context: final(self).context,
                ..*old(self)
            }),
            final(self).context.stack_frame.rip == entry,
            final(self).context.stack_frame.rsp == stack_top,
            final(self).context.stack_frame.cs == crate::context::KERNEL_CODE_SELECTOR,
            final(self).context.stack_frame.ss == crate::context::KERNEL_DATA_SELECTOR,
            final(self).context.stack_frame.rflags == crate::context::RFLAGS_IF,
            final(self).context.rax == old(self).context.rax,
    {
        self.context.init_stack_frame(entry, stack_top);
    }

    /// Initializes a ring-3 entry frame in the saved context.
    pub fn init_user_stack_frame(&mut self, entry: u64, stack_top: u64)
        ensures
            *final(self) == (ProcessInner {
                context: final(self).context,
                ..*old(self)
            }),
            final(self).context.stack_frame.rip == entry,
            final(self).context.stack_frame.rsp == stack_top,
            final(self).context.stack_frame.cs == crate::context::USER_CODE_SELECTOR,
            final(self).context.stack_frame.ss == crate::context::USER_DATA_SELECTOR,
            final(self).context.stack_frame.rflags == crate::context::RFLAGS_IF,
            final(self).context.rax == old(self).context.rax,
    {
        self.context.init_user_stack_frame(entry, stack_top);
    }

    /// Grows the stack down to the page containing `addr`: every page
    /// from there up to the old stack bottom becomes mapped and zeroed.
    /// If `addr` already lies at or above the stack bottom nothing
    /// changes.
    pub fn alloc_new_stack_page(&mut self, addr: u64)
        requires
            old(self).wf(),
            old(self).proc_data matches Some(d) && d.stack_segment is Some,
            ({
                let range = old(self).proc_data->Some_0.stack_segment->Some_0;
                crate::paging::spec_page_of(addr) < range.start ==> range.end
                    - crate::paging::spec_page_of(addr) <= usize::MAX
            }),
        ensures
            final(self).wf(),
            *final(self) == (ProcessInner { proc_data: final(self).proc_data, ..*old(self) }),
            final(self).proc_data matches Some(d2) && {
                let d = old(self).proc_data->Some_0;
                let old_range = d.stack_segment->Some_0;
                let new_start = if crate::paging::spec_page_of(addr) < old_range.start {
                    crate::paging::spec_page_of(addr)
                } else {
                    old_range.start
                };
                &&& d2.data_id == d.data_id
                &&& d2.code_segments == d.code_segments
                &&& d2.stack_segment == Some(PageRange { start: new_start, end: old_range.end })
                &&& d2.stack_mem@ =~= Seq::new(
                    (old_range.start - new_start) as nat,
                    |i: int| 0u8,
                ) + d.stack_mem@
            },
    {
        let new_start_page = crate::paging::page_containing_address(addr);
        let proc_data = self.proc_data.as_mut().unwrap();
        let old_range = proc_data.stack_segment.unwrap();
        if new_start_page < old_range.start {
            let grow_bytes = old_range.start - new_start_page;
            let mut new_mem: Vec<u8> = vec![0u8; grow_bytes as usize];
            new_mem.append(&mut proc_data.stack_mem);
            proc_data.stack_mem = new_mem;
            proc_data.stack_segment = Some(
                PageRange { start: new_start_page, end: old_range.end },
            );
            proof {
                assert((old_range.start - new_start_page) % (PAGE_SIZE as int) == 0) by {
                    assert(new_start_page % PAGE_SIZE == 0);
                    assert(old_range.start % PAGE_SIZE == 0);
                }
            }
        } else {
            proof {
                let d = old(self).proc_data->Some_0;
                assert(self.proc_data->Some_0.stack_mem@ =~= Seq::new(0nat, |i: int| 0u8)
                    + d.stack_mem@);
            }
        }
    }

    /// Loads an image for process `pid`: records the mapping plan's
    /// page ranges as the code segments and sets up the initial
    /// one-page stack at the top of the process's stack slot, all bytes
    /// zero. Returns the stack bottom.
    pub fn load_elf(&mut self, image: &crate::elf::ElfImage, pid: u64) -> (r: u64)
        requires
            old(self).wf(),
            old(self).proc_data is Some,
            crate::elf::spec_image_ok(image.segments@),
            1 <= pid <= crate::manager::MAX_STACK_SLOTS as u64,
        ensures
            final(self).wf(),
            *final(self) == (ProcessInner { proc_data: final(self).proc_data, ..*old(self) }),
            r == crate::paging::STACK_INIT_BOT - (pid - 1) * crate::paging::STACK_MAX_SIZE,
            final(self).proc_data matches Some(d2) && {
                let d = old(self).proc_data->Some_0;
                let plan = crate::elf::spec_load_plan(image.segments@, true);
                &&& d2.data_id == d.data_id
                &&& d2.stack_segment == Some(
                    PageRange { start: r, end: (r + crate::paging::STACK_DEF_SIZE) as u64 },
                )
                &&& d2.stack_mem@ =~= Seq::new(crate::paging::STACK_DEF_SIZE as nat, |x: int| 0u8)
                &&& d2.code_segments matches Some(v) && v@.len() == plan.len() && (forall|i: int|
                    0 <= i < v@.len() ==> v@[i] == (#[trigger] plan[i]).pages)
            },
    {
        let plan = crate::elf::load_plan(image, true);
        let ranges = crate::elf::plan_ranges(&plan);
        proof {
            assert((pid - 1) * crate::paging::STACK_MAX_SIZE
                <= (crate::manager::MAX_STACK_SLOTS - 1) * crate::paging::STACK_MAX_SIZE
                && (pid - 1) * crate::paging::STACK_MAX_SIZE % (crate::paging::PAGE_SIZE as int)
                == 0) by (nonlinear_arith)
                requires
                    1 <= pid <= crate::manager::MAX_STACK_SLOTS as u64,
                    crate::paging::STACK_MAX_SIZE == 0x100000000,
                    crate::paging::PAGE_SIZE == 4096,
                    crate::manager::MAX_STACK_SLOTS == 16384,
            ;
            assert(crate::paging::STACK_INIT_BOT % crate::paging::PAGE_SIZE == 0);
        }
        let stack_bot = crate::paging::STACK_INIT_BOT - (pid - 1) * crate::paging::STACK_MAX_SIZE;
        let d = self.proc_data.as_mut().unwrap();
        let ghost ranges_view = ranges@;
        let ghost plan_view = plan@;
        d.code_segments = Some(ranges);
        proof {
            assert forall|i: int| 0 <= i < ranges_view.len() implies (
            #[trigger] ranges_view[i]).wf() by {
                assert(ranges_view[i] == plan_view[i].pages);
                assert(plan_view[i].pages.wf());
            }
            assert(d.wf());
        }
        d.set_stack(stack_bot, crate::paging::STACK_DEF_PAGE);
        stack_bot
    }

    /// Builds the forked child's state: everything the parent has, with
    /// a stack of the same size and the same bytes at `new_stack_base`,
    /// the stack pointer shifted by the distance between the stacks,
    /// `rax` cleared (the child's fork return value), a fresh forked
    /// page table, a shared data handle, and `Ready` status.
    pub fn fork(&self, parent: ProcessId, new_stack_base: u64, new_root: u64) -> (r:
        ProcessInner)
        requires
            self.wf(),
            self.proc_data matches Some(d) && d.stack_segment is Some,
            new_stack_base % PAGE_SIZE == 0,
            new_stack_base <= self.proc_data->Some_0.stack_segment->Some_0.start,
        ensures
            r.wf(),
            r.name == self.name,
            r.parent == Some(parent),
            r.children@.len() == 0,
            r.ticks_passed == 0,
            r.status == ProgramStatus::Ready,
            r.exit_code is None,
            r.page_table == Some(PageTableContext { root: new_root }),
            ({
                let d = self.proc_data->Some_0;
                let old_range = d.stack_segment->Some_0;
                let delta = (old_range.start - new_stack_base) as u64;
                &&& r.context == (crate::context::ProcessContext {
                    rax: 0,
                    stack_frame: crate::context::InterruptFrame {
                        rsp: crate::paging::spec_wrap_sub64(
                            self.context.stack_frame.rsp,
                            delta,
                        ),
                        ..self.context.stack_frame
                    },
                })
                &&& r.proc_data matches Some(d2) && {
                    &&& d2.data_id == d.data_id
                    &&& (d2.code_segments is Some) == (d.code_segments is Some)
                    &&& (d.code_segments is Some ==> d2.code_segments->Some_0@
                        == d.code_segments->Some_0@)
                    &&& d2.stack_segment == Some(
                        PageRange {
                            start: new_stack_base,
                            end: (new_stack_base + old_range.spec_size()) as u64,
                        },
                    )
                    &&& d2.stack_mem@ == d.stack_mem@
                }
            }),
    {
        let parent_table = self.page_table.unwrap();
        let d = self.proc_data.as_ref().unwrap();
        let old_range = d.stack_segment.unwrap();
        let size = old_range.size();
        let delta = old_range.start - new_stack_base;
        let mut child_context = self.context;
        let new_rsp = crate::paging::wrap_sub64(self.context.stack_frame.rsp, delta);
        child_context.stack_frame.rsp = new_rsp;
        child_context.set_rax(0);
        let child_stack: Vec<u8> = d.stack_mem.clone();
        proof {
            assert(child_stack@ =~= d.stack_mem@) by {
                assert forall|i: int| 0 <= i < d.stack_mem@.len() implies child_stack@[i]
                    == d.stack_mem@[i] by {
                    assert(cloned::<u8>(d.stack_mem@[i], child_stack@[i]));
                }
            }
        }
        let child_data = ProcessData {
            data_id: d.data_id,
            stack_segment: Some(PageRange { start: new_stack_base, end: new_stack_base + size }),
            code_segments: d.code_segments.clone(),
            stack_mem: child_stack,
        };
        proof {
            if d.code_segments is Some {
                let v = d.code_segments->Some_0;
                assert(child_data.code_segments is Some);
                let v2 = child_data.code_segments->Some_0;
                assert(cloned::<Vec<PageRange>>(v, v2));
                assert(v2@ =~= v@) by {
                    assert forall|i: int| 0 <= i < v@.len() implies v2@[i] == v@[i] by {
                        assert(cloned::<PageRange>(v@[i], v2@[i]));
                    }
                }
            }
            assert((new_stack_base + size) % (PAGE_SIZE as int) == 0) by {
                assert(old_range.start % PAGE_SIZE == 0);
                assert(old_range.end % PAGE_SIZE == 0);
            }
        }
        ProcessInner {
            name: self.name.clone(),
            parent: Some(parent),
            children: Vec::new(),
            ticks_passed: 0,
            status: ProgramStatus::Ready,
            exit_code: None,
            context: child_context,
            page_table: Some(parent_table.fork(new_root)),
            proc_data: Some(child_data),
        }
    }
}

impl Process {
    /// The process identifier.
    pub fn pid(&self) -> (r: ProcessId)
        ensures
            r == self.pid,
    {
        self.pid
    }

    /// Terminates the process (see [`ProcessInner::kill`]).
    pub fn kill(&mut self, ret: isize)
        ensures
            final(self).pid == old(self).pid,
            final(self).inner == (ProcessInner {
                status: ProgramStatus::Dead,
                exit_code: Some(ret),
                proc_data: None,
                page_table: None,
                ..old(self).inner
            }),
            final(self).inner.wf(),
    {
        self.inner.kill(ret);
    }
}

} // verus!
