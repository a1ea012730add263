//! The syscall dispatcher: decodes the syscall number and routes a
//! decoded request to the process subsystem. Reading the raw argument
//! registers and user memory happens at the trap's edge; the dispatcher
//! works on the decoded request.

use vstd::prelude::*;

use crate::clock::ClockTime;
use crate::context::ProcessContext;
use crate::manager::{ProcessManager, MAX_STACK_SLOTS};
use crate::pid::ProcessId;
use crate::process::ProgramStatus;

verus! {

/// The syscall numbers the trap vector decodes from `rax`.
#[derive(Clone, Copy, Debug, PartialEq, Eq, Structural)]
pub enum Syscall {
    /// Read from a file descriptor.
    Read,
    /// Write to a file descriptor.
    Write,
    /// The caller's process identifier.
    GetPid,
    /// Spawn an application by name.
    Spawn,
    /// Terminate the caller.
    Exit,
    /// Reap a child's exit code.
    WaitPid,
    /// Render the process table.
    Stat,
    /// List the loaded applications.
    ListApp,
    /// Nanoseconds since the epoch.
    Time,
    /// Duplicate the caller.
    Fork,
    /// Semaphore operations.
    Sem,
    /// Allocate user-heap memory.
    Allocate,
    /// Release user-heap memory.
    Deallocate,
    /// Anything else.
    Unknown,
}

/// The syscall named by a raw number.
pub open spec fn spec_syscall_from(n: usize) -> Syscall {
    if n == 0 {
        Syscall::Read
    } else if n == 1 {
        Syscall::Write
    } else if n == 2 {
        Syscall::GetPid
    } else if n == 3 {
        Syscall::Spawn
    } else if n == 4 {
        Syscall::Exit
    } else if n == 5 {
        Syscall::WaitPid
    } else if n == 6 {
        Syscall::Stat
    } else if n == 7 {
        Syscall::ListApp
    } else if n == 8 {
        Syscall::Time
    } else if n == 9 {
        Syscall::Fork
    } else if n == 10 {
        Syscall::Sem
    } else if n == 11 {
        Syscall::Allocate
    } else if n == 12 {
        Syscall::Deallocate
    } else {
        Syscall::Unknown
    }
}

/// Decodes a raw syscall number.
pub fn syscall_from(n: usize) -> (r: Syscall)
    ensures
        r == spec_syscall_from(n),
{
    if n == 0 {
        Syscall::Read
    } else if n == 1 {
        Syscall::Write
    } else if n == 2 {
        Syscall::GetPid
    } else if n == 3 {
        Syscall::Spawn
    } else if n == 4 {
        Syscall::Exit
    } else if n == 5 {
        Syscall::WaitPid
    } else if n == 6 {
        Syscall::Stat
    } else if n == 7 {
        Syscall::ListApp
    } else if n == 8 {
        Syscall::Time
    } else if n == 9 {
        Syscall::Fork
    } else if n == 10 {
        Syscall::Sem
    } else if n == 11 {
        Syscall::Allocate
    } else if n == 12 {
        Syscall::Deallocate
    } else {
        Syscall::Unknown
    }
}

/// The raw argument registers of a trap, as the vector hands them over.
#[derive(Clone, Copy, Debug, PartialEq, Eq, Structural)]
pub struct SyscallArgs {
    /// The decoded syscall number from `rax`.
    pub syscall: Syscall,
    /// First argument, from `rdi`.
    pub arg0: usize,
    /// Second argument, from `rsi`.
    pub arg1: usize,
    /// Third argument, from `rdx`.
    pub arg2: usize,
}

impl SyscallArgs {
    /// Packs the decoded number and the three argument registers.
    pub fn new(syscall: Syscall, arg0: usize, arg1: usize, arg2: usize) -> (r: SyscallArgs)
        ensures
            r == (SyscallArgs { syscall, arg0, arg1, arg2 }),
    {
        SyscallArgs { syscall, arg0, arg1, arg2 }
    }
}

/// A syscall with its memory operands already fetched from user space
/// (dereferencing user pointers is the trap edge's job).
pub enum SyscallRequest {
    /// Read up to `len` bytes from `fd`.
    Read { fd: u8, len: usize },
    /// Write `data` to `fd`.
    Write { fd: u8, data: Vec<u8> },
    /// The caller's identifier.
    GetPid,
    /// Spawn the named application.
    Spawn { name: String },
    /// Terminate the caller with `code`.
    Exit { code: isize },
    /// Reap the exit code of `pid`.
    WaitPid { pid: u16 },
    /// Render the process table.
    Stat,
    /// List the loaded applications.
    ListApp,
    /// The clock reading handed in by the time driver.
    Time { now: Option<ClockTime> },
    /// Duplicate the caller.
    Fork,
    /// A semaphore operation: 0 create, 1 remove, 2 signal, 3 wait.
    Sem { op: usize, key: u32, value: usize },
    /// Anything else, including the user-heap calls the model leaves to
    /// the allocator.
    Unknown,
}

/// Advisory value placed in `rax` while a wait-pid target still runs.
/// Whether the target exited is carried by the returned marker (bytes
/// present exactly when it did), so an exit code of −1 — whose bit
/// pattern equals this value — is still distinguishable.
pub const WAIT_PID_PENDING: u64 = 0xffff_ffff_ffff_ffff;

/// Dispatches one decoded syscall against the process subsystem,
/// placing the return value in the saved `rax` of `context` and
/// handing read or rendered bytes (or the wait-pid marker) back to
/// the trap edge.
#[verifier::rlimit(100)]
pub fn dispatcher(
    req: SyscallRequest,
    m: &mut ProcessManager,
    context: &mut ProcessContext,
) -> (out: Option<Vec<u8>>)
    requires
        old(m).inv(),
        old(m).current_running(),
        old(m).next_pid <= MAX_STACK_SLOTS,
        (req matches SyscallRequest::Fork ==> old(m).cur().proc_data->Some_0.stack_segment
            is Some),
        (req matches SyscallRequest::Spawn { .. } ==> old(m).procs()[0].inner.page_table
            is Some),
        (req matches SyscallRequest::Read { fd, len } ==> len <= isize::MAX),
        (req matches SyscallRequest::Write { fd, data } ==> data@.len() <= isize::MAX && old(
            m,
        ).console@.len() + data@.len() <= usize::MAX),
    ensures
        final(m).inv(),
        !(req matches SyscallRequest::Exit { .. }) && !(req matches SyscallRequest::Sem {
            op,
            ..
        } && op == 3) ==> final(m).current_running(),
        (req matches SyscallRequest::Read { fd, len } ==> ({
            let did = old(m).cur().proc_data->Some_0.data_id as int;
            let set = old(m).shared@[did].resources;
            let zeros = Seq::new(len as nat, |x: int| 0u8);
            let key = if old(m).input.contents().len() > 0 {
                old(m).input.contents()[0]
            } else {
                0u8
            };
            &&& *final(m) == (ProcessManager { input: final(m).input, ..*old(m) })
            &&& match set.spec_get(fd) {
                Some(crate::resource::Resource::Console(crate::resource::StdIO::Stdin)) => {
                    if len == 0 {
                        &&& final(context).rax == 0
                        &&& out matches Some(b) && b@ == zeros
                        &&& final(m).input == old(m).input
                    } else {
                        &&& final(context).rax == 1
                        &&& out matches Some(b) && b@ == zeros.update(0, key)
                        &&& final(m).input.contents() == if old(m).input.contents().len()
                            > 0 {
                            old(m).input.contents().drop_first()
                        } else {
                            old(m).input.contents()
                        }
                    }
                },
                Some(crate::resource::Resource::Console(_)) => final(context).rax == u64::MAX
                    && (out matches Some(b) && b@ == zeros) && final(m).input == old(m).input,
                Some(crate::resource::Resource::Null) => final(context).rax == 0 && (
                out matches Some(b) && b@ == zeros) && final(m).input == old(m).input,
                None => final(context).rax == u64::MAX && (out matches Some(b) && b@ == zeros)
                    && final(m).input == old(m).input,
            }
        })),
        (req matches SyscallRequest::Write { fd, data } ==> ({
            let did = old(m).cur().proc_data->Some_0.data_id as int;
            let set = old(m).shared@[did].resources;
            &&& *final(m) == (ProcessManager { console: final(m).console, ..*old(m) })
            &&& match set.spec_get(fd) {
                Some(crate::resource::Resource::Console(crate::resource::StdIO::Stdin)) => final(context).rax == u64::MAX && final(m).console == old(m).console,
                Some(crate::resource::Resource::Console(_)) => final(context).rax
                    == data@.len() && final(m).console@ == old(m).console@ + data@,
                Some(crate::resource::Resource::Null) => final(context).rax == data@.len()
                    && final(m).console == old(m).console,
                None => final(context).rax == u64::MAX && final(m).console == old(m).console,
            }
        })),
        (req matches SyscallRequest::GetPid ==> final(context).rax == old(
            m,
        ).current_pid.0 as u64 && *final(m) == *old(m)),
        (req matches SyscallRequest::Spawn { name } ==> ({
            let found = crate::manager::spec_find_app(old(m).app_list@, name@);
            let pid = ProcessId(old(m).next_pid);
            &&& (final(context).rax == 0 ==> *final(m) == *old(m))
            &&& (final(context).rax != 0 ==> {
                &&& final(context).rax == old(m).next_pid as u64
                &&& final(m).has_pid(pid)
                &&& final(m).inner_of(pid).status == ProgramStatus::Ready
                &&& final(m).inner_of(pid).name@ == crate::text::spec_ascii_lower(name@)
                &&& final(m).inner_of(pid).parent == Some(old(m).current_pid)
                &&& final(m).ready_queue@ == old(m).ready_queue@.push(pid)
            })
            &&& ((found matches Some(i) && crate::elf::spec_elf_bytes_ok(
                old(m).app_list@[i].elf@,
            ) && (crate::elf::elf_parse(old(m).app_list@[i].elf@) matches Some(p)
                && crate::elf::spec_image_ok(p.1))) <==> final(context).rax != 0)
        })),
        (req matches SyscallRequest::Exit { code } ==> {
            &&& final(m).has_pid(old(m).current_pid)
            &&& final(m).inner_of(old(m).current_pid).status == ProgramStatus::Dead
            &&& final(m).inner_of(old(m).current_pid).exit_code == Some(code)
            &&& (old(m).ready_queue@.len() > 0 ==> {
                &&& final(m).current_running()
                &&& final(m).current_pid == old(m).ready_queue@[0]
            })
        }),
        (req matches SyscallRequest::WaitPid { pid } ==> {
            let target = ProcessId(pid);
            &&& *final(m) == *old(m)
            &&& if old(m).has_pid(target) && old(m).inner_of(target).status
                == ProgramStatus::Dead {
                &&& final(context).rax == old(m).inner_of(target).exit_code->Some_0 as u64
                &&& out is Some
            } else {
                &&& final(context).rax == WAIT_PID_PENDING
                &&& out is None
            }
        }),
        (req matches SyscallRequest::Stat ==> final(context).rax == 0 && *final(m) == *old(m)
            && out is Some),
        (req matches SyscallRequest::ListApp ==> final(context).rax == 0 && *final(m) == *old(
            m,
        ) && out is Some),
        (req matches SyscallRequest::Time { now } ==> final(context).rax == crate::clock::spec_sys_clock(
            now,
        ) as u64 && *final(m) == *old(m)),
        (req matches SyscallRequest::Fork ==> ({
            let d = old(m).cur().proc_data->Some_0;
            let rg = d.stack_segment->Some_0;
            let scan = old(m).spec_scan(
                rg.start - (old(m).cur().children@.len() + 1) * crate::paging::STACK_MAX_SIZE,
                rg.spec_size(),
            );
            &&& (scan is Some ==> {
                let child = ProcessId(old(m).next_pid);
                &&& final(m).has_pid(child)
                &&& final(m).inner_of(child).context.rax == 0
                &&& final(m).inner_of(child).parent == Some(old(m).current_pid)
                &&& final(m).inner_of(child).proc_data->Some_0.stack_mem@ == d.stack_mem@
                &&& final(m).inner_of(old(m).current_pid).context.rax == old(
                    m,
                ).next_pid as u64
                &&& final(m).inner_of(old(m).current_pid).proc_data == old(m).cur().proc_data
            })
            &&& (scan is None ==> final(m).procs().len() == old(m).procs().len() && final(m).next_pid == old(m).next_pid)
        })),
        (req matches SyscallRequest::Sem { op, key, value } ==> ({
            let pid = old(m).current_pid;
            let did = old(m).cur().proc_data->Some_0.data_id as int;
            let sems = old(m).shared@[did].semaphores;
            &&& (op == 0 ==> {
                &&& final(context).rax == (if sems.has_key(key) {
                    1u64
                } else {
                    0u64
                })
                &&& final(m).procs() == old(m).procs()
                &&& final(m).ready_queue@ == old(m).ready_queue@
                &&& (!sems.has_key(key) ==> {
                    &&& final(m).shared@[did].semaphores.has_key(key)
                    &&& final(m).shared@[did].semaphores.sem(key).count == value
                    &&& final(m).shared@[did].semaphores.sem(key).queue()
                        =~= Seq::<ProcessId>::empty()
                    &&& sems.same_except(final(m).shared@[did].semaphores, key)
                })
                &&& (sems.has_key(key) ==> final(m).shared@[did].semaphores == sems)
            })
            &&& (op == 1 ==> {
                &&& final(context).rax == (if sems.has_key(key) && sems.sem(
                    key,
                ).queue().len() == 0 {
                    0u64
                } else {
                    1u64
                })
                &&& final(m).procs() == old(m).procs()
                &&& final(m).ready_queue@ == old(m).ready_queue@
                &&& (sems.has_key(key) && sems.sem(key).queue().len() == 0 ==> !final(m).shared@[did].semaphores.has_key(key) && sems.same_except(
                    final(m).shared@[did].semaphores,
                    key,
                ))
                &&& (!(sems.has_key(key) && sems.sem(key).queue().len() == 0) ==> final(m).shared@[did].semaphores == sems)
            })
            &&& (op == 2 ==> {
                &&& final(m).current_pid == pid
                &&& if !sems.has_key(key) {
                    &&& final(context).rax == 1
                    &&& final(m).shared@[did].semaphores == sems
                    &&& final(m).ready_queue@ == old(m).ready_queue@
                } else if sems.sem(key).queue().len() > 0 {
                    let woken = sems.sem(key).queue()[0];
                    &&& final(context).rax == 0
                    &&& final(m).shared@[did].semaphores.sem(key).queue() == sems.sem(
                        key,
                    ).queue().drop_first()
                    &&& final(m).shared@[did].semaphores.sem(key).count == sems.sem(key).count
                    &&& sems.same_except(final(m).shared@[did].semaphores, key)
                    &&& (old(m).has_pid(woken) && old(m).inner_of(woken).status
                        == ProgramStatus::Blocked ==> {
                        &&& final(m).inner_of(woken).status == ProgramStatus::Ready
                        &&& final(m).ready_queue@ == old(m).ready_queue@.push(woken)
                    })
                } else {
                    &&& final(context).rax == 0
                    &&& final(m).ready_queue@ == old(m).ready_queue@
                    &&& final(m).shared@[did].semaphores.sem(key).count == (if sems.sem(
                        key,
                    ).count < usize::MAX {
                        sems.sem(key).count + 1
                    } else {
                        sems.sem(key).count as int
                    })
                    &&& final(m).shared@[did].semaphores.sem(key).queue() == sems.sem(
                        key,
                    ).queue()
                    &&& sems.same_except(final(m).shared@[did].semaphores, key)
                }
            })
            &&& (op == 3 ==> {
                &&& if !sems.has_key(key) {
                    &&& final(context).rax == 1
                    &&& final(m).shared@[did].semaphores == sems
                    &&& final(m).current_pid == pid
                    &&& final(m).current_running()
                } else if sems.sem(key).count > 0 {
                    &&& final(context).rax == 0
                    &&& final(m).shared@[did].semaphores.sem(key).count == sems.sem(
                        key,
                    ).count - 1
                    &&& final(m).shared@[did].semaphores.sem(key).queue() == sems.sem(
                        key,
                    ).queue()
                    &&& sems.same_except(final(m).shared@[did].semaphores, key)
                    &&& final(m).current_pid == pid
                    &&& final(m).current_running()
                } else {
                    &&& final(m).shared@[did].semaphores.sem(key).queue() == sems.sem(
                        key,
                    ).queue().push(pid)
                    &&& final(m).shared@[did].semaphores.sem(key).count == 0
                    &&& sems.same_except(final(m).shared@[did].semaphores, key)
                    &&& final(m).has_pid(pid)
                    &&& final(m).inner_of(pid).status == ProgramStatus::Blocked
                    &&& (old(m).ready_queue@.len() > 0 ==> final(m).current_running())
                }
            })
            &&& (op >= 4 ==> final(context).rax == u64::MAX && *final(m) == *old(m))
        })),
        (req matches SyscallRequest::Unknown ==> *final(m) == *old(m) && *final(context)
            == *old(context)),
{
    match req {
        SyscallRequest::Read { fd, len } => {
            let mut buf: Vec<u8> = vec![0u8; len];
            let count = m.read(fd, &mut buf);
            let rax: u64 = if count < 0 {
                u64::MAX
            } else {
                count as u64
            };
            context.set_rax(rax);
            Some(buf)
        },
        SyscallRequest::Write { fd, data } => {
            let count = m.write(fd, &data);
            let rax: u64 = if count < 0 {
                u64::MAX
            } else {
                count as u64
            };
            context.set_rax(rax);
            None
        },
        SyscallRequest::GetPid => {
            let pid = m.get_pid();
            context.set_rax(pid.0 as u64);
            None
        },
        SyscallRequest::Spawn { name } => {
            let spawned = crate::manager::spawn(m, &name);
            match spawned {
                Some(pid) => context.set_rax(pid.0 as u64),
                None => context.set_rax(0),
            }
            None
        },
        SyscallRequest::Exit { code } => {
            crate::manager::exit(m, code, context);
            None
        },
        SyscallRequest::WaitPid { pid } => {
            match m.wait_pid(ProcessId(pid)) {
                Some(code) => {
                    context.set_rax(code as u64);
                    Some(Vec::new())
                },
                None => {
                    context.set_rax(WAIT_PID_PENDING);
                    None
                },
            }
        },
        SyscallRequest::Stat => {
            let table = m.print_process_list();
            context.set_rax(0);
            Some(vstd::slice::slice_to_vec(table.as_str().as_bytes()))
        },
        SyscallRequest::ListApp => {
            let names = crate::manager::list_app(m);
            let mut bytes: Vec<u8> = Vec::new();
            let n = names.len();
            for i in 0..n
                invariant
                    n == names@.len(),
            {
                let name_bytes = names[i].as_str().as_bytes();
                if name_bytes.len() < usize::MAX && bytes.len() <= usize::MAX
                    - name_bytes.len() - 1 {
                    bytes.append(&mut vstd::slice::slice_to_vec(name_bytes));
                    bytes.push(10u8);
                }
            }
            context.set_rax(0);
            Some(bytes)
        },
        SyscallRequest::Time { now } => {
            let t = crate::clock::sys_clock(now);
            context.set_rax(t as u64);
            None
        },
        SyscallRequest::Fork => {
            let _child = crate::manager::fork(m, context);
            None
        },
        SyscallRequest::Sem { op, key, value } => {
            if op == 0 {
                let r = m.new_sem(key, value);
                context.set_rax(r as u64);
            } else if op == 1 {
                let r = m.remove_sem(key);
                context.set_rax(r as u64);
            } else if op == 2 {
                crate::manager::sem_signal(m, key, context);
            } else if op == 3 {
                crate::manager::sem_wait(m, key, context);
            } else {
                context.set_rax(u64::MAX);
            }
            None
        },
        SyscallRequest::Unknown => {
            None
        },
    }
}

} // verus!
