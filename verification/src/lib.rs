//! A model of the process subsystem of an educational x86-64 kernel:
//! the process table, per-process stack bookkeeping, the round-robin
//! scheduler, fork, page-fault-driven stack growth, and counting
//! semaphores with FIFO wait queues.

use vstd::prelude::*;

pub mod pid;
pub mod paging;
pub mod context;
pub mod sync;
pub mod data;
pub mod process;
pub mod input;
pub mod resource;
pub mod manager;
pub mod elf;
pub mod text;
pub mod clock;
pub mod syscall;
pub mod io;
pub mod usync;
pub mod laws;

pub use pid::ProcessId;
pub use paging::PageRange;
pub use context::ProcessContext;
pub use sync::{Semaphore, SemaphoreResult, SemaphoreSet};
pub use data::ProcessData;
pub use process::{Process, ProcessInner, ProgramStatus};
pub use input::InputBuffer;
pub use resource::{Resource, ResourceSet, StdIO};
pub use manager::{AppEntry, EnvEntry, ProcessManager, SharedData};
pub use elf::{ElfImage, ElfSegment, PageFlags, SegmentPlan};
pub use clock::ClockTime;
pub use syscall::{Syscall, SyscallArgs, SyscallRequest};
pub use io::{stderr, stdin, stdout, Stderr, Stdin, Stdout};
pub use usync::{Semaphore as UserSemaphore, SpinLock};

