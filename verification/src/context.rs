//! The saved CPU state of a process: the return-from-interrupt frame and
//! the general-purpose register that carries syscall return values.

use vstd::prelude::*;

verus! {

/// Code-segment selector for ring-0 entries.
pub const KERNEL_CODE_SELECTOR: u64 = 0x08;

/// Data/stack-segment selector for ring-0 entries.
pub const KERNEL_DATA_SELECTOR: u64 = 0x10;

/// Code-segment selector for ring-3 entries (requested privilege level 3).
pub const USER_CODE_SELECTOR: u64 = 0x23;

/// Data/stack-segment selector for ring-3 entries.
pub const USER_DATA_SELECTOR: u64 = 0x1b;

/// Initial RFLAGS of a fresh frame: interrupts enabled.
pub const RFLAGS_IF: u64 = 0x202;

/// The CPU-architected record pushed at trap entry.
#[derive(Clone, Copy, Debug, PartialEq, Eq, Structural)]
pub struct InterruptFrame {
    /// Instruction pointer to return to.
    pub rip: u64,
    /// Code-segment selector.
    pub cs: u64,
    /// Saved flags register.
    pub rflags: u64,
    /// Stack pointer to restore.
    pub rsp: u64,
    /// Stack-segment selector.
    pub ss: u64,
}

/// A process's saved register context: the interrupt-return frame plus the
/// register that carries a syscall's return value.
#[derive(Clone, Copy, Debug, PartialEq, Eq, Structural)]
pub struct ProcessContext {
    /// The saved `rax`, where syscall return values are placed.
    pub rax: u64,
    /// The saved interrupt-return frame.
    pub stack_frame: InterruptFrame,
}

impl ProcessContext {
    /// An all-zero context, as a fresh process record starts with.
    pub fn new() -> (r: ProcessContext)
        ensures
            r == ProcessContext::spec_default(),
    {
        ProcessContext {
            rax: 0,
            stack_frame: InterruptFrame { rip: 0, cs: 0, rflags: 0, rsp: 0, ss: 0 },
        }
    }

    /// The all-zero context.
    pub open spec fn spec_default() -> ProcessContext {
        ProcessContext {
            rax: 0,
            stack_frame: InterruptFrame { rip: 0, cs: 0, rflags: 0, rsp: 0, ss: 0 },
        }
    }

    /// Copies the hardware context `from` into this saved context.
    pub fn save(&mut self, from: &ProcessContext)
        ensures
            *final(self) == *from,
    {
        *self = *from;
    }

    /// Writes this saved context into the hardware context `to`.
    pub fn restore(&self, to: &mut ProcessContext)
        ensures
            *final(to) == *self,
    {
        *to = *self;
    }

    /// Sets the syscall-return register.
    pub fn set_rax(&mut self, value: u64)
        ensures
            *final(self) == (ProcessContext { rax: value, ..*old(self) }),
    {
        self.rax = value;
    }

    /// Initializes a ring-0 entry frame: execution starts at `entry` with
    /// the stack at `stack_top`, interrupts enabled.
    pub fn init_stack_frame(&mut self, entry: u64, stack_top: u64)
        ensures
            *final(self) == (ProcessContext {
                stack_frame: InterruptFrame {
                    rip: entry,
                    cs: KERNEL_CODE_SELECTOR,
                    rflags: RFLAGS_IF,
                    rsp: stack_top,
                    ss: KERNEL_DATA_SELECTOR,
                },
                ..*old(self)
            }),
    {
        self.stack_frame = InterruptFrame {
            rip: entry,
            cs: KERNEL_CODE_SELECTOR,
            rflags: RFLAGS_IF,
            rsp: stack_top,
            ss: KERNEL_DATA_SELECTOR,
        };
    }

    /// Initializes a ring-3 entry frame: like `init_stack_frame` but with
    /// user-mode selectors, so the return from the trap drops to ring 3.
    pub fn init_user_stack_frame(&mut self, entry: u64, stack_top: u64)
        ensures
            *final(self) == (ProcessContext {
                stack_frame: InterruptFrame {
                    rip: entry,
                    cs: USER_CODE_SELECTOR,
                    rflags: RFLAGS_IF,
                    rsp: stack_top,
                    ss: USER_DATA_SELECTOR,
                },
                ..*old(self)
            }),
    {
        self.stack_frame = InterruptFrame {
            rip: entry,
            cs: USER_CODE_SELECTOR,
            rflags: RFLAGS_IF,
            rsp: stack_top,
            ss: USER_DATA_SELECTOR,
        };
    }
}

} // verus!
