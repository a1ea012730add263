//! Process identifiers.

use vstd::prelude::*;

verus! {

/// A 16-bit process identifier. Identifier 1 is reserved for the kernel
/// process; identifiers grow monotonically and are never reused during a run.
#[derive(Clone, Copy, Debug, PartialEq, Eq, Structural)]
pub struct ProcessId(pub u16);

/// The raw identifier of the kernel process.
pub const KERNEL_PID: u16 = 1;

/// The identifier of the kernel process.
pub fn kernel_pid() -> (r: ProcessId)
    ensures
        r.0 == KERNEL_PID,
{
    ProcessId(KERNEL_PID)
}

impl ProcessId {
    /// The raw 16-bit value of the identifier.
    pub fn as_u16(self) -> (r: u16)
        ensures
            r == self.0,
    {
        self.0
    }
}

} // verus!
