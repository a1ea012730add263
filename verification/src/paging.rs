//! Virtual addresses, page ranges and the stack layout of the user address
//! space.
//!
//! Addresses are modeled as plain `u64` values; a page is the 4 KiB region
//! starting at an address that is a multiple of `PAGE_SIZE`. The user stack
//! area lies below `STACK_MAX`; each process owns a slot of
//! `STACK_MAX_SIZE` bytes indexed by its pid, and starts with one page
//! mapped at the top of its slot.

use vstd::prelude::*;

verus! {

/// Size of one page in bytes.
pub const PAGE_SIZE: u64 = 4096;

/// Exclusive upper bound of the user stack area.
pub const STACK_MAX: u64 = 0x4000_0000_0000;

/// Number of pages in one per-process stack slot.
pub const STACK_MAX_PAGES: u64 = 0x100000;

/// Size in bytes of one per-process stack slot (4 GiB).
pub const STACK_MAX_SIZE: u64 = STACK_MAX_PAGES * PAGE_SIZE;

/// Number of pages initially mapped for a fresh user stack.
pub const STACK_DEF_PAGE: u64 = 1;

/// Size in bytes of a fresh user stack.
pub const STACK_DEF_SIZE: u64 = STACK_DEF_PAGE * PAGE_SIZE;

/// Lowest address of the first process's initial stack page.
pub const STACK_INIT_BOT: u64 = STACK_MAX - STACK_DEF_SIZE;

/// Initial stack top handed to the first process (8 bytes below the
/// boundary so that the top-of-stack slot lies inside the mapped page).
pub const STACK_INIT_TOP: u64 = STACK_MAX - 8;

/// Exclusive upper bound of the kernel stack area.
pub const KSTACK_MAX: u64 = 0xffff_ff02_0000_0000;

/// Number of pages of the kernel's own stack.
pub const KSTACK_DEF_PAGE: u64 = 512;

/// Size in bytes of the kernel's own stack.
pub const KSTACK_DEF_SIZE: u64 = KSTACK_DEF_PAGE * PAGE_SIZE;

/// Lowest address of the kernel stack.
pub const KSTACK_INIT_BOT: u64 = KSTACK_MAX - KSTACK_DEF_SIZE;

/// Page-fault error-code bit that is set when the fault was a protection
/// violation (the page was present but the access was not permitted), and
/// clear when the page was simply not present.
pub const PAGE_FAULT_PROTECTION_VIOLATION: u64 = 1;

/// The page-aligned address of the page that `addr` lies in.
pub open spec fn spec_page_of(addr: u64) -> u64 {
    (addr / PAGE_SIZE * PAGE_SIZE) as u64
}

/// The page-aligned address of the page that `addr` lies in.
pub fn page_containing_address(addr: u64) -> (r: u64)
    ensures
        r == spec_page_of(addr),
        r % PAGE_SIZE == 0,
        r <= addr < r + PAGE_SIZE,
{
    addr / PAGE_SIZE * PAGE_SIZE
}

/// A right-open range of whole pages, `[start, end)`.
#[derive(Clone, Copy, Debug, PartialEq, Eq, Structural)]
pub struct PageRange {
    /// Page-aligned start address (inclusive).
    pub start: u64,
    /// Page-aligned end address (exclusive).
    pub end: u64,
}

impl PageRange {
    /// The range is well formed: both bounds are page aligned and ordered.
    pub open spec fn wf(self) -> bool {
        &&& self.start % PAGE_SIZE == 0
        &&& self.end % PAGE_SIZE == 0
        &&& self.start <= self.end
    }

    /// Number of pages in the range.
    pub open spec fn spec_count(self) -> u64 {
        ((self.end - self.start) / PAGE_SIZE as int) as u64
    }

    /// Number of bytes covered by the range.
    pub open spec fn spec_size(self) -> u64 {
        (self.end - self.start) as u64
    }

    /// Whether `addr` lies inside the range.
    pub open spec fn spec_contains(self, addr: u64) -> bool {
        self.start <= addr < self.end
    }

    /// Whether the two ranges share at least one address.
    pub open spec fn spec_overlaps(self, other: PageRange) -> bool {
        self.start < other.end && other.start < self.end
    }

    /// Builds the range `[start, start + count pages)`.
    pub fn new(start: u64, count: u64) -> (r: PageRange)
        requires
            start % PAGE_SIZE == 0,
            start + count * PAGE_SIZE <= u64::MAX,
        ensures
            r.wf(),
            r.start == start,
            r.end == start + count * PAGE_SIZE,
            r.spec_count() == count,
    {
        proof {
            let s = start as int;
            let c = count as int;
            let p = PAGE_SIZE as int;
            assert((s + c * p) % p == 0) by (nonlinear_arith)
                requires
                    s % p == 0,
                    p == 4096,
            ;
            assert((s + c * p - s) / p == c) by (nonlinear_arith)
                requires
                    p == 4096,
                    c >= 0,
            ;
        }
        PageRange { start, end: start + count * PAGE_SIZE }
    }

    /// Number of pages in the range.
    pub fn count(&self) -> (r: u64)
        requires
            self.wf(),
        ensures
            r == self.spec_count(),
    {
        (self.end - self.start) / PAGE_SIZE
    }

    /// Number of bytes covered by the range.
    pub fn size(&self) -> (r: u64)
        requires
            self.wf(),
        ensures
            r == self.spec_size(),
    {
        self.end - self.start
    }

    /// Whether `addr` lies inside the range.
    pub fn contains(&self, addr: u64) -> (r: bool)
        ensures
            r == self.spec_contains(addr),
    {
        self.start <= addr && addr < self.end
    }

    /// Whether the two ranges share at least one address.
    pub fn overlaps(&self, other: &PageRange) -> (r: bool)
        ensures
            r == self.spec_overlaps(*other),
    {
        self.start < other.end && other.start < self.end
    }
}

/// Subtraction modulo 2^64, as the hardware's pointer arithmetic wraps.
pub open spec fn spec_wrap_sub64(a: u64, b: u64) -> u64 {
    if a >= b {
        (a - b) as u64
    } else {
        (a - b + 0x1_0000_0000_0000_0000) as u64
    }
}

/// Subtraction modulo 2^64.
pub fn wrap_sub64(a: u64, b: u64) -> (r: u64)
    ensures
        r == spec_wrap_sub64(a, b),
{
    if a >= b {
        a - b
    } else {
        (u64::MAX - b) + a + 1
    }
}

/// A handle on a top-level (level 4) page table. The table itself lives in
/// a physical frame; the model keeps only the frame's identity, which is
/// all the scheduler and fork logic inspect.
#[derive(Clone, Copy, Debug, PartialEq, Eq, Structural)]
pub struct PageTableContext {
    /// Identity of the level-4 frame that holds the table.
    pub root: u64,
}

impl PageTableContext {
    /// Wraps an existing level-4 frame, as handed over by the bootloader.
    pub fn new(root: u64) -> (r: PageTableContext)
        ensures
            r.root == root,
    {
        PageTableContext { root }
    }

    /// A second handle on the same root; the address space is shared.
    pub fn clone_l4(&self) -> (r: PageTableContext)
        ensures
            r.root == self.root,
    {
        PageTableContext { root: self.root }
    }

    /// A forked table: a fresh level-4 frame whose entries were copied from
    /// this one, so the kernel half and the already-mapped user lower
    /// tables are aliased. The caller supplies the fresh frame.
    pub fn fork(&self, new_root: u64) -> (r: PageTableContext)
        ensures
            r.root == new_root,
    {
        PageTableContext { root: new_root }
    }
}

} // verus!
