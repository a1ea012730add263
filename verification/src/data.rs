//! Per-process bookkeeping: the stack segment and its modeled contents,
//! the loaded code segments, and the handle on the data shared with
//! forked relatives (environment, file descriptors, semaphores).

use vstd::prelude::*;

use crate::paging::{PageRange, PAGE_SIZE};

verus! {

/// Clamps a mathematical integer into `u64`.
pub open spec fn clamp_u64(x: int) -> u64 {
    if x > u64::MAX {
        u64::MAX as u64
    } else {
        x as u64
    }
}

/// Sum of the byte sizes of a sequence of page ranges.
pub open spec fn spec_ranges_size(s: Seq<PageRange>) -> int
    decreases s.len(),
{
    if s.len() == 0 {
        0
    } else {
        spec_ranges_size(s.drop_last()) + s.last().spec_size()
    }
}

/// The total size of a sequence of page ranges is never negative.
pub proof fn lemma_ranges_size_nonneg(s: Seq<PageRange>)
    ensures
        spec_ranges_size(s) >= 0,
    decreases s.len(),
{
    if s.len() > 0 {
        lemma_ranges_size_nonneg(s.drop_last());
    }
}

/// The process-specific portion of a process's mutable state.
///
/// Environment, file descriptors and semaphores are shared by reference
/// between a process and its forked children; the model keeps those in a
/// table owned by the process manager, and `data_id` names the table
/// entry. A fresh `spawn` gets a fresh entry; `fork` hands the parent's
/// `data_id` on.
#[derive(Debug, Clone)]
pub struct ProcessData {
    /// Index of the shared data (env, resources, semaphores) this
    /// process uses; equal for all members of one fork family.
    pub data_id: usize,
    /// The mapped stack pages, if a stack was set up.
    pub stack_segment: Option<PageRange>,
    /// The page ranges the loader mapped for the program image.
    pub code_segments: Option<Vec<PageRange>>,
    /// The bytes held by the mapped stack pages, lowest address first.
    pub stack_mem: Vec<u8>,
}

impl ProcessData {
    /// The stack metadata is consistent: the segment is well formed and
    /// the modeled bytes cover it exactly.
    pub open spec fn wf(self) -> bool {
        &&& match self.stack_segment {
            Some(r) => r.wf() && self.stack_mem@.len() == r.spec_size(),
            None => self.stack_mem@.len() == 0,
        }
        &&& match self.code_segments {
            Some(v) => forall|i: int| 0 <= i < v@.len() ==> (#[trigger] v@[i]).wf(),
            None => true,
        }
    }

    /// Fresh bookkeeping bound to the shared-data entry `data_id`: no
    /// stack, no code, nothing mapped.
    pub fn new(data_id: usize) -> (r: ProcessData)
        ensures
            r.wf(),
            r.data_id == data_id,
            r.stack_segment is None,
            r.code_segments is None,
            r.stack_mem@.len() == 0,
    {
        ProcessData { data_id, stack_segment: None, code_segments: None, stack_mem: Vec::new() }
    }

    /// Records a stack of `count` pages starting at `start`, with all its
    /// bytes zero.
    pub fn set_stack(&mut self, start: u64, count: u64)
        requires
            start % PAGE_SIZE == 0,
            start + count * PAGE_SIZE <= u64::MAX,
            count * PAGE_SIZE <= usize::MAX,
        ensures
            final(self).wf() <== old(self).wf(),
            final(self).data_id == old(self).data_id,
            final(self).code_segments == old(self).code_segments,
            final(self).stack_segment == Some(
                PageRange { start, end: (start + count * PAGE_SIZE) as u64 },
            ),
            final(self).stack_mem@ =~= Seq::new((count * PAGE_SIZE) as nat, |i: int| 0u8),
    {
        let range = PageRange::new(start, count);
        self.stack_segment = Some(range);
        let size = count * PAGE_SIZE;
        self.stack_mem = vec![0u8; size as usize];
    }

    /// Whether `addr` lies on the mapped stack.
    pub fn is_on_stack(&self, addr: u64) -> (r: bool)
        ensures
            r == match self.stack_segment {
                Some(range) => range.spec_contains(addr),
                None => false,
            },
    {
        match &self.stack_segment {
            Some(range) => range.contains(addr),
            None => false,
        }
    }

    /// Bytes occupied by the stack.
    pub fn stack_memory_usage(&self) -> (r: u64)
        requires
            self.wf(),
        ensures
            r == match self.stack_segment {
                Some(range) => range.spec_size(),
                None => 0u64,
            },
    {
        match &self.stack_segment {
            Some(range) => range.size(),
            None => 0,
        }
    }

    /// Bytes occupied by the loaded program image, clamped at the
    /// machine maximum.
    pub fn code_memory_usage(&self) -> (r: u64)
        requires
            self.wf(),
        ensures
            r == match self.code_segments {
                Some(v) => clamp_u64(spec_ranges_size(v@)),
                None => 0u64,
            },
    {
        match &self.code_segments {
            None => 0,
            Some(v) => {
                let n = v.len();
                let mut acc: u64 = 0;
                for i in 0..n
                    invariant
                        n == v@.len(),
                        forall|j: int| 0 <= j < n ==> (#[trigger] v@[j]).wf(),
                        acc == clamp_u64(spec_ranges_size(v@.take(i as int))),
                {
                    let size = v[i].size();
                    proof {
                        let pre = v@.take(i as int);
                        let post = v@.take(i + 1);
                        assert(post.len() == i + 1);
                        assert(post.drop_last() =~= pre);
                        assert(post.last() == v@[i as int]);
                        assert(spec_ranges_size(post) == spec_ranges_size(pre)
                            + v@[i as int].spec_size());
                        lemma_ranges_size_nonneg(pre);
                        lemma_ranges_size_nonneg(post);
                    }
                    if u64::MAX - acc >= size {
                        acc = acc + size;
                    } else {
                        acc = u64::MAX;
                    }
                }
                proof {
                    assert(v@.take(n as int) =~= v@);
                }
                acc
            },
        }
    }

    /// Bytes occupied by stack and program image together, clamped at
    /// the machine maximum.
    pub fn total_memory_usage(&self) -> (r: u64)
        requires
            self.wf(),
        ensures
            r == clamp_u64(
                (match self.stack_segment {
                    Some(range) => range.spec_size() as int,
                    None => 0,
                }) + (match self.code_segments {
                    Some(v) => clamp_u64(spec_ranges_size(v@)) as int,
                    None => 0,
                }),
            ),
    {
        let stack = self.stack_memory_usage();
        let code = self.code_memory_usage();
        if u64::MAX - stack >= code {
            stack + code
        } else {
            u64::MAX
        }
    }
}

} // verus!
