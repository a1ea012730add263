//! ELF images: parsing (through `xmas_elf`) and the computation of the
//! mapping plan for the loadable segments — which pages are mapped with
//! which protection bits, how many bytes are copied from the file, and
//! which pages are zeroed for the memory-only tail.

use vstd::prelude::*;

use crate::paging::{PageRange, PAGE_SIZE};

verus! {

/// One program header, reduced to the fields the loader reads.
#[derive(Clone, Copy, Debug, PartialEq, Eq, Structural)]
pub struct ElfSegment {
    /// Target virtual address.
    pub vaddr: u64,
    /// Size of the segment in memory.
    pub mem_size: u64,
    /// Size of the segment in the file.
    pub file_size: u64,
    /// Offset of the segment in the file.
    pub offset: u64,
    /// Whether this is a loadable segment.
    pub is_load: bool,
    /// Readable flag.
    pub readable: bool,
    /// Writable flag.
    pub writable: bool,
    /// Executable flag.
    pub executable: bool,
}

/// A parsed ELF image: the entry point and the program headers.
#[derive(Clone, Debug)]
pub struct ElfImage {
    /// The program entry point.
    pub entry: u64,
    /// The program headers.
    pub segments: Vec<ElfSegment>,
}

/// The little-endian 16-bit value at offset `i`.
pub open spec fn spec_le16(b: Seq<u8>, i: int) -> int {
    b[i] + 0x100 * b[i + 1]
}

/// The little-endian 64-bit value at offset `i`.
pub open spec fn spec_le64(b: Seq<u8>, i: int) -> int {
    b[i] + 0x100 * b[i + 1] + 0x1_0000 * b[i + 2] + 0x100_0000 * b[i + 3] + 0x1_0000_0000 * b[
        i + 4
    ] + 0x100_0000_0000 * b[i + 5] + 0x1_0000_0000_0000 * b[i + 6] + 0x100_0000_0000_0000 * b[
        i + 7
    ]
}

/// The bytes carry the ELF magic number.
pub open spec fn spec_elf_magic_ok(b: Seq<u8>) -> bool {
    b.len() >= 16 && b[0] == 0x7f && b[1] == 0x45 && b[2] == 0x4c && b[3] == 0x46
}

/// The bytes may be handed to the parser without it panicking: either
/// the header is rejected outright (short, bad magic, bad class, or a
/// 32-bit image with no room for its header), or the image is 64-bit
/// and its program-header table lies inside the buffer, 8-aligned,
/// with the standard 56-byte entries (or is absent). The parser
/// slices and casts the table from these unvalidated header fields,
/// so anything else can step outside the buffer.
pub open spec fn spec_elf_bytes_ok(b: Seq<u8>) -> bool {
    ||| b.len() < 16
    ||| !spec_elf_magic_ok(b)
    ||| !(b[4] == 1 || b[4] == 2)
    ||| (b[4] == 1 && b.len() < 52)
    ||| (b[4] == 2 && b.len() < 64)
    ||| (b[4] == 2 && b.len() >= 64 && {
        let phoff = spec_le64(b, 0x20);
        let phentsize = spec_le16(b, 0x36);
        let phnum = spec_le16(b, 0x38);
        ||| phnum == 0
        ||| phoff == 0
        ||| phentsize == 0
        ||| (phentsize == 56 && phoff % 8 == 0 && phoff + phnum * 56 <= b.len())
    })
}

/// The little-endian 16-bit value at offset `i`.
fn read_le16(bytes: &[u8], i: usize) -> (r: u64)
    requires
        i + 2 <= bytes@.len(),
    ensures
        r == spec_le16(bytes@, i as int),
{
    bytes[i] as u64 + 0x100 * (bytes[i + 1] as u64)
}

/// The little-endian 64-bit value at offset `i`.
fn read_le64(bytes: &[u8], i: usize) -> (r: u64)
    requires
        i + 8 <= bytes@.len(),
    ensures
        r == spec_le64(bytes@, i as int),
{
    bytes[i] as u64 + 0x100 * (bytes[i + 1] as u64) + 0x1_0000 * (bytes[i + 2] as u64)
        + 0x100_0000 * (bytes[i + 3] as u64) + 0x1_0000_0000 * (bytes[i + 4] as u64)
        + 0x100_0000_0000 * (bytes[i + 5] as u64) + 0x1_0000_0000_0000 * (bytes[i + 6] as u64)
        + 0x100_0000_0000_0000 * (bytes[i + 7] as u64)
}

/// Checks that the bytes may be handed to the parser.
pub fn elf_bytes_ok(bytes: &[u8]) -> (r: bool)
    ensures
        r == spec_elf_bytes_ok(bytes@),
{
    let n = bytes.len();
    if n < 16 {
        return true;
    }
    if !(bytes[0] == 0x7f && bytes[1] == 0x45 && bytes[2] == 0x4c && bytes[3] == 0x46) {
        return true;
    }
    if !(bytes[4] == 1 || bytes[4] == 2) {
        return true;
    }
    if bytes[4] == 1 {
        return n < 52;
    }
    if n < 64 {
        return true;
    }
    let phoff = read_le64(bytes, 0x20);
    let phentsize = read_le16(bytes, 0x36);
    let phnum = read_le16(bytes, 0x38);
    if phnum == 0 || phoff == 0 || phentsize == 0 {
        return true;
    }
    phentsize == 56 && phoff % 8 == 0 && phoff as u128 + (phnum as u128) * 56 <= n as u128
}

/// What parsing a byte string as a 64-bit ELF yields: the entry point
/// and the program headers, or nothing when the bytes are not a valid
/// image.
pub uninterp spec fn elf_parse(bytes: Seq<u8>) -> Option<(u64, Seq<ElfSegment>)>;

/// Relies on xmas_elf::ElfFile::new, header.pt2.entry_point and
/// program_iter: parses the image and hands each program header's
/// fields over; the result is a function of the bytes alone. The
/// precondition keeps the parser's unchecked slicing of the
/// program-header table inside the buffer; the copy hands it a fresh
/// heap block, relying on the global allocator's alignment (as malloc
/// guarantees) for the table's 8-byte-aligned reads.
#[verifier::external_body]
pub fn parse_elf(bytes: &[u8]) -> (r: Option<ElfImage>)
    requires
        spec_elf_bytes_ok(bytes@),
    ensures
        match r {
            Some(img) => elf_parse(bytes@) == Some((img.entry, img.segments@)),
            None => elf_parse(bytes@) is None,
        },
{
    let owned = bytes.to_vec();
    let elf = xmas_elf::ElfFile::new(&owned).ok()?;
    let entry = elf.header.pt2.entry_point();
    let mut segments = Vec::new();
    for ph in elf.program_iter() {
        let is_load = matches!(ph.get_type(), Ok(xmas_elf::program::Type::Load));
        segments.push(ElfSegment {
            vaddr: ph.virtual_addr(), mem_size: ph.mem_size(), file_size: ph.file_size(),
            offset: ph.offset(), is_load, readable: ph.flags().is_read(),
            writable: ph.flags().is_write(), executable: ph.flags().is_execute(),
        });
    }
    Some(ElfImage { entry, segments })
}

/// Protection bits of a mapped page.
#[derive(Clone, Copy, Debug, PartialEq, Eq, Structural)]
pub struct PageFlags {
    /// The page is mapped.
    pub present: bool,
    /// Writes are allowed.
    pub writable: bool,
    /// Ring-3 accesses are allowed.
    pub user_accessible: bool,
    /// Instruction fetches are not allowed.
    pub no_execute: bool,
}

/// The flags a loadable segment's pages are mapped with: present
/// always, writable when the segment is, no-execute when it is not
/// executable, user-accessible when the image is loaded for ring 3.
pub open spec fn spec_segment_flags(seg: ElfSegment, user_access: bool) -> PageFlags {
    PageFlags {
        present: true,
        writable: seg.writable,
        user_accessible: user_access,
        no_execute: !seg.executable,
    }
}

/// A loadable segment stays inside the 64-bit address space with a page
/// to spare, and does not claim more file bytes than memory bytes.
pub open spec fn spec_seg_ok(seg: ElfSegment) -> bool {
    seg.is_load ==> {
        &&& seg.file_size <= seg.mem_size
        &&& seg.vaddr + seg.mem_size + PAGE_SIZE <= u64::MAX
    }
}

/// Every loadable segment of the image is acceptable.
pub open spec fn spec_image_ok(segments: Seq<ElfSegment>) -> bool {
    forall|i: int| 0 <= i < segments.len() ==> spec_seg_ok(#[trigger] segments[i])
}

/// Checks that the image's loadable segments are acceptable, so the
/// mapping plan can be computed.
pub fn image_ok(image: &ElfImage) -> (r: bool)
    ensures
        r == spec_image_ok(image.segments@),
{
    let n = image.segments.len();
    for i in 0..n
        invariant
            n == image.segments@.len(),
            forall|j: int| 0 <= j < i ==> spec_seg_ok(#[trigger] image.segments@[j]),
    {
        let seg = image.segments[i];
        if seg.is_load {
            if seg.file_size > seg.mem_size {
                return false;
            }
            if !(seg.vaddr <= u64::MAX - PAGE_SIZE && seg.vaddr + PAGE_SIZE <= u64::MAX
                - seg.mem_size) {
                return false;
            }
        }
    }
    true
}

/// The plan for one loadable segment.
#[derive(Clone, Copy, Debug, PartialEq, Eq, Structural)]
pub struct SegmentPlan {
    /// The pages covering the file-backed bytes `[vaddr, vaddr + file_size)`.
    pub pages: PageRange,
    /// The extra pages zeroed for the memory-only tail `(file_size, mem_size]`.
    pub bss: PageRange,
    /// The protection bits for all of them.
    pub flags: PageFlags,
    /// How many bytes are copied from the file.
    pub copy_bytes: u64,
}

/// The pages covering the file-backed part of a segment.
pub open spec fn spec_file_pages(seg: ElfSegment) -> PageRange {
    let start = crate::paging::spec_page_of(seg.vaddr);
    if seg.file_size == 0 {
        PageRange { start, end: start }
    } else {
        PageRange {
            start,
            end: (crate::paging::spec_page_of((seg.vaddr + seg.file_size - 1) as u64)
                + PAGE_SIZE) as u64,
        }
    }
}

/// The pages zeroed for the memory-only tail of a segment.
pub open spec fn spec_bss_pages(seg: ElfSegment) -> PageRange {
    let zero_start = seg.vaddr + seg.file_size;
    let aligned_start = if zero_start % (PAGE_SIZE as int) == 0 {
        zero_start
    } else {
        crate::paging::spec_page_of(zero_start as u64) + PAGE_SIZE
    };
    let last_page = crate::paging::spec_page_of((seg.vaddr + seg.mem_size) as u64);
    if seg.mem_size > seg.file_size && aligned_start <= last_page {
        PageRange { start: aligned_start as u64, end: (last_page + PAGE_SIZE) as u64 }
    } else {
        PageRange { start: aligned_start as u64, end: aligned_start as u64 }
    }
}

/// The whole plan for one segment.
pub open spec fn spec_segment_plan(seg: ElfSegment, user_access: bool) -> SegmentPlan {
    SegmentPlan {
        pages: spec_file_pages(seg),
        bss: spec_bss_pages(seg),
        flags: spec_segment_flags(seg, user_access),
        copy_bytes: seg.file_size,
    }
}

/// The plans of all loadable segments, in order.
pub open spec fn spec_load_plan(segments: Seq<ElfSegment>, user_access: bool) -> Seq<
    SegmentPlan,
>
    decreases segments.len(),
{
    if segments.len() == 0 {
        Seq::empty()
    } else {
        let rest = spec_load_plan(segments.drop_last(), user_access);
        if segments.last().is_load {
            rest.push(spec_segment_plan(segments.last(), user_access))
        } else {
            rest
        }
    }
}

/// Computes the plan for one loadable segment.
pub fn segment_plan(seg: &ElfSegment, user_access: bool) -> (r: SegmentPlan)
    requires
        seg.is_load,
        spec_seg_ok(*seg),
    ensures
        r == spec_segment_plan(*seg, user_access),
        r.pages.wf(),
        r.bss.wf(),
{
    let start = crate::paging::page_containing_address(seg.vaddr);
    let pages = if seg.file_size == 0 {
        PageRange { start, end: start }
    } else {
        let last = crate::paging::page_containing_address(seg.vaddr + seg.file_size - 1);
        PageRange { start, end: last + PAGE_SIZE }
    };
    let zero_start = seg.vaddr + seg.file_size;
    let aligned_start = if zero_start % PAGE_SIZE == 0 {
        zero_start
    } else {
        crate::paging::page_containing_address(zero_start) + PAGE_SIZE
    };
    let last_page = crate::paging::page_containing_address(seg.vaddr + seg.mem_size);
    let bss = if seg.mem_size > seg.file_size && aligned_start <= last_page {
        PageRange { start: aligned_start, end: last_page + PAGE_SIZE }
    } else {
        PageRange { start: aligned_start, end: aligned_start }
    };
    let flags = PageFlags {
        present: true,
        writable: seg.writable,
        user_accessible: user_access,
        no_execute: !seg.executable,
    };
    SegmentPlan { pages, bss, flags, copy_bytes: seg.file_size }
}

/// Computes the mapping plan for every loadable segment of the image.
pub fn load_plan(image: &ElfImage, user_access: bool) -> (r: Vec<SegmentPlan>)
    requires
        spec_image_ok(image.segments@),
    ensures
        r@ == spec_load_plan(image.segments@, user_access),
        forall|i: int| 0 <= i < r@.len() ==> (#[trigger] r@[i]).pages.wf() && r@[i].bss.wf(),
{
    let n = image.segments.len();
    let mut plan: Vec<SegmentPlan> = Vec::new();
    proof {
        assert(image.segments@.take(0) =~= Seq::<ElfSegment>::empty());
    }
    for i in 0..n
        invariant
            n == image.segments@.len(),
            spec_image_ok(image.segments@),
            plan@ == spec_load_plan(image.segments@.take(i as int), user_access),
            forall|j: int|
                0 <= j < plan@.len() ==> (#[trigger] plan@[j]).pages.wf() && plan@[j].bss.wf(),
    {
        let seg = image.segments[i];
        proof {
            let pre = image.segments@.take(i as int);
            let post = image.segments@.take(i + 1);
            assert(post.drop_last() =~= pre);
            assert(post.last() == image.segments@[i as int]);
        }
        if seg.is_load {
            let p = segment_plan(&seg, user_access);
            plan.push(p);
        }
    }
    proof {
        assert(image.segments@.take(n as int) =~= image.segments@);
    }
    plan
}

/// The page ranges a plan maps for the file-backed parts, as recorded
/// in the process's bookkeeping.
pub fn plan_ranges(plan: &Vec<SegmentPlan>) -> (r: Vec<PageRange>)
    ensures
        r@.len() == plan@.len(),
        forall|i: int| 0 <= i < r@.len() ==> r@[i] == (#[trigger] plan@[i]).pages,
{
    let n = plan.len();
    let mut out: Vec<PageRange> = Vec::new();
    for i in 0..n
        invariant
            n == plan@.len(),
            out@.len() == i,
            forall|j: int| 0 <= j < i ==> out@[j] == (#[trigger] plan@[j]).pages,
    {
        out.push(plan[i].pages);
    }
    out
}

} // verus!
