//! An address space: an ordered collection of disjoint map areas over one
//! page table, plus the trampoline page that every space shares.
use vstd::prelude::*;
use crate::config::{MEMORY_END, PAGE_SIZE, TRAMPOLINE, TRAP_CONTEXT, USER_STACK_SIZE, VA_LIMIT, VPN_LIMIT};
use crate::elf::{LoadSegment, elf_header_ok, spec_elf_entry, spec_elf_phentsize, spec_elf_phnum, spec_elf_phoff, spec_load_segments, spec_parse_from, spec_seg_acceptable, spec_seg_at};
use crate::addr::{PhysPageNum, VirtAddr, VirtPageNum, spec_va_ceil, spec_va_floor};
use crate::frame::FrameAllocator;
use crate::map_area::{MapArea, MapPermission, MapType};
use crate::page_table::{PageTable, PageTableEntry};

verus! {

/// An address space.
pub struct MemorySet {
    pub page_table: PageTable,
    pub areas: Vec<MapArea>,
    /// The virtual page holding the trampoline, once mapped; it is shared
    /// code and deliberately not tracked in `areas`.
    pub trampoline: Option<u64>,
}

/// Two half-open page ranges intersect.
pub open spec fn ranges_overlap(s1: int, e1: int, s2: int, e2: int) -> bool {
    vstd::math::max(s1, s2) < vstd::math::min(e1, e2)
}

/// The areas of `s` whose page range does not meet `[lo, hi)`, in order.
pub open spec fn keep_areas(s: Seq<MapArea>, lo: int, hi: int) -> Seq<MapArea>
    decreases s.len(),
{
    if s.len() == 0 {
        Seq::empty()
    } else if ranges_overlap(s[0].vpn_start as int, s[0].vpn_end as int, lo, hi) {
        keep_areas(s.subrange(1, s.len() as int), lo, hi)
    } else {
        seq![s[0]] + keep_areas(s.subrange(1, s.len() as int), lo, hi)
    }
}

/// Page `v` lies in some area of `s` whose range meets `[lo, hi)`.
pub open spec fn removed_covers(s: Seq<MapArea>, lo: int, hi: int, v: int) -> bool {
    exists|j: int| 0 <= j < s.len()
        && ranges_overlap((#[trigger] s[j]).vpn_start as int, s[j].vpn_end as int, lo, hi)
        && s[j].contains(v)
}

/// Where the linker put the kernel's sections and the trampoline code:
/// page-aligned, ascending, all below `MEMORY_END`.
pub struct KernelLayout {
    pub stext: u64,
    pub etext: u64,
    pub srodata: u64,
    pub erodata: u64,
    pub sdata: u64,
    pub edata: u64,
    pub sbss: u64,
    pub ebss: u64,
    pub ekernel: u64,
    pub strampoline_ppn: u64,
}

impl KernelLayout {
    pub open spec fn wf(&self) -> bool {
        &&& self.stext % PAGE_SIZE == 0
        &&& self.etext % PAGE_SIZE == 0
        &&& self.srodata % PAGE_SIZE == 0
        &&& self.erodata % PAGE_SIZE == 0
        &&& self.sdata % PAGE_SIZE == 0
        &&& self.edata % PAGE_SIZE == 0
        &&& self.sbss % PAGE_SIZE == 0
        &&& self.ebss % PAGE_SIZE == 0
        &&& self.ekernel % PAGE_SIZE == 0
        &&& 0 < self.stext <= self.etext <= self.srodata <= self.erodata
        &&& self.erodata <= self.sdata <= self.edata <= self.sbss <= self.ebss
        &&& self.ebss <= self.ekernel <= MEMORY_END
        &&& self.strampoline_ppn < crate::config::PPN_LIMIT
    }

    /// Pages that the five identity areas cover together.
    pub open spec fn total_pages(&self) -> int {
        (self.etext / PAGE_SIZE - self.stext / PAGE_SIZE)
            + (self.erodata / PAGE_SIZE - self.srodata / PAGE_SIZE)
            + (self.edata / PAGE_SIZE - self.sdata / PAGE_SIZE)
            + (self.ebss / PAGE_SIZE - self.sbss / PAGE_SIZE)
            + (MEMORY_END / PAGE_SIZE - self.ekernel / PAGE_SIZE)
    }
}

/// The five identity areas a kernel space holds, in order, with their
/// permissions (R|X for .text, R for .rodata, R|W for the rest).
pub open spec fn kernel_sections(ms: &MemorySet, layout: &KernelLayout) -> bool {
    &&& ms.areas@.len() == 5
    &&& ms.areas@[0].vpn_start == layout.stext / PAGE_SIZE
    &&& ms.areas@[0].vpn_end == layout.etext / PAGE_SIZE
    &&& ms.areas@[0].map_type is Identical
    &&& ms.areas@[0].map_perm.bits == 10
    &&& ms.areas@[1].vpn_start == layout.srodata / PAGE_SIZE
    &&& ms.areas@[1].vpn_end == layout.erodata / PAGE_SIZE
    &&& ms.areas@[1].map_type is Identical
    &&& ms.areas@[1].map_perm.bits == 2
    &&& ms.areas@[2].vpn_start == layout.sdata / PAGE_SIZE
    &&& ms.areas@[2].vpn_end == layout.edata / PAGE_SIZE
    &&& ms.areas@[2].map_type is Identical
    &&& ms.areas@[2].map_perm.bits == 6
    &&& ms.areas@[3].vpn_start == layout.sbss / PAGE_SIZE
    &&& ms.areas@[3].vpn_end == layout.ebss / PAGE_SIZE
    &&& ms.areas@[3].map_type is Identical
    &&& ms.areas@[3].map_perm.bits == 6
    &&& ms.areas@[4].vpn_start == layout.ekernel / PAGE_SIZE
    &&& ms.areas@[4].vpn_end == MEMORY_END / PAGE_SIZE
    &&& ms.areas@[4].map_type is Identical
    &&& ms.areas@[4].map_perm.bits == 6
}

/// Pages a loadable segment occupies.
pub open spec fn seg_pages(s: LoadSegment) -> int {
    spec_va_ceil(s.vaddr + s.mem_size) - spec_va_floor(s.vaddr as int)
}

/// Pages of the segments from index `k` on.
pub open spec fn segs_pages_from(s: Seq<LoadSegment>, k: int) -> int
    decreases s.len() - k,
{
    if k < 0 || k >= s.len() {
        0
    } else {
        seg_pages(s[k]) + segs_pages_from(s, k + 1)
    }
}

/// The permission bits a segment's area carries: user plus its own R/W/X.
pub open spec fn seg_perm_bits(s: LoadSegment) -> int {
    16 + (if s.readable { 2int } else { 0int })
        + (if s.writable { 4int } else { 0int })
        + (if s.executable { 8int } else { 0int })
}

/// A well-formed segment list: each segment sits in the lower user range
/// with its file bytes inside the image, and the list ascends with whole
/// pages not shared between segments.
pub open spec fn segs_wf(s: Seq<LoadSegment>, data_len: int) -> bool {
    &&& forall|k: int| 0 <= k < s.len() ==> {
        &&& (#[trigger] s[k]).vaddr + s[k].mem_size <= 0x4000000000
        &&& s[k].file_size <= s[k].mem_size
        &&& s[k].offset + s[k].file_size <= data_len
    }
    &&& forall|k: int| 0 <= k < s.len() - 1 ==>
        spec_va_ceil((#[trigger] s[k]).vaddr + s[k].mem_size) <= spec_va_floor(s[k + 1].vaddr as int)
}

/// The page just past the highest loaded segment (0 when none).
pub open spec fn max_end_page(s: Seq<LoadSegment>) -> int {
    if s.len() == 0 {
        0
    } else {
        spec_va_ceil(s.last().vaddr + s.last().mem_size)
    }
}

/// The initial user stack pointer: a guard page above the loaded image,
/// then the stack.
pub open spec fn user_sp_of(s: Seq<LoadSegment>) -> int {
    (max_end_page(s) + 1) * PAGE_SIZE + USER_STACK_SIZE
}

/// Appending a segment adds its pages to every suffix count.
pub proof fn lemma_segs_pages_push(s: Seq<LoadSegment>, x: LoadSegment, k: int)
    requires
        0 <= k <= s.len(),
    ensures
        segs_pages_from(s.push(x), k) == segs_pages_from(s, k) + seg_pages(x),
    decreases s.len() - k,
{
    if k < s.len() {
        assert(s.push(x)[k] == s[k]);
        lemma_segs_pages_push(s, x, k + 1);
    } else {
        assert(s.push(x)[k] == x);
        assert(segs_pages_from(s.push(x), k + 1) == 0);
        assert(segs_pages_from(s, k) == 0);
    }
}

/// What `from_elf_segments` builds: one user framed area per segment in
/// order, carrying the segment's permission and its file bytes (zero
/// beyond them), then the user stack above a guard page, the trap-context
/// page, and the trampoline.
pub open spec fn user_space_built(ms: MemorySet, sp: int, segments: Seq<LoadSegment>, elf_data: Seq<u8>, strampoline_ppn: int) -> bool {
    &&& sp == user_sp_of(segments)
    &&& ms.areas@.len() == segments.len() + 2
    &&& forall|k: int| 0 <= k < segments.len() ==> {
        let a = #[trigger] ms.areas@[k];
        &&& a.vpn_start == spec_va_floor(segments[k].vaddr as int)
        &&& a.vpn_end == spec_va_ceil(segments[k].vaddr + segments[k].mem_size)
        &&& a.map_type is Framed
        &&& a.map_perm.bits == seg_perm_bits(segments[k])
        &&& forall|i: int, j: int|
            0 <= i < a.data_frames@.len() && 0 <= j < PAGE_SIZE
            ==> #[trigger] a.data_frames@[i].bytes@[j]
                == if i * (PAGE_SIZE as int) + j < segments[k].file_size {
                    elf_data[segments[k].offset + i * (PAGE_SIZE as int) + j]
                } else {
                    0u8
                }
    }
    &&& ({
        let stack = ms.areas@[segments.len() as int];
        &&& stack.vpn_start == max_end_page(segments) + 1
        &&& stack.vpn_end == max_end_page(segments) + 1 + USER_STACK_SIZE / PAGE_SIZE
        &&& stack.map_type is Framed
        &&& stack.map_perm.bits == 22
    })
    &&& ({
        let trap = ms.areas@.last();
        &&& trap.vpn_start == TRAP_CONTEXT / PAGE_SIZE
        &&& trap.vpn_end == TRAMPOLINE / PAGE_SIZE
        &&& trap.map_type is Framed
        &&& trap.map_perm.bits == 6
    })
    &&& ms.trampoline == Some(spec_va_floor(TRAMPOLINE as int) as u64)
    &&& ms.page_table.spec_mapping(spec_va_floor(TRAMPOLINE as int))
        == Some(PageTableEntry { bits: (strampoline_ppn * 1024 + 11) as u64 })
}

/// The loop relation of the header walk: the whole parse equals the
/// segments collected so far followed by the parse of the remaining
/// headers.
#[verifier::opaque]
pub open spec fn parse_progress(d: Seq<u8>, n: int, phoff: int, i: int, prev_end: int, segs: Seq<LoadSegment>) -> bool {
    spec_parse_from(d, 0, n, phoff, 0)
        == (match spec_parse_from(d, i, n, phoff, prev_end) {
            None => None::<Seq<LoadSegment>>,
            Some(rest) => Some(segs + rest),
        })
}

/// Segment page counts are never negative.
pub proof fn lemma_segs_pages_nonneg(s: Seq<LoadSegment>, k: int)
    requires
        forall|i: int| 0 <= i < s.len()
            ==> (#[trigger] s[i]).vaddr + s[i].mem_size <= 0x4000000000,
    ensures
        segs_pages_from(s, k) >= 0,
    decreases s.len() - k,
{
    if 0 <= k < s.len() {
        let va = s[k].vaddr as int;
        let e = va + s[k].mem_size;
        vstd::arithmetic::div_mod::lemma_div_is_ordered(va, e + (PAGE_SIZE - 1), PAGE_SIZE as int);
        lemma_segs_pages_nonneg(s, k + 1);
    }
}

/// A segment's file bytes fit in the pages its area spans.
pub proof fn lemma_seg_fits(seg: LoadSegment, lo: int, hi: int)
    requires
        lo == spec_va_floor(seg.vaddr as int),
        hi == spec_va_ceil(seg.vaddr + seg.mem_size),
        seg.vaddr + seg.mem_size <= 0x4000000000,
        seg.file_size <= seg.mem_size,
    ensures
        seg.file_size <= (hi - lo) * PAGE_SIZE,
{
    let va = seg.vaddr as int;
    let e = seg.vaddr + seg.mem_size;
    assert(lo * 4096 <= va && e <= hi * 4096 && seg.mem_size <= (hi - lo) * 4096)
        by (nonlinear_arith)
        requires
            0 <= va <= e <= 0x4000000000,
            lo == va / 4096,
            hi == (e + 4095) / 4096,
            seg.mem_size == e - va;
}

/// The permission an mmap `port` asks for: user plus R/W/X from bits 0..2.
pub open spec fn spec_port_perm(port: u64) -> int {
    16 + (if port % 2 == 1 { 2int } else { 0int })
       + (if (port / 2) % 2 == 1 { 4int } else { 0int })
       + (if (port / 4) % 2 == 1 { 8int } else { 0int })
}

impl MemorySet {
    /// Some virtual page of `[lo, hi)` belongs to an existing area.
    pub open spec fn overlaps_range(&self, lo: int, hi: int) -> bool {
        exists|i: int| 0 <= i < self.areas@.len()
            && ranges_overlap(lo, hi, #[trigger] self.areas@[i].vpn_start as int, self.areas@[i].vpn_end as int)
    }

    /// Page `v` belongs to some area.
    pub open spec fn covered(&self, v: int) -> bool {
        exists|i: int| 0 <= i < self.areas@.len() && (#[trigger] self.areas@[i]).contains(v)
    }

    /// Every page of `[lo, hi)` belongs to some area.
    pub open spec fn covers_range(&self, lo: int, hi: int) -> bool {
        forall|v: int| lo <= v < hi ==> self.covered(v)
    }

    pub open spec fn areas_wf(&self) -> bool {
        forall|i: int| 0 <= i < self.areas@.len() ==> {
            &&& (#[trigger] self.areas@[i]).wf()
            &&& self.areas@[i].is_mapped()
            &&& self.areas@[i].agrees(&self.page_table)
        }
    }

    /// Map areas are pairwise disjoint in virtual-page space.
    pub open spec fn areas_disjoint(&self) -> bool {
        forall|i: int, j: int| 0 <= i < self.areas@.len() && 0 <= j < self.areas@.len() && i != j
            ==> !ranges_overlap(
                    (#[trigger] self.areas@[i]).vpn_start as int, self.areas@[i].vpn_end as int,
                    (#[trigger] self.areas@[j]).vpn_start as int, self.areas@[j].vpn_end as int)
    }

    /// Every valid mapping is accounted for: it belongs to an area or it is
    /// the trampoline.
    pub open spec fn mappings_accounted(&self) -> bool {
        forall|v: int| 0 <= v < VPN_LIMIT && #[trigger] self.page_table.spec_mapping(v) is Some
            ==> self.covered(v) || self.trampoline == Some(v as u64)
    }

    pub open spec fn trampoline_wf(&self) -> bool {
        self.trampoline is Some ==> {
            &&& self.trampoline.unwrap() < VPN_LIMIT
            &&& self.page_table.spec_mapping(self.trampoline.unwrap() as int) is Some
            &&& !self.covered(self.trampoline.unwrap() as int)
        }
    }

    pub open spec fn wf(&self) -> bool {
        &&& self.page_table.wf()
        &&& self.areas_wf()
        &&& self.areas_disjoint()
        &&& self.mappings_accounted()
        &&& self.trampoline_wf()
    }

    /// An empty space: fresh page table, no areas, no trampoline. Consumes
    /// one frame for the page-table root.
    pub fn new_bare(alloc: &mut FrameAllocator) -> (r: MemorySet)
        requires
            old(alloc).wf(),
            old(alloc).avail() >= 1,
        ensures
            final(alloc).wf(),
            r.wf(),
            r.areas@.len() == 0,
            r.trampoline is None,
            forall|v: int| 0 <= v < VPN_LIMIT ==> #[trigger] r.page_table.spec_mapping(v) is None,
            final(alloc).end == old(alloc).end,
            final(alloc).next == old(alloc).next + 1,
    {
        let pt = PageTable::new(alloc).unwrap();
        MemorySet { page_table: pt, areas: Vec::new(), trampoline: None }
    }

    /// The `satp` token selecting this space.
    pub fn token(&self) -> (r: u64)
        requires
            self.wf(),
        ensures
            r == 0x8000000000000000u64 + self.page_table.spec_root_ppn(),
    {
        self.page_table.token()
    }

    /// Whether the page holding `addr` is currently mapped.
    pub fn mapped(&self, addr: u64) -> (r: bool)
        requires
            self.wf(),
        ensures
            r == (self.page_table.spec_mapping(spec_va_floor(addr as int)) is Some),
    {
        let vpn = VirtAddr(addr).floor();
        self.page_table.translate(vpn).is_some()
    }

    /// The leaf entry for `vpn`, if one is mapped.
    pub fn translate(&self, vpn: VirtPageNum) -> (r: Option<PageTableEntry>)
        requires
            self.wf(),
            vpn.0 < VPN_LIMIT,
        ensures
            r == self.page_table.spec_mapping(vpn.0 as int),
    {
        self.page_table.translate(vpn)
    }

    /// Map the trampoline page to the physical page holding its code,
    /// readable and executable, supervisor only.
    pub fn map_trampoline(&mut self, strampoline_ppn: PhysPageNum, alloc: &mut FrameAllocator)
        requires
            old(self).wf(),
            old(alloc).wf(),
            old(self).trampoline is None,
            strampoline_ppn.0 < crate::config::PPN_LIMIT,
            old(self).page_table.spec_mapping(spec_va_floor(TRAMPOLINE as int)) is None,
            old(alloc).avail() >= 2,
        ensures
            final(self).wf(),
            final(alloc).wf(),
            final(self).areas == old(self).areas,
            final(self).trampoline == Some(spec_va_floor(TRAMPOLINE as int) as u64),
            final(self).page_table.spec_mapping(spec_va_floor(TRAMPOLINE as int))
                == Some(PageTableEntry { bits: (strampoline_ppn.0 * 1024 + 11) as u64 }),
            forall|v: int| 0 <= v < VPN_LIMIT && v != spec_va_floor(TRAMPOLINE as int) ==>
                #[trigger] final(self).page_table.spec_mapping(v)
                    == old(self).page_table.spec_mapping(v),
            final(alloc).end == old(alloc).end,
            old(alloc).next <= final(alloc).next <= old(alloc).next + 2,
    {
        let vpn = VirtAddr(TRAMPOLINE).floor();
        let ok = self.page_table.map(vpn, strampoline_ppn, 2 + 8, alloc);
        self.trampoline = Some(vpn.0);
        proof {
            assert forall|i: int| 0 <= i < self.areas@.len() implies {
                &&& (#[trigger] self.areas@[i]).wf()
                &&& self.areas@[i].is_mapped()
                &&& self.areas@[i].agrees(&self.page_table)
            } by {
                assert(self.areas@[i].wf() && self.areas@[i].is_mapped());
                assert forall|v: int| self.areas@[i].vpn_start <= v < self.areas@[i].vpn_end implies
                    #[trigger] self.page_table.spec_mapping(v)
                        == Some(PageTableEntry { bits: self.areas@[i].spec_pte_bits(v) as u64 }) by {
                    assert(old(self).page_table.spec_mapping(v)
                        == Some(PageTableEntry { bits: self.areas@[i].spec_pte_bits(v) as u64 }));
                    assert(v != vpn.0 as int);
                }
            }
        }
    }

    /// Map a fresh framed area over `[floor(start_va), ceil(end_va))`,
    /// optionally copying `data` into its first bytes. The range must be
    /// entirely unmapped and enough frames must be available.
    fn push(&mut self, map_area: MapArea, data: Option<&[u8]>, alloc: &mut FrameAllocator)
        requires
            old(self).wf(),
            old(alloc).wf(),
            map_area.wf(),
            map_area.is_unmapped(),
            forall|v: int| map_area.contains(v)
                ==> #[trigger] old(self).page_table.spec_mapping(v) is None,
            old(alloc).avail() >= 3 * map_area.spec_len(),
            data is Some ==> map_area.map_type is Framed
                && data.unwrap()@.len() <= map_area.spec_len() * PAGE_SIZE,
        ensures
            final(self).wf(),
            final(alloc).wf(),
            final(self).trampoline == old(self).trampoline,
            final(self).areas@.len() == old(self).areas@.len() + 1,
            final(self).areas@.subrange(0, old(self).areas@.len() as int) == old(self).areas@,
            ({
                let a = final(self).areas@.last();
                &&& a.vpn_start == map_area.vpn_start
                &&& a.vpn_end == map_area.vpn_end
                &&& a.map_type == map_area.map_type
                &&& a.map_perm == map_area.map_perm
                &&& a.is_mapped()
                &&& a.map_type is Framed ==> {
                    &&& a.data_frames@.len() == a.spec_len()
                    &&& forall|i: int, j: int|
                        0 <= i < a.data_frames@.len() && 0 <= j < PAGE_SIZE
                        ==> #[trigger] a.data_frames@[i].bytes@[j]
                            == if data is Some && i * (PAGE_SIZE as int) + j < data.unwrap()@.len() {
                                data.unwrap()@[i * (PAGE_SIZE as int) + j]
                            } else {
                                0u8
                            }
                }
            }),
            forall|v: int| map_area.contains(v)
                ==> #[trigger] final(self).page_table.spec_mapping(v)
                    == Some(PageTableEntry { bits: final(self).areas@.last().spec_pte_bits(v) as u64 }),
            forall|v: int| 0 <= v < VPN_LIMIT && !map_area.contains(v) ==>
                #[trigger] final(self).page_table.spec_mapping(v)
                    == old(self).page_table.spec_mapping(v),
            final(alloc).end == old(alloc).end,
            old(alloc).next <= final(alloc).next <= old(alloc).next + 3 * map_area.spec_len(),
    {
        let mut map_area = map_area;
        let _ = map_area.map(&mut self.page_table, alloc);
        match data {
            Some(d) => {
                map_area.copy_data(d);
            }
            None => {}
        }
        let ghost a = map_area;
        self.areas.push(map_area);
        proof {
            assert(self.areas@.last() == a);
            assert(self.areas@.subrange(0, old(self).areas@.len() as int) == old(self).areas@);
            assert forall|i: int| 0 <= i < self.areas@.len() implies {
                &&& (#[trigger] self.areas@[i]).wf()
                &&& self.areas@[i].is_mapped()
                &&& self.areas@[i].agrees(&self.page_table)
            } by {
                if i < old(self).areas@.len() {
                    assert(self.areas@[i] == old(self).areas@[i]);
                    assert(old(self).areas@[i].agrees(&old(self).page_table));
                    assert forall|v: int| self.areas@[i].vpn_start <= v < self.areas@[i].vpn_end implies
                        #[trigger] self.page_table.spec_mapping(v)
                            == Some(PageTableEntry { bits: self.areas@[i].spec_pte_bits(v) as u64 }) by {
                        assert(old(self).page_table.spec_mapping(v)
                            == Some(PageTableEntry { bits: self.areas@[i].spec_pte_bits(v) as u64 }));
                        assert(!a.contains(v));
                    }
                } else {
                    assert(self.areas@[i] == a);
                    assert forall|v: int| a.vpn_start <= v < a.vpn_end implies
                        #[trigger] self.page_table.spec_mapping(v)
                            == Some(PageTableEntry { bits: a.spec_pte_bits(v) as u64 }) by {
                    }
                }
            }
            let n = old(self).areas@.len() as int;
            assert forall|i: int, j: int|
                0 <= i < self.areas@.len() && 0 <= j < self.areas@.len() && i != j
                implies !ranges_overlap(
                    (#[trigger] self.areas@[i]).vpn_start as int, self.areas@[i].vpn_end as int,
                    (#[trigger] self.areas@[j]).vpn_start as int, self.areas@[j].vpn_end as int) by {
                if i < n && j < n {
                    assert(old(self).areas@[i] == self.areas@[i]);
                    assert(old(self).areas@[j] == self.areas@[j]);
                } else {
                    let k = if i == n { j } else { i };
                    assert(self.areas@[k] == old(self).areas@[k]);
                    let ko = old(self).areas@[k];
                    if ranges_overlap(a.vpn_start as int, a.vpn_end as int,
                            ko.vpn_start as int, ko.vpn_end as int) {
                        let v = vstd::math::max(a.vpn_start as int, ko.vpn_start as int);
                        assert(a.contains(v) && ko.contains(v));
                        assert(old(self).areas@[k].agrees(&old(self).page_table));
                        assert(old(self).page_table.spec_mapping(v) is Some);
                        assert(old(self).page_table.spec_mapping(v) is None);
                    }
                }
            }
            assert forall|v: int| 0 <= v < VPN_LIMIT
                && #[trigger] self.page_table.spec_mapping(v) is Some
                implies self.covered(v) || self.trampoline == Some(v as u64) by {
                if a.contains(v) {
                    assert(self.areas@[self.areas@.len() - 1].contains(v));
                } else {
                    assert(old(self).page_table.spec_mapping(v) == self.page_table.spec_mapping(v));
                    if old(self).covered(v) {
                        let i = choose|i: int| 0 <= i < old(self).areas@.len()
                            && (#[trigger] old(self).areas@[i]).contains(v);
                        assert(self.areas@[i].contains(v));
                    }
                }
            }
            assert(self.trampoline_wf()) by {
                if self.trampoline is Some {
                    let t = self.trampoline.unwrap() as int;
                    assert(old(self).page_table.spec_mapping(t) is Some);
                    assert(!a.contains(t));
                    if self.covered(t) {
                        let i = choose|i: int| 0 <= i < self.areas@.len()
                            && (#[trigger] self.areas@[i]).contains(t);
                        assert(i < old(self).areas@.len());
                        assert(old(self).areas@[i] == self.areas@[i]);
                        assert(old(self).covered(t));
                    }
                }
            }
        }
    }

    /// Outcome of a successful `check_and_map`: one new framed area with the
    /// requested range and port permission, everything else untouched.
    pub open spec fn mmap_success(pre: MemorySet, post: MemorySet, lo: int, hi: int, port: u64) -> bool {
        &&& post.areas@.len() == pre.areas@.len() + 1
        &&& post.areas@.subrange(0, pre.areas@.len() as int) == pre.areas@
        &&& post.areas@.last().vpn_start == lo
        &&& post.areas@.last().vpn_end == hi
        &&& post.areas@.last().map_type is Framed
        &&& post.areas@.last().map_perm.bits == spec_port_perm(port)
        &&& post.areas@.last().data_frames@.len() == hi - lo
        &&& forall|i: int, j: int|
                0 <= i < post.areas@.last().data_frames@.len() && 0 <= j < PAGE_SIZE
                ==> #[trigger] post.areas@.last().data_frames@[i].bytes@[j] == 0u8
        &&& post.trampoline == pre.trampoline
        &&& forall|v: int| lo <= v < hi ==> #[trigger] post.page_table.spec_mapping(v) is Some
        &&& forall|v: int| 0 <= v < VPN_LIMIT && !(lo <= v < hi) ==>
                #[trigger] post.page_table.spec_mapping(v) == pre.page_table.spec_mapping(v)
    }

    /// Service an mmap request: reject any request whose page range meets an
    /// existing area (or the trampoline, which user requests may never touch,
    /// or the frame budget); otherwise insert a user framed area over fresh
    /// zeroed frames and return the byte length. The budget asks for three
    /// frames per page, the worst case of the table walk (one data frame and
    /// two table levels); a request can be refused that sharper accounting
    /// of already-present intermediate tables would admit.
    pub fn check_and_map(&mut self, start: u64, len: u64, port: u64, alloc: &mut FrameAllocator) -> (r: i64)
        requires
            old(self).wf(),
            old(alloc).wf(),
            start < VA_LIMIT,
            len < VA_LIMIT - start,
        ensures
            final(self).wf(),
            final(alloc).wf(),
            final(alloc).end == old(alloc).end,
            ({
                let lo = spec_va_floor(start as int);
                let hi = spec_va_ceil(start as int + len);
                if old(self).overlaps_range(lo, hi)
                    || (old(self).trampoline is Some
                        && lo <= old(self).trampoline.unwrap() < hi)
                    || old(alloc).avail() < 3 * (hi - lo) {
                    r == -1 && *final(self) == *old(self) && *final(alloc) == *old(alloc)
                } else {
                    r == len as i64 && Self::mmap_success(*old(self), *final(self), lo, hi, port)
                }
            }),
    {
        let start_va = VirtAddr(start);
        let end_va = VirtAddr(start + len);
        let start_vpn = start_va.floor();
        let end_vpn = end_va.ceil();
        proof {
            let sv = start as int;
            let ev = start as int + len as int;
            assert(spec_va_floor(sv) <= spec_va_ceil(ev)) by (nonlinear_arith)
                requires
                    0 <= sv <= ev < 0x8000000000;
        }
        let ghost lo = start_vpn.0 as int;
        let ghost hi = end_vpn.0 as int;
        let mut i: usize = 0;
        while i < self.areas.len()
            invariant
                self == old(self),
                alloc == old(alloc),
                i <= self.areas@.len(),
                self.wf(),
                alloc.wf(),
                start_vpn.0 == lo,
                end_vpn.0 == hi,
                lo == spec_va_floor(start as int),
                hi == spec_va_ceil(start as int + len),
                forall|k: int| 0 <= k < i ==> !ranges_overlap(lo, hi,
                    (#[trigger] self.areas@[k]).vpn_start as int, self.areas@[k].vpn_end as int),
            decreases self.areas@.len() - i,
        {
            let mapped_start = self.areas[i].vpn_start;
            let mapped_end = self.areas[i].vpn_end;
            let max_start = if start_vpn.0 > mapped_start { start_vpn.0 } else { mapped_start };
            let min_end = if end_vpn.0 < mapped_end { end_vpn.0 } else { mapped_end };
            if max_start < min_end {
                proof {
                    assert(ranges_overlap(lo, hi,
                        self.areas@[i as int].vpn_start as int,
                        self.areas@[i as int].vpn_end as int));
                }
                return -1;
            }
            i += 1;
        }
        match self.trampoline {
            Some(t) => {
                // The trampoline page is mapped but not an area; a request
                // over it would double-map, so it is rejected here.
                if start_vpn.0 <= t && t < end_vpn.0 {
                    return -1;
                }
            }
            None => {}
        }
        let pages = end_vpn.0 - start_vpn.0;
        if alloc.end - alloc.next < 3 * pages {
            return -1;
        }
        let perm = MapPermission::new(
            port % 2 == 1,
            (port / 2) % 2 == 1,
            (port / 4) % 2 == 1,
            true,
        );
        proof {
            assert(perm.bits == spec_port_perm(port));
            assert forall|v: int| lo <= v < hi implies
                #[trigger] self.page_table.spec_mapping(v) is None by {
                if self.page_table.spec_mapping(v) is Some {
                    assert(self.covered(v) || self.trampoline == Some(v as u64));
                    if self.covered(v) {
                        let k = choose|k: int| 0 <= k < self.areas@.len()
                            && (#[trigger] self.areas@[k]).contains(v);
                        assert(ranges_overlap(lo, hi,
                            self.areas@[k].vpn_start as int, self.areas@[k].vpn_end as int));
                    }
                }
            }
        }
        self.insert_framed_area(start_va, end_va, perm, alloc);
        len as i64
    }

    /// Service an munmap request: every page of the range must be covered by
    /// some area; then every area meeting the range is unmapped and dropped
    /// whole (an area reaching beyond the range goes with it), and the byte
    /// length is returned.
    pub fn check_and_unmap(&mut self, start: u64, len: u64) -> (r: i64)
        requires
            old(self).wf(),
            start < VA_LIMIT,
            len < VA_LIMIT - start,
        ensures
            final(self).wf(),
            ({
                let lo = spec_va_floor(start as int);
                let hi = spec_va_ceil(start as int + len);
                if !old(self).covers_range(lo, hi) {
                    r == -1 && *final(self) == *old(self)
                } else {
                    &&& r == len as i64
                    &&& final(self).areas@ == keep_areas(old(self).areas@, lo, hi)
                    &&& final(self).trampoline == old(self).trampoline
                    &&& forall|v: int| 0 <= v < VPN_LIMIT ==>
                        #[trigger] final(self).page_table.spec_mapping(v)
                            == if removed_covers(old(self).areas@, lo, hi, v) {
                                None
                            } else {
                                old(self).page_table.spec_mapping(v)
                            }
                }
            }),
    {
        let start_vpn = VirtAddr(start).floor();
        let end_vpn = VirtAddr(start + len).ceil();
        let ghost lo = start_vpn.0 as int;
        let ghost hi = end_vpn.0 as int;
        let mut vpn: u64 = start_vpn.0;
        while vpn < end_vpn.0
            invariant
                self == old(self),
                self.wf(),
                start_vpn.0 == lo,
                end_vpn.0 == hi,
                lo == spec_va_floor(start as int),
                hi == spec_va_ceil(start as int + len),
                lo <= vpn,
                forall|v: int| lo <= v < vpn ==> old(self).covered(v),
            decreases hi - vpn,
        {
            let mut found = false;
            let mut i: usize = 0;
            while i < self.areas.len()
                invariant
                    self == old(self),
                    self.wf(),
                    i <= self.areas@.len(),
                    found ==> self.covered(vpn as int),
                    !found ==> forall|k: int| 0 <= k < i
                        ==> !(#[trigger] self.areas@[k]).contains(vpn as int),
                decreases self.areas@.len() - i,
            {
                if self.areas[i].vpn_start <= vpn && vpn < self.areas[i].vpn_end {
                    found = true;
                    proof {
                        assert(self.areas@[i as int].contains(vpn as int));
                    }
                }
                i += 1;
            }
            if !found {
                proof {
                    assert(!old(self).covered(vpn as int));
                }
                return -1;
            }
            vpn += 1;
        }
        let ghost orig = self.areas@;
        let ghost orig_pt = self.page_table;
        let mut i: usize = self.areas.len();
        while i > 0
            invariant
                self.page_table.wf(),
                0 <= i <= orig.len(),
                orig == old(self).areas@,
                self.trampoline == old(self).trampoline,
                start_vpn.0 == lo,
                end_vpn.0 == hi,
                lo == spec_va_floor(start as int),
                hi == spec_va_ceil(start as int + len),
                self.areas@ == orig.subrange(0, i as int) + keep_areas(orig.subrange(i as int, orig.len() as int), lo, hi),
                forall|v: int| 0 <= v < VPN_LIMIT ==>
                    #[trigger] self.page_table.spec_mapping(v)
                        == if removed_covers(orig.subrange(i as int, orig.len() as int), lo, hi, v) {
                            None
                        } else {
                            orig_pt.spec_mapping(v)
                        },
                orig_pt == old(self).page_table,
                self.areas_wf(),
                self.areas_disjoint(),
                self.mappings_accounted(),
                self.trampoline_wf(),
            decreases i,
        {
            i -= 1;
            let a_start = self.areas[i].vpn_start;
            let a_end = self.areas[i].vpn_end;
            let max_start = if start_vpn.0 > a_start { start_vpn.0 } else { a_start };
            let min_end = if end_vpn.0 < a_end { end_vpn.0 } else { a_end };
            let ghost pre_areas = self.areas@;
            let ghost pre_pt = self.page_table;
            proof {
                assert(orig.subrange(i as int, orig.len() as int)
                    =~= seq![orig[i as int]] + orig.subrange(i as int + 1, orig.len() as int));
                assert(orig.subrange(i as int, orig.len() as int).subrange(1, orig.len() - i as int)
                    =~= orig.subrange(i as int + 1, orig.len() as int));
                assert(self.areas@[i as int] == orig[i as int]);
                reveal_with_fuel(keep_areas, 2);
            }
            if max_start < min_end {
                let mut area = self.areas.remove(i);
                area.unmap(&mut self.page_table);
                proof {
                    let tail = orig.subrange(i as int + 1, orig.len() as int);
                    assert(self.areas@ =~= orig.subrange(0, i as int) + keep_areas(tail, lo, hi));
                    assert forall|v: int| 0 <= v < VPN_LIMIT implies
                        #[trigger] self.page_table.spec_mapping(v)
                            == if removed_covers(orig.subrange(i as int, orig.len() as int), lo, hi, v) {
                                None::<PageTableEntry>
                            } else {
                                orig_pt.spec_mapping(v)
                            } by {
                        let s = orig.subrange(i as int, orig.len() as int);
                        if orig[i as int].contains(v) {
                            assert(ranges_overlap(s[0].vpn_start as int, s[0].vpn_end as int, lo, hi));
                            assert(removed_covers(s, lo, hi, v));
                        } else {
                            assert(self.page_table.spec_mapping(v) == pre_pt.spec_mapping(v));
                            if removed_covers(s, lo, hi, v) {
                                let j = choose|j: int| 0 <= j < s.len()
                                    && ranges_overlap((#[trigger] s[j]).vpn_start as int, s[j].vpn_end as int, lo, hi)
                                    && s[j].contains(v);
                                assert(j != 0);
                                assert(s[j] == tail[j - 1]);
                                assert(removed_covers(tail, lo, hi, v));
                            }
                            if removed_covers(tail, lo, hi, v) {
                                let j = choose|j: int| 0 <= j < tail.len()
                                    && ranges_overlap((#[trigger] tail[j]).vpn_start as int, tail[j].vpn_end as int, lo, hi)
                                    && tail[j].contains(v);
                                assert(s[j + 1] == tail[j]);
                                assert(removed_covers(s, lo, hi, v));
                            }
                        }
                    }
                    assert forall|k: int| 0 <= k < self.areas@.len() implies {
                        &&& (#[trigger] self.areas@[k]).wf()
                        &&& self.areas@[k].is_mapped()
                        &&& self.areas@[k].agrees(&self.page_table)
                    } by {
                        assert(self.areas@[k] == pre_areas.remove(i as int)[k]);
                        let ko = if k < i as int { k } else { k + 1 };
                        assert(self.areas@[k] == pre_areas[ko]);
                        assert(pre_areas[ko].agrees(&pre_pt));
                        assert(!ranges_overlap(
                            pre_areas[ko].vpn_start as int, pre_areas[ko].vpn_end as int,
                            orig[i as int].vpn_start as int, orig[i as int].vpn_end as int));
                        assert forall|v: int| self.areas@[k].vpn_start <= v < self.areas@[k].vpn_end implies
                            #[trigger] self.page_table.spec_mapping(v)
                                == Some(PageTableEntry { bits: self.areas@[k].spec_pte_bits(v) as u64 }) by {
                            assert(!orig[i as int].contains(v));
                        }
                    }
                    assert forall|v: int| 0 <= v < VPN_LIMIT
                        && #[trigger] self.page_table.spec_mapping(v) is Some
                        implies self.covered(v) || self.trampoline == Some(v as u64) by {
                        if pre_pt.spec_mapping(v) is Some && !(self.trampoline == Some(v as u64)) {
                            let k = choose|k: int| 0 <= k < pre_areas.len()
                                && (#[trigger] pre_areas[k]).contains(v);
                            if k == i as int {
                                assert(orig[i as int].contains(v));
                                assert(self.page_table.spec_mapping(v) is None);
                            } else {
                                let kn = if k < i as int { k } else { k - 1 };
                                assert(self.areas@[kn] == pre_areas[k]);
                                assert(self.covered(v));
                            }
                        }
                    }
                    assert(self.trampoline_wf()) by {
                        if self.trampoline is Some {
                            let t = self.trampoline.unwrap() as int;
                            assert(!orig[i as int].contains(t));
                            if self.covered(t) {
                                let k = choose|k: int| 0 <= k < self.areas@.len()
                                    && (#[trigger] self.areas@[k]).contains(t);
                                let ko = if k < i as int { k } else { k + 1 };
                                assert(pre_areas[ko].contains(t));
                            }
                        }
                    }
                }
            } else {
                proof {
                    let tail = orig.subrange(i as int + 1, orig.len() as int);
                    assert(keep_areas(orig.subrange(i as int, orig.len() as int), lo, hi)
                        =~= seq![orig[i as int]] + keep_areas(tail, lo, hi));
                    assert(self.areas@ =~= orig.subrange(0, i as int)
                        + (seq![orig[i as int]] + keep_areas(tail, lo, hi)));
                    assert forall|v: int| 0 <= v < VPN_LIMIT implies
                        (removed_covers(orig.subrange(i as int, orig.len() as int), lo, hi, v)
                            == removed_covers(tail, lo, hi, v)) by {
                        let s = orig.subrange(i as int, orig.len() as int);
                        if removed_covers(s, lo, hi, v) {
                            let j = choose|j: int| 0 <= j < s.len()
                                && ranges_overlap((#[trigger] s[j]).vpn_start as int, s[j].vpn_end as int, lo, hi)
                                && s[j].contains(v);
                            assert(j != 0);
                            assert(s[j] == tail[j - 1]);
                            assert(removed_covers(tail, lo, hi, v));
                        }
                        if removed_covers(tail, lo, hi, v) {
                            let j = choose|j: int| 0 <= j < tail.len()
                                && ranges_overlap((#[trigger] tail[j]).vpn_start as int, tail[j].vpn_end as int, lo, hi)
                                && tail[j].contains(v);
                            assert(s[j + 1] == tail[j]);
                            assert(removed_covers(s, lo, hi, v));
                        }
                    }
                }
            }
        }
        proof {
            assert(orig.subrange(0, orig.len() as int) =~= orig);
            assert(self.areas@ =~= keep_areas(orig, lo, hi));
        }
        len as i64
    }

    /// Append one identity-mapped, page-aligned kernel section.
    fn push_section(&mut self, start: u64, end: u64, perm: MapPermission, alloc: &mut FrameAllocator)
        requires
            old(self).wf(),
            old(alloc).wf(),
            perm.wf(),
            start % PAGE_SIZE == 0,
            end % PAGE_SIZE == 0,
            start <= end <= MEMORY_END,
            forall|v: int| start / PAGE_SIZE <= v < end / PAGE_SIZE
                ==> #[trigger] old(self).page_table.spec_mapping(v) is None,
            old(alloc).avail() >= 3 * (end / PAGE_SIZE - start / PAGE_SIZE),
        ensures
            final(self).wf(),
            final(alloc).wf(),
            final(self).trampoline == old(self).trampoline,
            final(self).areas@.len() == old(self).areas@.len() + 1,
            final(self).areas@.subrange(0, old(self).areas@.len() as int) == old(self).areas@,
            final(self).areas@.last().vpn_start == start / PAGE_SIZE,
            final(self).areas@.last().vpn_end == end / PAGE_SIZE,
            final(self).areas@.last().map_type is Identical,
            final(self).areas@.last().map_perm == perm,
            forall|v: int| start / PAGE_SIZE <= v < end / PAGE_SIZE
                ==> #[trigger] final(self).page_table.spec_mapping(v) is Some,
            forall|v: int| 0 <= v < VPN_LIMIT && !(start / PAGE_SIZE <= v < end / PAGE_SIZE) ==>
                #[trigger] final(self).page_table.spec_mapping(v)
                    == old(self).page_table.spec_mapping(v),
            final(alloc).end == old(alloc).end,
            old(alloc).next <= final(alloc).next
                <= old(alloc).next + 3 * (end / PAGE_SIZE - start / PAGE_SIZE),
    {
        proof {
            vstd::arithmetic::div_mod::lemma_div_is_ordered(start as int, end as int, 4096);
            assert(spec_va_floor(start as int) == start / PAGE_SIZE);
            assert(spec_va_ceil(end as int) == end / PAGE_SIZE);
        }
        self.push(MapArea::new(
            VirtAddr(start),
            VirtAddr(end),
            MapType::Identical,
            perm,
        ), None, alloc);
    }

    /// Identity-map the kernel image and the physical-memory tail, and map
    /// the trampoline: .text readable and executable, .rodata readable,
    /// .data and .bss readable and writable, and `[ekernel, MEMORY_END)`
    /// readable and writable for the kernel heap.
    #[verifier::rlimit(100)]
    pub fn new_kernel(layout: &KernelLayout, alloc: &mut FrameAllocator) -> (r: MemorySet)
        requires
            old(alloc).wf(),
            layout.wf(),
            old(alloc).avail() >= 3 + 3 * layout.total_pages(),
        ensures
            final(alloc).wf(),
            r.wf(),
            r.areas@.len() == 5,
            kernel_sections(&r, layout),
            r.trampoline == Some(spec_va_floor(TRAMPOLINE as int) as u64),
            r.page_table.spec_mapping(spec_va_floor(TRAMPOLINE as int))
                == Some(PageTableEntry { bits: (layout.strampoline_ppn * 1024 + 11) as u64 }),
    {
        proof {
            vstd::arithmetic::div_mod::lemma_div_is_ordered(layout.stext as int, layout.etext as int, 4096);
            vstd::arithmetic::div_mod::lemma_div_is_ordered(layout.etext as int, layout.srodata as int, 4096);
            vstd::arithmetic::div_mod::lemma_div_is_ordered(layout.srodata as int, layout.erodata as int, 4096);
            vstd::arithmetic::div_mod::lemma_div_is_ordered(layout.erodata as int, layout.sdata as int, 4096);
            vstd::arithmetic::div_mod::lemma_div_is_ordered(layout.sdata as int, layout.edata as int, 4096);
            vstd::arithmetic::div_mod::lemma_div_is_ordered(layout.edata as int, layout.sbss as int, 4096);
            vstd::arithmetic::div_mod::lemma_div_is_ordered(layout.sbss as int, layout.ebss as int, 4096);
            vstd::arithmetic::div_mod::lemma_div_is_ordered(layout.ebss as int, layout.ekernel as int, 4096);
            vstd::arithmetic::div_mod::lemma_div_is_ordered(layout.ekernel as int, MEMORY_END as int, 4096);
        }
        let mut memory_set = Self::new_bare(alloc);
        memory_set.map_trampoline(PhysPageNum(layout.strampoline_ppn), alloc);
        proof {
            assert forall|v: int| layout.stext / PAGE_SIZE <= v < layout.etext / PAGE_SIZE
                implies #[trigger] memory_set.page_table.spec_mapping(v) is None by {
                assert(v < MEMORY_END / PAGE_SIZE < spec_va_floor(TRAMPOLINE as int));
            }
        }
        memory_set.push_section(layout.stext, layout.etext,
            MapPermission::new(true, false, true, false), alloc);
        proof {
            assert forall|v: int| layout.srodata / PAGE_SIZE <= v < layout.erodata / PAGE_SIZE
                implies #[trigger] memory_set.page_table.spec_mapping(v) is None by {
                assert(v < MEMORY_END / PAGE_SIZE < spec_va_floor(TRAMPOLINE as int));
            }
        }
        memory_set.push_section(layout.srodata, layout.erodata,
            MapPermission::new(true, false, false, false), alloc);
        proof {
            assert forall|v: int| layout.sdata / PAGE_SIZE <= v < layout.edata / PAGE_SIZE
                implies #[trigger] memory_set.page_table.spec_mapping(v) is None by {
                assert(v < MEMORY_END / PAGE_SIZE < spec_va_floor(TRAMPOLINE as int));
            }
        }
        memory_set.push_section(layout.sdata, layout.edata,
            MapPermission::new(true, true, false, false), alloc);
        proof {
            assert forall|v: int| layout.sbss / PAGE_SIZE <= v < layout.ebss / PAGE_SIZE
                implies #[trigger] memory_set.page_table.spec_mapping(v) is None by {
                assert(v < MEMORY_END / PAGE_SIZE < spec_va_floor(TRAMPOLINE as int));
            }
        }
        memory_set.push_section(layout.sbss, layout.ebss,
            MapPermission::new(true, true, false, false), alloc);
        proof {
            assert forall|v: int| layout.ekernel / PAGE_SIZE <= v < MEMORY_END / PAGE_SIZE
                implies #[trigger] memory_set.page_table.spec_mapping(v) is None by {
                assert(v < MEMORY_END / PAGE_SIZE < spec_va_floor(TRAMPOLINE as int));
            }
        }
        memory_set.push_section(layout.ekernel, MEMORY_END,
            MapPermission::new(true, true, false, false), alloc);
        memory_set
    }

    /// Above the loaded image: a guard page, the user stack, and the
    /// trap-context page just below the trampoline. Returns the initial
    /// user stack pointer.
    fn finish_user_space(&mut self, max_end_vpn: u64, alloc: &mut FrameAllocator) -> (r: u64)
        requires
            old(self).wf(),
            old(alloc).wf(),
            max_end_vpn <= 0x4000000,
            forall|i: int| 0 <= i < old(self).areas@.len()
                ==> (#[trigger] old(self).areas@[i]).vpn_end <= max_end_vpn,
            old(self).trampoline == Some(spec_va_floor(TRAMPOLINE as int) as u64),
            old(alloc).avail() >= 9,
        ensures
            final(self).wf(),
            final(alloc).wf(),
            final(self).trampoline == old(self).trampoline,
            forall|v: int| 0 <= v < VPN_LIMIT && v < max_end_vpn ==>
                #[trigger] final(self).page_table.spec_mapping(v)
                    == old(self).page_table.spec_mapping(v),
            final(self).page_table.spec_mapping(spec_va_floor(TRAMPOLINE as int))
                == old(self).page_table.spec_mapping(spec_va_floor(TRAMPOLINE as int)),
            final(self).areas@.len() == old(self).areas@.len() + 2,
            final(self).areas@.subrange(0, old(self).areas@.len() as int) == old(self).areas@,
            ({
                let stack = final(self).areas@[old(self).areas@.len() as int];
                &&& stack.vpn_start == max_end_vpn + 1
                &&& stack.vpn_end == max_end_vpn + 1 + USER_STACK_SIZE / PAGE_SIZE
                &&& stack.map_type is Framed
                &&& stack.map_perm.bits == 22
            }),
            ({
                let trap = final(self).areas@.last();
                &&& trap.vpn_start == TRAP_CONTEXT / PAGE_SIZE
                &&& trap.vpn_end == TRAMPOLINE / PAGE_SIZE
                &&& trap.map_type is Framed
                &&& trap.map_perm.bits == 6
            }),
            r == (max_end_vpn + 1) * PAGE_SIZE + USER_STACK_SIZE,
    {
        let max_end_va = max_end_vpn * PAGE_SIZE;
        let user_stack_bottom = max_end_va + PAGE_SIZE;
        let user_stack_top = user_stack_bottom + USER_STACK_SIZE;
        proof {
            assert(spec_va_floor(user_stack_bottom as int) == max_end_vpn + 1);
            assert(spec_va_ceil(user_stack_top as int) == max_end_vpn + 3);
            assert forall|v: int| max_end_vpn + 1 <= v < max_end_vpn + 3
                implies #[trigger] self.page_table.spec_mapping(v) is None by {
                if self.page_table.spec_mapping(v) is Some {
                    assert(self.covered(v) || self.trampoline == Some(v as u64));
                    if self.covered(v) {
                        let i = choose|i: int| 0 <= i < self.areas@.len()
                            && (#[trigger] self.areas@[i]).contains(v);
                        assert(self.areas@[i].vpn_end <= max_end_vpn);
                    }
                    assert(v < spec_va_floor(TRAMPOLINE as int));
                }
            }
        }
        let ghost mid_areas = self.areas@;
        self.push(MapArea::new(
            VirtAddr(user_stack_bottom),
            VirtAddr(user_stack_top),
            MapType::Framed,
            MapPermission::new(true, true, false, true),
        ), None, alloc);
        proof {
            assert(spec_va_floor(TRAP_CONTEXT as int) == TRAP_CONTEXT / PAGE_SIZE);
            assert(spec_va_ceil(TRAMPOLINE as int) == TRAMPOLINE / PAGE_SIZE);
            assert forall|v: int| TRAP_CONTEXT / PAGE_SIZE <= v < TRAMPOLINE / PAGE_SIZE
                implies #[trigger] self.page_table.spec_mapping(v) is None by {
                if self.page_table.spec_mapping(v) is Some {
                    assert(self.covered(v) || self.trampoline == Some(v as u64));
                    if self.covered(v) {
                        let i = choose|i: int| 0 <= i < self.areas@.len()
                            && (#[trigger] self.areas@[i]).contains(v);
                        if i < mid_areas.len() {
                            assert(self.areas@[i] == mid_areas[i]);
                            assert(self.areas@[i].vpn_end <= max_end_vpn + 3);
                        } else {
                            assert(self.areas@[i].vpn_end <= max_end_vpn + 3);
                        }
                    }
                    assert(v < spec_va_floor(TRAMPOLINE as int));
                }
            }
        }
        self.push(MapArea::new(
            VirtAddr(TRAP_CONTEXT),
            VirtAddr(TRAMPOLINE),
            MapType::Framed,
            MapPermission::new(true, true, false, false),
        ), None, alloc);
        proof {
            assert(self.areas@.subrange(0, mid_areas.len() as int) =~= mid_areas.subrange(0, mid_areas.len() as int));
            assert(mid_areas.subrange(0, mid_areas.len() as int) =~= mid_areas);
            assert(self.areas@.subrange(0, old(self).areas@.len() as int)
                =~= old(self).areas@);
        }
        user_stack_top
    }

    /// Build a user space from an already-extracted list of loadable
    /// segments: the segments as user framed areas with their own flags, a
    /// guard page, the user stack, and the trap-context page below the
    /// trampoline. Returns the space and the initial user stack pointer.
    #[verifier::rlimit(100)]
    pub fn from_elf_segments(segments: &Vec<LoadSegment>, elf_data: &[u8], strampoline_ppn: PhysPageNum, alloc: &mut FrameAllocator) -> (r: (MemorySet, u64))
        requires
            old(alloc).wf(),
            strampoline_ppn.0 < crate::config::PPN_LIMIT,
            segs_wf(segments@, elf_data@.len() as int),
            old(alloc).avail() >= 12 + 3 * segs_pages_from(segments@, 0),
        ensures
            final(alloc).wf(),
            r.0.wf(),
            user_space_built(r.0, r.1 as int, segments@, elf_data@, strampoline_ppn.0 as int),
    {
        proof {
            lemma_segs_pages_nonneg(segments@, 0);
        }
        let data_len = elf_data.len();
        let mut memory_set = Self::new_bare(alloc);
        memory_set.map_trampoline(strampoline_ppn, alloc);
        let mut max_end_vpn: u64 = 0;
        let mut k: usize = 0;
        while k < segments.len()
            invariant
                memory_set.wf(),
                alloc.wf(),
                segs_wf(segments@, elf_data@.len() as int),
                elf_data@.len() <= usize::MAX,
                k <= segments@.len(),
                memory_set.areas@.len() == k,
                memory_set.trampoline == Some(spec_va_floor(TRAMPOLINE as int) as u64),
                memory_set.page_table.spec_mapping(spec_va_floor(TRAMPOLINE as int))
                    == Some(PageTableEntry { bits: (strampoline_ppn.0 * 1024 + 11) as u64 }),
                max_end_vpn == (if k == 0 { 0int } else {
                    spec_va_ceil(segments@[k - 1].vaddr + segments@[k - 1].mem_size)
                }),
                max_end_vpn <= 0x4000000,
                forall|i: int| 0 <= i < k ==> {
                    let a = #[trigger] memory_set.areas@[i];
                    &&& a.vpn_start == spec_va_floor(segments@[i].vaddr as int)
                    &&& a.vpn_end == spec_va_ceil(segments@[i].vaddr + segments@[i].mem_size)
                    &&& a.vpn_end <= max_end_vpn
                    &&& a.map_type is Framed
                    &&& a.map_perm.bits == seg_perm_bits(segments@[i])
                    &&& forall|x: int, j: int|
                        0 <= x < a.data_frames@.len() && 0 <= j < PAGE_SIZE
                        ==> #[trigger] a.data_frames@[x].bytes@[j]
                            == if x * (PAGE_SIZE as int) + j < segments@[i].file_size {
                                elf_data@[segments@[i].offset + x * (PAGE_SIZE as int) + j]
                            } else {
                                0u8
                            }
                },
                alloc.avail() >= 9 + 3 * segs_pages_from(segments@, k as int),
            decreases segments@.len() - k,
        {
            let seg = segments[k];
            proof {
                assert(segs_pages_from(segments@, k as int)
                    == seg_pages(segments@[k as int]) + segs_pages_from(segments@, k as int + 1));
                assert(segs_pages_from(segments@, k as int + 1) >= 0) by {
                    lemma_segs_pages_nonneg(segments@, k as int + 1);
                }
                vstd::arithmetic::div_mod::lemma_div_is_ordered(
                    seg.vaddr as int, seg.vaddr + seg.mem_size, 4096);
                assert forall|v: int| spec_va_floor(seg.vaddr as int) <= v
                        < spec_va_ceil(seg.vaddr + seg.mem_size)
                    implies #[trigger] memory_set.page_table.spec_mapping(v) is None by {
                    assert(v < spec_va_floor(TRAMPOLINE as int));
                    if memory_set.page_table.spec_mapping(v) is Some {
                        assert(memory_set.covered(v)
                            || memory_set.trampoline == Some(v as u64));
                    }
                }
            }
            let perm = MapPermission::new(seg.readable, seg.writable, seg.executable, true);
            let area = MapArea::new(
                VirtAddr(seg.vaddr),
                VirtAddr(seg.vaddr + seg.mem_size),
                MapType::Framed,
                perm,
            );
            max_end_vpn = VirtAddr(seg.vaddr + seg.mem_size).ceil().0;
            let data = vstd::slice::slice_subrange(
                elf_data,
                seg.offset as usize,
                (seg.offset + seg.file_size) as usize,
            );
            proof {
                lemma_seg_fits(seg, area.vpn_start as int, area.vpn_end as int);
            }
            let ghost pre_areas = memory_set.areas@;
            memory_set.push(area, Some(data), alloc);
            proof {
                assert forall|i: int| 0 <= i < k + 1 implies {
                    let a = #[trigger] memory_set.areas@[i];
                    &&& a.vpn_start == spec_va_floor(segments@[i].vaddr as int)
                    &&& a.vpn_end == spec_va_ceil(segments@[i].vaddr + segments@[i].mem_size)
                    &&& a.vpn_end <= max_end_vpn
                    &&& a.map_type is Framed
                    &&& a.map_perm.bits == seg_perm_bits(segments@[i])
                    &&& forall|x: int, j: int|
                        0 <= x < a.data_frames@.len() && 0 <= j < PAGE_SIZE
                        ==> #[trigger] a.data_frames@[x].bytes@[j]
                            == if x * (PAGE_SIZE as int) + j < segments@[i].file_size {
                                elf_data@[segments@[i].offset + x * (PAGE_SIZE as int) + j]
                            } else {
                                0u8
                            }
                } by {
                    if i < k {
                        assert(memory_set.areas@[i] == pre_areas[i]);
                        assert(segments@[i].vaddr + segments@[i].mem_size
                            <= segments@[k as int].vaddr + segments@[k as int].mem_size);
                    } else {
                        assert(memory_set.areas@[i] == memory_set.areas@.last());
                        assert forall|x: int, j: int|
                            0 <= x < memory_set.areas@[i].data_frames@.len() && 0 <= j < PAGE_SIZE
                            implies #[trigger] memory_set.areas@[i].data_frames@[x].bytes@[j]
                                == if x * (PAGE_SIZE as int) + j < segments@[i].file_size {
                                    elf_data@[segments@[i].offset + x * (PAGE_SIZE as int) + j]
                                } else {
                                    0u8
                                } by {
                            assert(data@ == elf_data@.subrange(
                                seg.offset as int, seg.offset + seg.file_size));
                        }
                    }
                }
            }
            k += 1;
        }
        let ghost loop_areas = memory_set.areas@;
        let user_stack_top = memory_set.finish_user_space(max_end_vpn, alloc);
        proof {
            assert forall|k: int| 0 <= k < segments@.len() implies
                #[trigger] memory_set.areas@[k] == loop_areas[k] by {
                assert(memory_set.areas@.subrange(0, loop_areas.len() as int)[k]
                    == memory_set.areas@[k]);
            }
        }
        (memory_set, user_stack_top)
    }

    /// Read the loadable-segment description at header offset `off` and
    /// check it is acceptable after `prev_end`; reports the segment with
    /// its first and one-past-last page.
    fn read_load_header(elf_data: &[u8], off: usize, prev_end: u64) -> (r: Option<(LoadSegment, u64, u64)>)
        requires
            off + 56 <= elf_data@.len(),
        ensures
            r is Some <==> spec_seg_acceptable(
                elf_data@, spec_seg_at(elf_data@, off as int), prev_end as int),
            r is Some ==> {
                let seg = spec_seg_at(elf_data@, off as int);
                &&& r.unwrap().0 == seg
                &&& r.unwrap().1 == spec_va_floor(seg.vaddr as int)
                &&& r.unwrap().2 == spec_va_ceil(seg.vaddr + seg.mem_size)
                &&& r.unwrap().1 >= prev_end
                &&& r.unwrap().2 <= 0x4000000
            },
    {
        let data_len = elf_data.len();
        let flags = crate::elf::read_le_u32(elf_data, off + 4);
        let p_offset = crate::elf::read_le_u64(elf_data, off + 8);
        let vaddr = crate::elf::read_le_u64(elf_data, off + 16);
        let file_size = crate::elf::read_le_u64(elf_data, off + 32);
        let mem_size = crate::elf::read_le_u64(elf_data, off + 40);
        let seg = LoadSegment {
            vaddr,
            mem_size,
            offset: p_offset,
            file_size,
            readable: flags / 4 % 2 == 1,
            writable: flags / 2 % 2 == 1,
            executable: flags % 2 == 1,
        };
        proof {
            assert(seg == spec_seg_at(elf_data@, off as int));
        }
        if vaddr > 0x4000000000 || mem_size > 0x4000000000 - vaddr {
            return None;
        }
        if file_size > mem_size {
            return None;
        }
        if p_offset > data_len as u64 || file_size > data_len as u64 - p_offset {
            return None;
        }
        let start_vpn = VirtAddr(vaddr).floor();
        let end_vpn = VirtAddr(vaddr + mem_size).ceil();
        if start_vpn.0 < prev_end {
            return None;
        }
        proof {
            vstd::arithmetic::div_mod::lemma_div_is_ordered(
                vaddr as int, vaddr + mem_size + (PAGE_SIZE - 1), PAGE_SIZE as int);
        }
        Some((seg, start_vpn.0, end_vpn.0))
    }

    /// Build a user space straight from a 64-bit little-endian ELF image.
    /// `spec_load_segments` says exactly which images are accepted and what
    /// their loadable segments are; an accepted image with a sufficient
    /// frame budget yields the space `from_elf_segments` describes, the
    /// initial user stack pointer, and the entry point, and anything else
    /// yields nothing with the allocator untouched.
    #[verifier::rlimit(100)]
    pub fn from_elf(elf_data: &[u8], strampoline_ppn: PhysPageNum, alloc: &mut FrameAllocator) -> (r: Option<(MemorySet, u64, u64)>)
        requires
            old(alloc).wf(),
            strampoline_ppn.0 < crate::config::PPN_LIMIT,
        ensures
            final(alloc).wf(),
            r is Some <==> spec_load_segments(elf_data@) is Some
                && old(alloc).avail()
                    >= 12 + 3 * segs_pages_from(spec_load_segments(elf_data@).unwrap(), 0),
            r is Some ==> {
                let segs = spec_load_segments(elf_data@).unwrap();
                &&& r.unwrap().0.wf()
                &&& user_space_built(r.unwrap().0, r.unwrap().1 as int, segs, elf_data@,
                        strampoline_ppn.0 as int)
                &&& r.unwrap().2 == spec_elf_entry(elf_data@)
            },
            r is None ==> *final(alloc) == *old(alloc),
    {
        let data_len = elf_data.len();
        if data_len < 64 {
            return None;
        }
        if elf_data[0] != 0x7f || elf_data[1] != 0x45 || elf_data[2] != 0x4c
            || elf_data[3] != 0x46 || elf_data[4] != 2 {
            return None;
        }
        if crate::elf::read_le_u16(elf_data, 54) != 56 {
            return None;
        }
        let entry = crate::elf::read_le_u64(elf_data, 24);
        let phoff = crate::elf::read_le_u64(elf_data, 32);
        let phnum = crate::elf::read_le_u16(elf_data, 56);
        let ghost d = elf_data@;
        let ghost n = spec_elf_phnum(d);
        let mut segments: Vec<LoadSegment> = Vec::new();
        let mut pages: u64 = 0;
        let mut prev_end: u64 = 0;
        let mut i: u16 = 0;
        proof {
            reveal(parse_progress);
            if spec_parse_from(d, 0, n, phoff as int, 0) is Some {
                assert(Seq::<LoadSegment>::empty()
                    + spec_parse_from(d, 0, n, phoff as int, 0).unwrap()
                    =~= spec_parse_from(d, 0, n, phoff as int, 0).unwrap());
            }
            assert(parse_progress(d, n, phoff as int, 0, 0, Seq::<LoadSegment>::empty()));
        }
        while i < phnum
            invariant
                alloc == old(alloc),
                alloc.wf(),
                elf_data@ == d,
                d.len() == data_len,
                elf_header_ok(d),
                spec_elf_phentsize(d) == 56,
                phoff == spec_elf_phoff(d),
                phnum == n,
                n == spec_elf_phnum(d),
                i <= phnum,
                segments@.len() <= i,
                segs_wf(segments@, data_len as int),
                pages == segs_pages_from(segments@, 0),
                pages <= 0x4000001 * (i as int),
                prev_end == (if segments@.len() == 0 { 0int } else {
                    spec_va_ceil(segments@.last().vaddr + segments@.last().mem_size)
                }),
                prev_end <= 0x4000000,
                parse_progress(d, n, phoff as int, i as int, prev_end as int, segments@),
            decreases phnum - i,
        {
            let ghost pre_segs = segments@;
            let step = (i as u64) * 56;
            let header_fits = phoff < data_len as u64
                && data_len as u64 - phoff >= 56
                && step <= data_len as u64 - phoff - 56;
            if !header_fits {
                proof {
                    reveal(parse_progress);
                    crate::elf::lemma_parse_oob(d, i as int, n, phoff as int, prev_end as int);
                }
                return None;
            }
            let off = (phoff + step) as usize;
            proof {
                assert(off + 56 <= data_len);
            }
            let ptype = crate::elf::read_le_u32(elf_data, off);
            if ptype != 1 {
                proof {
                    reveal(parse_progress);
                    crate::elf::lemma_parse_skip(d, i as int, n, phoff as int, prev_end as int);
                }
            } else {
                let parsed = match Self::read_load_header(elf_data, off, prev_end) {
                    None => {
                        proof {
                            reveal(parse_progress);
                            crate::elf::lemma_parse_load(d, i as int, n, phoff as int, prev_end as int);
                        }
                        return None;
                    }
                    Some(p) => p,
                };
                let (seg, start_page, end_page) = parsed;
                proof {
                    reveal(parse_progress);
                    crate::elf::lemma_parse_load(d, i as int, n, phoff as int, prev_end as int);
                    lemma_segs_pages_push(segments@, seg, 0);
                }
                segments.push(seg);
                proof {
                    assert(segments@ =~= pre_segs.push(seg));
                    assert forall|k: int| 0 <= k < segments@.len() - 1 implies
                        spec_va_ceil((#[trigger] segments@[k]).vaddr + segments@[k].mem_size)
                            <= spec_va_floor(segments@[k + 1].vaddr as int) by {
                        if k < pre_segs.len() - 1 {
                            assert(segments@[k] == pre_segs[k]);
                            assert(segments@[k + 1] == pre_segs[k + 1]);
                        } else {
                            assert(segments@[k] == pre_segs[pre_segs.len() - 1]);
                            assert(segments@[k + 1] == seg);
                        }
                    }
                    let rest_after = spec_parse_from(d, i + 1, n, phoff as int,
                        spec_va_ceil(seg.vaddr + seg.mem_size));
                    if rest_after is Some {
                        assert(pre_segs + (seq![seg] + rest_after.unwrap())
                            =~= segments@ + rest_after.unwrap());
                    }
                }
                                pages = pages + (end_page - start_page);
                prev_end = end_page;
            }
            i += 1;
        }
        proof {
            reveal(parse_progress);
            crate::elf::lemma_parse_done(d, n, n, phoff as int, prev_end as int);
            assert(segments@ + Seq::<LoadSegment>::empty() =~= segments@);
            assert(spec_load_segments(d) == Some(segments@));
            lemma_segs_pages_nonneg(segments@, 0);
        }
        if alloc.end - alloc.next < 12 + 3 * pages {
            return None;
        }
        let (ms, user_sp) = Self::from_elf_segments(&segments, elf_data, strampoline_ppn, alloc);
        Some((ms, user_sp, entry))
    }

    /// The kernel space's own self-check: in the middle of .text and of
    /// .rodata nothing is writable, and in the middle of .data nothing is
    /// executable. On a space built by `new_kernel` this always holds.
    pub fn remap_test(kernel_space: &MemorySet, layout: &KernelLayout) -> (r: bool)
        requires
            kernel_space.wf(),
            layout.wf(),
            kernel_sections(kernel_space, layout),
            layout.stext < layout.etext,
            layout.srodata < layout.erodata,
            layout.sdata < layout.edata,
        ensures
            r == true,
    {
        let mid_text = VirtAddr((layout.stext + layout.etext) / 2);
        let mid_rodata = VirtAddr((layout.srodata + layout.erodata) / 2);
        let mid_data = VirtAddr((layout.sdata + layout.edata) / 2);
        proof {
            Self::lemma_mid_in_section(layout.stext as int, layout.etext as int, mid_text.0 as int);
            Self::lemma_mid_in_section(layout.srodata as int, layout.erodata as int, mid_rodata.0 as int);
            Self::lemma_mid_in_section(layout.sdata as int, layout.edata as int, mid_data.0 as int);
            assert(kernel_space.areas@[0].agrees(&kernel_space.page_table));
            assert(kernel_space.areas@[1].agrees(&kernel_space.page_table));
            assert(kernel_space.areas@[2].agrees(&kernel_space.page_table));
            crate::page_table::lemma_pte_bits_flags(spec_va_floor(mid_text.0 as int), 10);
            crate::page_table::lemma_pte_bits_flags(spec_va_floor(mid_rodata.0 as int), 2);
            crate::page_table::lemma_pte_bits_flags(spec_va_floor(mid_data.0 as int), 6);
        }
        let t = kernel_space.translate(mid_text.floor());
        let ro = kernel_space.translate(mid_rodata.floor());
        let d = kernel_space.translate(mid_data.floor());
        match (t, ro, d) {
            (Some(te), Some(re), Some(de)) => {
                !te.writable() && !re.writable() && !de.executable()
            }
            _ => false,
        }
    }

    /// The middle of a page-aligned nonempty section lies in its pages.
    proof fn lemma_mid_in_section(s: int, e: int, mid: int)
        requires
            0 <= s < e <= MEMORY_END,
            s % (PAGE_SIZE as int) == 0,
            e % (PAGE_SIZE as int) == 0,
            mid == (s + e) / 2,
        ensures
            s / (PAGE_SIZE as int) <= spec_va_floor(mid) < e / (PAGE_SIZE as int),
            spec_va_floor(mid) == mid / (PAGE_SIZE as int),
    {
        assert(s <= mid < e) by (nonlinear_arith)
            requires 0 <= s < e && mid == (s + e) / 2;
        vstd::arithmetic::div_mod::lemma_div_is_ordered(s, mid, 4096);
        vstd::arithmetic::div_mod::lemma_div_is_ordered(mid, e - 1, 4096);
        vstd::arithmetic::div_mod::lemma_fundamental_div_mod_converse(
            e - 1, 4096, e / 4096 - 1, 4095);
    }

    /// In any well-formed address space, two distinct map areas never share
    /// a virtual page: their page ranges are disjoint.
    pub proof fn lemma_areas_disjoint(ms: &MemorySet, i: int, j: int)
        requires
            ms.wf(),
            0 <= i < ms.areas@.len(),
            0 <= j < ms.areas@.len(),
            i != j,
        ensures
            !ranges_overlap(
                ms.areas@[i].vpn_start as int, ms.areas@[i].vpn_end as int,
                ms.areas@[j].vpn_start as int, ms.areas@[j].vpn_end as int),
    {
    }

    /// Every page of an area whose permission carries the read bit is
    /// readable through `translate`: the walk reaches a valid leaf entry
    /// with R (and likewise U) set as the area's permission says. Together
    /// with `from_elf_segments`, every byte of every loaded segment is
    /// readable once the space is built.
    pub proof fn lemma_area_pages_translate(ms: &MemorySet, k: int, v: int)
        requires
            ms.wf(),
            0 <= k < ms.areas@.len(),
            ms.areas@[k].contains(v),
        ensures
            ms.page_table.spec_mapping(v) is Some,
            ms.page_table.spec_mapping(v).unwrap().spec_valid(),
            ms.page_table.spec_mapping(v).unwrap().spec_readable()
                == ms.areas@[k].map_perm.spec_readable(),
            ms.page_table.spec_mapping(v).unwrap().spec_writable()
                == ms.areas@[k].map_perm.spec_writable(),
            ms.page_table.spec_mapping(v).unwrap().spec_executable()
                == ms.areas@[k].map_perm.spec_executable(),
            ms.page_table.spec_mapping(v).unwrap().spec_user()
                == ms.areas@[k].map_perm.spec_user(),
    {
        let a = ms.areas@[k];
        assert(a.agrees(&ms.page_table));
        assert(ms.page_table.spec_mapping(v)
            == Some(PageTableEntry { bits: a.spec_pte_bits(v) as u64 }));
        assert(a.spec_ppn_for(v) >= 0) by {
            if a.map_type is Framed {
                assert(a.data_frames@[v - a.vpn_start].wf());
            }
        }
        crate::page_table::lemma_pte_bits_flags(a.spec_ppn_for(v), a.map_perm.bits as int);
        assert(a.spec_ppn_for(v) * 1024 + a.map_perm.bits + 1 < 0x10000000000000000) by {
            if a.map_type is Framed {
                assert(a.data_frames@[v - a.vpn_start].wf());
            }
            assert(a.spec_ppn_for(v) < crate::config::PPN_LIMIT);
        }
    }

    /// Mapping a fresh range and then unmapping exactly that range restores
    /// the address space: the area list and every page mapping return to
    /// their prior state.
    pub proof fn lemma_mmap_munmap_roundtrip(pre: MemorySet, mid: MemorySet, post: MemorySet, lo: int, hi: int, port: u64)
        requires
            pre.wf(),
            lo < hi,
            !pre.overlaps_range(lo, hi),
            !(pre.trampoline is Some && lo <= pre.trampoline.unwrap() < hi),
            Self::mmap_success(pre, mid, lo, hi, port),
            post.areas@ == keep_areas(mid.areas@, lo, hi),
            post.trampoline == mid.trampoline,
            forall|v: int| 0 <= v < VPN_LIMIT ==>
                #[trigger] post.page_table.spec_mapping(v)
                    == if removed_covers(mid.areas@, lo, hi, v) {
                        None
                    } else {
                        mid.page_table.spec_mapping(v)
                    },
        ensures
            post.areas@ == pre.areas@,
            post.trampoline == pre.trampoline,
            forall|v: int| 0 <= v < VPN_LIMIT ==>
                #[trigger] post.page_table.spec_mapping(v) == pre.page_table.spec_mapping(v),
    {
        let n = pre.areas@.len() as int;
        assert forall|i: int| 0 <= i < n implies !ranges_overlap(
            (#[trigger] pre.areas@[i]).vpn_start as int, pre.areas@[i].vpn_end as int, lo, hi) by {
        }
        assert forall|i: int| 0 <= i < n implies !ranges_overlap(
            (#[trigger] mid.areas@[i]).vpn_start as int, mid.areas@[i].vpn_end as int, lo, hi) by {
            assert(mid.areas@[i] == mid.areas@.subrange(0, n)[i]);
            assert(mid.areas@[i] == pre.areas@[i]);
        }
        let added = mid.areas@.last();
        assert(ranges_overlap(added.vpn_start as int, added.vpn_end as int, lo, hi));
        assert(mid.areas@.subrange(0, n) == pre.areas@);
        Self::lemma_keep_prefix(mid.areas@, n, lo, hi);
        assert(post.areas@ == pre.areas@);
        assert forall|v: int| 0 <= v < VPN_LIMIT implies
            #[trigger] post.page_table.spec_mapping(v) == pre.page_table.spec_mapping(v) by {
            if removed_covers(mid.areas@, lo, hi, v) {
                let j = choose|j: int| 0 <= j < mid.areas@.len()
                    && ranges_overlap((#[trigger] mid.areas@[j]).vpn_start as int,
                        mid.areas@[j].vpn_end as int, lo, hi)
                    && mid.areas@[j].contains(v);
                assert(j == n);
                assert(lo <= v < hi);
                if pre.page_table.spec_mapping(v) is Some {
                    assert(pre.covered(v) || pre.trampoline == Some(v as u64));
                    if pre.covered(v) {
                        let i = choose|i: int| 0 <= i < pre.areas@.len()
                            && (#[trigger] pre.areas@[i]).contains(v);
                        assert(ranges_overlap(pre.areas@[i].vpn_start as int,
                            pre.areas@[i].vpn_end as int, lo, hi));
                    }
                }
                assert(pre.page_table.spec_mapping(v) is None);
            } else {
                if lo <= v < hi {
                    assert(added.contains(v));
                    assert(removed_covers(mid.areas@, lo, hi, v));
                }
                assert(post.page_table.spec_mapping(v) == mid.page_table.spec_mapping(v));
                assert(mid.page_table.spec_mapping(v) == pre.page_table.spec_mapping(v));
            }
        }
    }

    /// Filtering a list whose first `n` areas are clear of `[lo, hi)` and
    /// whose single last area meets it keeps exactly the first `n`.
    proof fn lemma_keep_prefix(s: Seq<MapArea>, n: int, lo: int, hi: int)
        requires
            s.len() == n + 1,
            0 <= n,
            forall|i: int| 0 <= i < n ==> !ranges_overlap(
                (#[trigger] s[i]).vpn_start as int, s[i].vpn_end as int, lo, hi),
            ranges_overlap(s[n].vpn_start as int, s[n].vpn_end as int, lo, hi),
        ensures
            keep_areas(s, lo, hi) == s.subrange(0, n),
        decreases n,
    {
        let tail = s.subrange(1, s.len() as int);
        if n == 0 {
            assert(ranges_overlap(s[0].vpn_start as int, s[0].vpn_end as int, lo, hi));
            reveal_with_fuel(keep_areas, 2);
            assert(tail.len() == 0);
            assert(keep_areas(tail, lo, hi) =~= Seq::<MapArea>::empty());
            assert(keep_areas(s, lo, hi) == keep_areas(tail, lo, hi));
            assert(keep_areas(s, lo, hi) =~= s.subrange(0, 0));
        } else {
            assert forall|i: int| 0 <= i < n - 1 implies !ranges_overlap(
                (#[trigger] tail[i]).vpn_start as int, tail[i].vpn_end as int, lo, hi) by {
                assert(tail[i] == s[i + 1]);
            }
            assert(tail[n - 1] == s[n]);
            Self::lemma_keep_prefix(tail, n - 1, lo, hi);
            assert(!ranges_overlap(s[0].vpn_start as int, s[0].vpn_end as int, lo, hi));
            reveal_with_fuel(keep_areas, 2);
            assert(keep_areas(s, lo, hi) == seq![s[0]] + keep_areas(tail, lo, hi));
            assert(keep_areas(s, lo, hi) =~= s.subrange(0, n));
        }
    }

    /// Map a user-visible framed area; the caller guarantees no conflict.
    pub fn insert_framed_area(&mut self, start_va: VirtAddr, end_va: VirtAddr, permission: MapPermission, alloc: &mut FrameAllocator)
        requires
            old(self).wf(),
            old(alloc).wf(),
            permission.wf(),
            spec_va_floor(start_va.0 as int) <= spec_va_ceil(end_va.0 as int),
            forall|v: int| spec_va_floor(start_va.0 as int) <= v < spec_va_ceil(end_va.0 as int)
                ==> #[trigger] old(self).page_table.spec_mapping(v) is None,
            old(alloc).avail() >= 3 * (spec_va_ceil(end_va.0 as int) - spec_va_floor(start_va.0 as int)),
        ensures
            final(self).wf(),
            final(alloc).wf(),
            final(self).trampoline == old(self).trampoline,
            final(self).areas@.len() == old(self).areas@.len() + 1,
            final(self).areas@.subrange(0, old(self).areas@.len() as int) == old(self).areas@,
            ({
                let a = final(self).areas@.last();
                &&& a.vpn_start == spec_va_floor(start_va.0 as int)
                &&& a.vpn_end == spec_va_ceil(end_va.0 as int)
                &&& a.map_type is Framed
                &&& a.map_perm == permission
                &&& a.data_frames@.len() == a.vpn_end - a.vpn_start
                &&& forall|i: int, j: int|
                        0 <= i < a.data_frames@.len() && 0 <= j < PAGE_SIZE
                        ==> #[trigger] a.data_frames@[i].bytes@[j] == 0u8
            }),
            forall|v: int| spec_va_floor(start_va.0 as int) <= v < spec_va_ceil(end_va.0 as int)
                ==> #[trigger] final(self).page_table.spec_mapping(v) is Some,
            forall|v: int| 0 <= v < VPN_LIMIT
                && !(spec_va_floor(start_va.0 as int) <= v < spec_va_ceil(end_va.0 as int)) ==>
                #[trigger] final(self).page_table.spec_mapping(v)
                    == old(self).page_table.spec_mapping(v),
            final(alloc).end == old(alloc).end,
    {
        let area = MapArea::new(start_va, end_va, MapType::Framed, permission);
        self.push(area, None, alloc);
    }
}

} // verus!
