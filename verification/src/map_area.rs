//! A map area: a half-open range of virtual pages with one mapping kind and
//! one permission set. Framed areas own the frames backing their pages.
use vstd::prelude::*;
use crate::config::{PAGE_SIZE, PPN_LIMIT, VPN_LIMIT};
use crate::addr::{PhysPageNum, VirtAddr, VirtPageNum, spec_va_ceil, spec_va_floor};
use crate::frame::{FrameAllocator, FrameTracker};
use crate::page_table::{PageTable, PageTableEntry};

verus! {

/// How the pages of an area are backed.
#[derive(Clone, Copy, PartialEq, Eq, Structural, Debug)]
pub enum MapType {
    /// Each virtual page maps to the equal physical page; no frames owned.
    Identical,
    /// Each virtual page maps to a freshly allocated frame owned by the area.
    Framed,
}

/// Permission bits of an area, in page-table-entry positions (R=2, W=4, X=8,
/// U=16); the valid bit is never part of a permission.
#[derive(Clone, Copy, PartialEq, Eq, Structural, Debug)]
pub struct MapPermission {
    pub bits: u8,
}

impl MapPermission {
    pub open spec fn wf(&self) -> bool {
        self.bits % 2 == 0 && self.bits < 32
    }

    pub open spec fn spec_readable(&self) -> bool {
        (self.bits / 2) % 2 == 1
    }

    pub open spec fn spec_writable(&self) -> bool {
        (self.bits / 4) % 2 == 1
    }

    pub open spec fn spec_executable(&self) -> bool {
        (self.bits / 8) % 2 == 1
    }

    pub open spec fn spec_user(&self) -> bool {
        (self.bits / 16) % 2 == 1
    }

    /// Combine the four permission flags.
    pub fn new(r: bool, w: bool, x: bool, u: bool) -> (p: MapPermission)
        ensures
            p.wf(),
            p.spec_readable() == r,
            p.spec_writable() == w,
            p.spec_executable() == x,
            p.spec_user() == u,
            p.bits == (if r { 2int } else { 0int }) + (if w { 4int } else { 0int })
                + (if x { 8int } else { 0int }) + (if u { 16int } else { 0int }),
    {
        let bits: u8 = (if r { 2u8 } else { 0u8 })
            + (if w { 4u8 } else { 0u8 })
            + (if x { 8u8 } else { 0u8 })
            + (if u { 16u8 } else { 0u8 });
        MapPermission { bits }
    }
}

/// A contiguous range of virtual pages `[vpn_start, vpn_end)` with one map
/// type and one permission set.
pub struct MapArea {
    pub vpn_start: u64,
    pub vpn_end: u64,
    pub data_frames: Vec<FrameTracker>,
    pub map_type: MapType,
    pub map_perm: MapPermission,
}

impl MapArea {
    /// Structural well-formedness, independent of mapping state.
    pub open spec fn wf(&self) -> bool {
        &&& self.vpn_start <= self.vpn_end <= VPN_LIMIT
        &&& self.map_perm.wf()
        &&& self.map_type is Identical ==> self.data_frames@.len() == 0
        &&& forall|i: int| 0 <= i < self.data_frames@.len()
                ==> #[trigger] self.data_frames@[i].wf()
        &&& self.data_frames@.len() <= self.vpn_end - self.vpn_start
    }

    /// Number of pages in the area.
    pub open spec fn spec_len(&self) -> int {
        self.vpn_end - self.vpn_start
    }

    /// All backing frames are present (trivially so for identical areas).
    pub open spec fn is_mapped(&self) -> bool {
        self.map_type is Framed ==> self.data_frames@.len() == self.spec_len()
    }

    /// No backing frame is held.
    pub open spec fn is_unmapped(&self) -> bool {
        self.data_frames@.len() == 0
    }

    pub open spec fn contains(&self, v: int) -> bool {
        self.vpn_start <= v < self.vpn_end
    }

    /// The physical page backing virtual page `v`.
    pub open spec fn spec_ppn_for(&self, v: int) -> int {
        if self.map_type is Identical {
            v
        } else {
            self.data_frames@[v - self.vpn_start].ppn as int
        }
    }

    /// The leaf entry an area page carries: backing page, permissions, valid.
    pub open spec fn spec_pte_bits(&self, v: int) -> int {
        self.spec_ppn_for(v) * 1024 + self.map_perm.bits + 1
    }

    /// The page table holds exactly this area's entries over `[lo, hi)`.
    pub open spec fn agrees_from(&self, pt: &PageTable, lo: int, hi: int) -> bool {
        forall|v: int| lo <= v < hi ==>
            #[trigger] pt.spec_mapping(v) == Some(PageTableEntry { bits: self.spec_pte_bits(v) as u64 })
    }

    /// The page table holds exactly this area's entries over its whole range.
    pub open spec fn agrees(&self, pt: &PageTable) -> bool {
        self.agrees_from(pt, self.vpn_start as int, self.vpn_end as int)
    }

    /// A new, not yet mapped area covering `[floor(start_va), ceil(end_va))`.
    pub fn new(start_va: VirtAddr, end_va: VirtAddr, map_type: MapType, map_perm: MapPermission) -> (r: MapArea)
        requires
            map_perm.wf(),
            spec_va_floor(start_va.0 as int) <= spec_va_ceil(end_va.0 as int),
        ensures
            r.wf(),
            r.is_unmapped(),
            r.vpn_start == spec_va_floor(start_va.0 as int),
            r.vpn_end == spec_va_ceil(end_va.0 as int),
            r.map_type == map_type,
            r.map_perm == map_perm,
    {
        let start_vpn = start_va.floor();
        let end_vpn = end_va.ceil();
        MapArea {
            vpn_start: start_vpn.0,
            vpn_end: end_vpn.0,
            data_frames: Vec::new(),
            map_type,
            map_perm,
        }
    }

    /// Map the next unmapped page of the area. For framed areas this is the
    /// page after the last one backed so far; it consumes one data frame and
    /// up to two frames for intermediate tables.
    pub fn map_one(&mut self, page_table: &mut PageTable, vpn: VirtPageNum, alloc: &mut FrameAllocator) -> (r: bool)
        requires
            old(self).wf(),
            old(page_table).wf(),
            old(alloc).wf(),
            old(self).contains(vpn.0 as int),
            old(self).map_type is Framed ==> vpn.0 == old(self).vpn_start + old(self).data_frames@.len(),
            old(page_table).spec_mapping(vpn.0 as int) is None,
            old(alloc).avail() >= 3,
        ensures
            final(self).wf(),
            final(page_table).wf(),
            final(alloc).wf(),
            r,
            final(self).vpn_start == old(self).vpn_start,
            final(self).vpn_end == old(self).vpn_end,
            final(self).map_type == old(self).map_type,
            final(self).map_perm == old(self).map_perm,
            final(self).map_type is Framed ==> {
                &&& final(self).data_frames@.len() == old(self).data_frames@.len() + 1
                &&& final(self).data_frames@.subrange(0, old(self).data_frames@.len() as int)
                    == old(self).data_frames@
                &&& forall|i: int| 0 <= i < PAGE_SIZE
                        ==> final(self).data_frames@.last().bytes@[i] == 0u8
            },
            final(self).map_type is Identical ==> final(self).data_frames == old(self).data_frames,
            final(page_table).spec_mapping(vpn.0 as int)
                == Some(PageTableEntry { bits: final(self).spec_pte_bits(vpn.0 as int) as u64 }),
            forall|v: int| 0 <= v < VPN_LIMIT && v != vpn.0 ==>
                #[trigger] final(page_table).spec_mapping(v) == old(page_table).spec_mapping(v),
            final(alloc).end == old(alloc).end,
            old(alloc).next <= final(alloc).next <= old(alloc).next + 3,
    {
        let ppn: PhysPageNum;
        match self.map_type {
            MapType::Identical => {
                ppn = PhysPageNum(vpn.0);
            }
            MapType::Framed => {
                let frame = alloc.alloc_frame().unwrap();
                ppn = PhysPageNum(frame.ppn);
                self.data_frames.push(frame);
            }
        }
        let ok = page_table.map(vpn, ppn, self.map_perm.bits, alloc);
        ok
    }

    /// Unmap the last still-backed page of the area (for framed areas), or
    /// any mapped page (for identical areas).
    pub fn unmap_one(&mut self, page_table: &mut PageTable, vpn: VirtPageNum)
        requires
            old(self).wf(),
            old(page_table).wf(),
            old(self).contains(vpn.0 as int),
            old(self).map_type is Framed ==> vpn.0 + 1 == old(self).vpn_start + old(self).data_frames@.len(),
            old(page_table).spec_mapping(vpn.0 as int) is Some,
        ensures
            final(self).wf(),
            final(page_table).wf(),
            final(self).vpn_start == old(self).vpn_start,
            final(self).vpn_end == old(self).vpn_end,
            final(self).map_type == old(self).map_type,
            final(self).map_perm == old(self).map_perm,
            final(self).map_type is Framed ==> final(self).data_frames@
                == old(self).data_frames@.subrange(0, old(self).data_frames@.len() - 1),
            final(self).map_type is Identical ==> final(self).data_frames == old(self).data_frames,
            final(page_table).spec_mapping(vpn.0 as int) is None,
            forall|v: int| 0 <= v < VPN_LIMIT && v != vpn.0 ==>
                #[trigger] final(page_table).spec_mapping(v) == old(page_table).spec_mapping(v),
    {
        match self.map_type {
            MapType::Framed => {
                let _ = self.data_frames.pop();
            }
            MapType::Identical => {}
        }
        page_table.unmap(vpn);
    }

    /// Map every page of the area, in ascending order.
    pub fn map(&mut self, page_table: &mut PageTable, alloc: &mut FrameAllocator) -> (r: bool)
        requires
            old(self).wf(),
            old(self).is_unmapped(),
            old(page_table).wf(),
            old(alloc).wf(),
            forall|v: int| old(self).contains(v)
                ==> #[trigger] old(page_table).spec_mapping(v) is None,
            old(alloc).avail() >= 3 * old(self).spec_len(),
        ensures
            final(self).wf(),
            final(self).is_mapped(),
            final(page_table).wf(),
            final(alloc).wf(),
            r,
            final(self).vpn_start == old(self).vpn_start,
            final(self).vpn_end == old(self).vpn_end,
            final(self).map_type == old(self).map_type,
            final(self).map_perm == old(self).map_perm,
            final(self).map_type is Framed
                ==> final(self).data_frames@.len() == final(self).spec_len(),
            final(self).map_type is Framed
                ==> forall|i: int, j: int| 0 <= i < final(self).data_frames@.len() && 0 <= j < PAGE_SIZE
                    ==> #[trigger] final(self).data_frames@[i].bytes@[j] == 0u8,
            final(self).agrees(final(page_table)),
            forall|v: int| 0 <= v < VPN_LIMIT && !old(self).contains(v) ==>
                #[trigger] final(page_table).spec_mapping(v) == old(page_table).spec_mapping(v),
            final(alloc).end == old(alloc).end,
            old(alloc).next <= final(alloc).next <= old(alloc).next + 3 * old(self).spec_len(),
    {
        let ghost pre_pt = *page_table;
        let ghost pre_alloc = *alloc;
        let mut vpn: u64 = self.vpn_start;
        while vpn < self.vpn_end
            invariant
                self.wf(),
                page_table.wf(),
                alloc.wf(),
                self.vpn_start <= vpn <= self.vpn_end,
                self.vpn_start == old(self).vpn_start,
                self.vpn_end == old(self).vpn_end,
                self.map_type == old(self).map_type,
                self.map_perm == old(self).map_perm,
                self.map_type is Framed ==> self.data_frames@.len() == vpn - self.vpn_start,
                self.map_type is Identical ==> self.data_frames@.len() == 0,
                self.map_type is Framed
                    ==> forall|i: int, j: int| 0 <= i < self.data_frames@.len() && 0 <= j < PAGE_SIZE
                        ==> #[trigger] self.data_frames@[i].bytes@[j] == 0u8,
                self.agrees_from(page_table, self.vpn_start as int, vpn as int),
                forall|v: int| vpn <= v < self.vpn_end
                    ==> #[trigger] page_table.spec_mapping(v) is None,
                forall|v: int| 0 <= v < VPN_LIMIT && !old(self).contains(v) ==>
                    #[trigger] page_table.spec_mapping(v) == pre_pt.spec_mapping(v),
                alloc.end == pre_alloc.end,
                pre_alloc.next <= alloc.next <= pre_alloc.next + 3 * (vpn - self.vpn_start),
                alloc.avail() >= 3 * (self.vpn_end - vpn),
            decreases self.vpn_end - vpn,
        {
            let ghost prev = *self;
            self.map_one(page_table, VirtPageNum(vpn), alloc);
            proof {
                assert forall|i: int, j: int| 0 <= i < self.data_frames@.len() && 0 <= j < PAGE_SIZE
                    implies #[trigger] self.data_frames@[i].bytes@[j] == 0u8 by {
                    if i < prev.data_frames@.len() {
                        assert(self.data_frames@[i] == prev.data_frames@[i]);
                    } else {
                        assert(self.data_frames@[i] == self.data_frames@.last());
                    }
                }
                assert forall|v: int| self.vpn_start <= v < vpn + 1 implies
                    #[trigger] page_table.spec_mapping(v)
                        == Some(PageTableEntry { bits: self.spec_pte_bits(v) as u64 }) by {
                    if v < vpn {
                        assert(prev.spec_pte_bits(v) == self.spec_pte_bits(v));
                    }
                }
            }
            vpn = vpn + 1;
        }
        true
    }

    /// Copy `data` into the start of the area, page by page: byte `k` of
    /// `data` lands at offset `k % PAGE_SIZE` of frame `k / PAGE_SIZE`.
    /// The slice may be shorter than the area; the tail keeps its bytes
    /// (zero right after `map`).
    pub fn copy_data(&mut self, data: &[u8])
        requires
            old(self).wf(),
            old(self).map_type is Framed,
            old(self).is_mapped(),
            data@.len() <= old(self).spec_len() * PAGE_SIZE,
        ensures
            final(self).wf(),
            final(self).is_mapped(),
            final(self).vpn_start == old(self).vpn_start,
            final(self).vpn_end == old(self).vpn_end,
            final(self).map_type == old(self).map_type,
            final(self).map_perm == old(self).map_perm,
            final(self).data_frames@.len() == old(self).data_frames@.len(),
            forall|i: int| 0 <= i < final(self).data_frames@.len()
                ==> #[trigger] final(self).data_frames@[i].ppn == old(self).data_frames@[i].ppn,
            forall|i: int, j: int|
                0 <= i < final(self).data_frames@.len() && 0 <= j < PAGE_SIZE
                ==> #[trigger] final(self).data_frames@[i].bytes@[j]
                    == if i * (PAGE_SIZE as int) + j < data@.len() {
                        data@[i * (PAGE_SIZE as int) + j]
                    } else {
                        old(self).data_frames@[i].bytes@[j]
                    },
    {
        let ghost pre = *self;
        let mut k: usize = 0;
        while k < data.len()
            invariant
                self.wf(),
                data@.len() <= self.spec_len() * PAGE_SIZE,
                0 <= k <= data@.len(),
                self.vpn_start == pre.vpn_start,
                self.vpn_end == pre.vpn_end,
                self.map_type == pre.map_type,
                self.map_perm == pre.map_perm,
                self.data_frames@.len() == pre.data_frames@.len(),
                self.map_type is Framed && self.is_mapped(),
                forall|i: int| 0 <= i < self.data_frames@.len()
                    ==> #[trigger] self.data_frames@[i].ppn == pre.data_frames@[i].ppn,
                forall|i: int, j: int|
                    0 <= i < self.data_frames@.len() && 0 <= j < PAGE_SIZE
                    ==> #[trigger] self.data_frames@[i].bytes@[j]
                        == if i * (PAGE_SIZE as int) + j < k {
                            data@[i * (PAGE_SIZE as int) + j]
                        } else {
                            pre.data_frames@[i].bytes@[j]
                        },
            decreases data@.len() - k,
        {
            let fi: usize = k / 4096;
            let bi: usize = k % 4096;
            let b = data[k];
            proof {
                assert(k == 4096 * (k as int / 4096) + k as int % 4096);
                assert((k as int / 4096) * 4096 < data@.len());
                assert(fi < self.data_frames@.len()) by (nonlinear_arith)
                    requires
                        fi == k as int / 4096,
                        (k as int / 4096) * 4096 < data@.len(),
                        data@.len() <= self.data_frames@.len() * 4096;
                assert(self.data_frames@[fi as int].wf());
            }
            let ghost before = self.data_frames@;
            let frame = &mut self.data_frames[fi];
            frame.bytes.set(bi, b);
            proof {
                assert forall|i: int, j: int|
                    0 <= i < self.data_frames@.len() && 0 <= j < PAGE_SIZE
                    implies #[trigger] self.data_frames@[i].bytes@[j]
                        == if i * (PAGE_SIZE as int) + j < k + 1 {
                            data@[i * (PAGE_SIZE as int) + j]
                        } else {
                            pre.data_frames@[i].bytes@[j]
                        } by {
                    assert(i * (PAGE_SIZE as int) + j == k as int <==> i == fi as int && j == bi as int)
                        by (nonlinear_arith)
                        requires
                            0 <= j < 4096,
                            fi == k as int / 4096,
                            bi == k as int % 4096,
                            k >= 0;
                    if !(i == fi as int && j == bi as int) {
                        assert(self.data_frames@[i].bytes@[j] == before[i].bytes@[j]);
                    }
                }
            }
            k = k + 1;
        }
    }

    /// Unmap every page of the area, in descending order; framed areas give
    /// their frames back.
    pub fn unmap(&mut self, page_table: &mut PageTable)
        requires
            old(self).wf(),
            old(self).is_mapped(),
            old(page_table).wf(),
            forall|v: int| old(self).contains(v)
                ==> #[trigger] old(page_table).spec_mapping(v) is Some,
        ensures
            final(self).wf(),
            final(self).is_unmapped(),
            final(page_table).wf(),
            final(self).vpn_start == old(self).vpn_start,
            final(self).vpn_end == old(self).vpn_end,
            final(self).map_type == old(self).map_type,
            final(self).map_perm == old(self).map_perm,
            final(self).data_frames@.len() == 0,
            forall|v: int| old(self).contains(v)
                ==> #[trigger] final(page_table).spec_mapping(v) is None,
            forall|v: int| 0 <= v < VPN_LIMIT && !old(self).contains(v) ==>
                #[trigger] final(page_table).spec_mapping(v) == old(page_table).spec_mapping(v),
    {
        let ghost pre_pt = *page_table;
        let mut vpn: u64 = self.vpn_end;
        while vpn > self.vpn_start
            invariant
                self.wf(),
                page_table.wf(),
                self.vpn_start <= vpn <= self.vpn_end,
                self.vpn_start == old(self).vpn_start,
                self.vpn_end == old(self).vpn_end,
                self.map_type == old(self).map_type,
                self.map_perm == old(self).map_perm,
                self.map_type is Framed ==> self.data_frames@.len() == vpn - self.vpn_start,
                self.map_type is Identical ==> self.data_frames@.len() == 0,
                forall|v: int| self.vpn_start <= v < vpn
                    ==> #[trigger] page_table.spec_mapping(v) is Some,
                forall|v: int| vpn <= v < self.vpn_end
                    ==> #[trigger] page_table.spec_mapping(v) is None,
                forall|v: int| 0 <= v < VPN_LIMIT && !old(self).contains(v) ==>
                    #[trigger] page_table.spec_mapping(v) == pre_pt.spec_mapping(v),
            decreases vpn,
        {
            vpn = vpn - 1;
            self.unmap_one(page_table, VirtPageNum(vpn));
        }
    }
}

} // verus!
