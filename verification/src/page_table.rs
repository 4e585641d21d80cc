//! Three-level Sv39 page table: maps and unmaps single virtual pages and
//! translates virtual page numbers to leaf entries.
//!
//! Intermediate tables are created on demand, each backed by a freshly
//! allocated frame. The table is specified through `spec_mapping`, the
//! partial map from virtual page number to the valid leaf entry.
use vstd::prelude::*;
use crate::config::{PPN_LIMIT, VPN_LIMIT};
use crate::addr::{PhysPageNum, VirtPageNum};
use crate::frame::{FrameAllocator, FrameTracker};

verus! {

/// Valid bit of a page-table entry.
pub const PTE_V: u8 = 1;
/// Readable.
pub const PTE_R: u8 = 2;
/// Writable.
pub const PTE_W: u8 = 4;
/// Executable.
pub const PTE_X: u8 = 8;
/// User-accessible.
pub const PTE_U: u8 = 16;

/// A 64-bit Sv39 page-table entry: flags in the low 10 bits, the physical
/// page number in bits 53..10. Entries built here keep the flag field below
/// 256, so the encoding is `ppn * 1024 + flags`.
#[derive(Clone, Copy, PartialEq, Eq, Structural, Debug)]
pub struct PageTableEntry {
    pub bits: u64,
}

impl PageTableEntry {
    /// A leaf entry for `ppn` with the given flags; the valid bit must be
    /// part of `flags` for the entry to be live.
    pub fn new(ppn: PhysPageNum, flags: u8) -> (r: PageTableEntry)
        requires
            ppn.0 < PPN_LIMIT,
        ensures
            r.bits == ppn.0 * 1024 + flags,
    {
        PageTableEntry { bits: ppn.0 * 1024 + flags as u64 }
    }

    /// The all-zero (invalid) entry.
    pub fn empty() -> (r: PageTableEntry)
        ensures
            r.bits == 0,
    {
        PageTableEntry { bits: 0 }
    }

    pub open spec fn spec_ppn(&self) -> int {
        (self.bits as int / 1024) % (PPN_LIMIT as int)
    }

    pub open spec fn spec_valid(&self) -> bool {
        self.bits % 2 == 1
    }

    pub open spec fn spec_readable(&self) -> bool {
        (self.bits / 2) % 2 == 1
    }

    pub open spec fn spec_writable(&self) -> bool {
        (self.bits / 4) % 2 == 1
    }

    pub open spec fn spec_executable(&self) -> bool {
        (self.bits / 8) % 2 == 1
    }

    pub open spec fn spec_user(&self) -> bool {
        (self.bits / 16) % 2 == 1
    }

    /// The physical page number stored in the entry.
    pub fn ppn(&self) -> (r: PhysPageNum)
        ensures
            r.0 == self.spec_ppn(),
    {
        PhysPageNum(self.bits / 1024 % PPN_LIMIT)
    }

    pub fn is_valid(&self) -> (r: bool)
        ensures
            r == self.spec_valid(),
    {
        self.bits % 2 == 1
    }

    pub fn readable(&self) -> (r: bool)
        ensures
            r == self.spec_readable(),
    {
        self.bits / 2 % 2 == 1
    }

    pub fn writable(&self) -> (r: bool)
        ensures
            r == self.spec_writable(),
    {
        self.bits / 4 % 2 == 1
    }

    pub fn executable(&self) -> (r: bool)
        ensures
            r == self.spec_executable(),
    {
        self.bits / 8 % 2 == 1
    }

    pub fn is_user(&self) -> (r: bool)
        ensures
            r == self.spec_user(),
    {
        self.bits / 16 % 2 == 1
    }
}

/// How the flag accessors read an encoded leaf entry: the page number part
/// contributes nothing to the low bits, so each flag is the permission's.
pub proof fn lemma_pte_bits_flags(ppn: int, perm: int)
    requires
        0 <= ppn,
        0 <= perm < 32,
        perm % 2 == 0,
    ensures
        (ppn * 1024 + perm + 1) % 2 == 1,
        ((ppn * 1024 + perm + 1) / 2) % 2 == (perm / 2) % 2,
        ((ppn * 1024 + perm + 1) / 4) % 2 == (perm / 4) % 2,
        ((ppn * 1024 + perm + 1) / 8) % 2 == (perm / 8) % 2,
        ((ppn * 1024 + perm + 1) / 16) % 2 == (perm / 16) % 2,
{
    let b = ppn * 1024 + perm + 1;
    let c = perm + 1;
    vstd::arithmetic::div_mod::lemma_fundamental_div_mod_converse(b, 2, ppn * 512 + c / 2, c % 2);
    vstd::arithmetic::div_mod::lemma_fundamental_div_mod_converse(
        ppn * 512 + c / 2, 2, ppn * 256 + (c / 2) / 2, (c / 2) % 2);
    vstd::arithmetic::div_mod::lemma_fundamental_div_mod_converse(b, 4, ppn * 256 + c / 4, c % 4);
    vstd::arithmetic::div_mod::lemma_fundamental_div_mod_converse(
        ppn * 256 + c / 4, 2, ppn * 128 + (c / 4) / 2, (c / 4) % 2);
    vstd::arithmetic::div_mod::lemma_fundamental_div_mod_converse(b, 8, ppn * 128 + c / 8, c % 8);
    vstd::arithmetic::div_mod::lemma_fundamental_div_mod_converse(
        ppn * 128 + c / 8, 2, ppn * 64 + (c / 8) / 2, (c / 8) % 2);
    vstd::arithmetic::div_mod::lemma_fundamental_div_mod_converse(b, 16, ppn * 64 + c / 16, c % 16);
    vstd::arithmetic::div_mod::lemma_fundamental_div_mod_converse(
        ppn * 64 + c / 16, 2, ppn * 32 + (c / 16) / 2, (c / 16) % 2);
    vstd::arithmetic::div_mod::lemma_fundamental_div_mod_converse(c, 2, perm / 2, 1);
    vstd::arithmetic::div_mod::lemma_fundamental_div_mod_converse(c, 4, perm / 4, perm % 4 + 1);
    vstd::arithmetic::div_mod::lemma_fundamental_div_mod_converse(c, 8, perm / 8, perm % 8 + 1);
    vstd::arithmetic::div_mod::lemma_fundamental_div_mod_converse(c, 16, perm / 16, perm % 16 + 1);
}

/// Level-0 table: 512 leaf entries.
pub struct PtLeafTable {
    pub frame: FrameTracker,
    pub slots: Vec<PageTableEntry>,
}

/// Level-1 table: 512 optional leaf tables.
pub struct PtMidTable {
    pub frame: FrameTracker,
    pub slots: Vec<Option<PtLeafTable>>,
}

/// Level-2 (root) table: 512 optional mid tables.
pub struct PtRootTable {
    pub frame: FrameTracker,
    pub slots: Vec<Option<PtMidTable>>,
}

/// Index of `v` in the root table (bits 26..18 of the page number).
pub open spec fn idx2(v: int) -> int {
    v / 262144
}

/// Index of `v` in its level-1 table (bits 17..9).
pub open spec fn idx1(v: int) -> int {
    (v / 512) % 512
}

/// Index of `v` in its leaf table (bits 8..0).
pub open spec fn idx0(v: int) -> int {
    v % 512
}

/// A page number below `VPN_LIMIT` is exactly its three indices recombined;
/// in particular two page numbers with the same indices are equal.
pub proof fn lemma_vpn_decompose(v: int)
    requires
        0 <= v < VPN_LIMIT,
    ensures
        v == idx2(v) * 262144 + idx1(v) * 512 + idx0(v),
        0 <= idx2(v) < 512,
        0 <= idx1(v) < 512,
        0 <= idx0(v) < 512,
{
    assert(v == (v / 262144) * 262144 + ((v / 512) % 512) * 512 + v % 512
        && 0 <= v / 262144 < 512 && 0 <= (v / 512) % 512 < 512 && 0 <= v % 512 < 512)
        by (nonlinear_arith)
        requires 0 <= v < 0x8000000;
}

impl PtLeafTable {
    pub open spec fn wf(&self) -> bool {
        &&& self.frame.wf()
        &&& self.slots@.len() == 512
    }

    /// The valid leaf entry at slot `j`, if any.
    pub open spec fn view_at(&self, j: int) -> Option<PageTableEntry> {
        if self.slots@[j].spec_valid() {
            Some(self.slots@[j])
        } else {
            None
        }
    }
}

impl PtMidTable {
    pub open spec fn wf(&self) -> bool {
        &&& self.frame.wf()
        &&& self.slots@.len() == 512
        &&& forall|j: int| 0 <= j < 512 && self.slots@[j] is Some
                ==> #[trigger] self.slots@[j].unwrap().wf()
    }

    pub open spec fn view_at(&self, j1: int, j0: int) -> Option<PageTableEntry> {
        match self.slots@[j1] {
            Some(leaf) => leaf.view_at(j0),
            None => None,
        }
    }
}

impl PtRootTable {
    pub open spec fn wf(&self) -> bool {
        &&& self.frame.wf()
        &&& self.slots@.len() == 512
        &&& forall|j: int| 0 <= j < 512 && self.slots@[j] is Some
                ==> #[trigger] self.slots@[j].unwrap().wf()
    }

    pub open spec fn view_at(&self, j2: int, j1: int, j0: int) -> Option<PageTableEntry> {
        match self.slots@[j2] {
            Some(mid) => mid.view_at(j1, j0),
            None => None,
        }
    }
}

/// An Sv39 page table rooted in an owned frame.
pub struct PageTable {
    pub root: PtRootTable,
}

/// A vector of 512 empty slots.
fn empty_slots<T>() -> (r: Vec<Option<T>>)
    ensures
        r@.len() == 512,
        forall|i: int| 0 <= i < 512 ==> r@[i] is None,
{
    let mut v: Vec<Option<T>> = Vec::new();
    let mut i: usize = 0;
    while i < 512
        invariant
            v@.len() == i,
            i <= 512,
            forall|j: int| 0 <= j < i ==> v@[j] is None,
        decreases 512 - i,
    {
        v.push(None);
        i += 1;
    }
    v
}

/// A vector of 512 invalid leaf entries.
fn empty_pte_slots() -> (r: Vec<PageTableEntry>)
    ensures
        r@.len() == 512,
        forall|i: int| 0 <= i < 512 ==> !r@[i].spec_valid(),
{
    let mut v: Vec<PageTableEntry> = Vec::new();
    let mut i: usize = 0;
    while i < 512
        invariant
            v@.len() == i,
            i <= 512,
            forall|j: int| 0 <= j < i ==> !v@[j].spec_valid(),
        decreases 512 - i,
    {
        v.push(PageTableEntry::empty());
        i += 1;
    }
    v
}

impl PageTable {
    pub open spec fn wf(&self) -> bool {
        self.root.wf()
    }

    /// The valid leaf entry for page `v`, if the walk reaches one.
    pub open spec fn spec_mapping(&self, v: int) -> Option<PageTableEntry> {
        self.root.view_at(idx2(v), idx1(v), idx0(v))
    }

    /// The root frame's physical page number.
    pub open spec fn spec_root_ppn(&self) -> int {
        self.root.frame.ppn as int
    }

    /// A fresh table with no mappings; consumes one frame for the root.
    pub fn new(alloc: &mut FrameAllocator) -> (r: Option<PageTable>)
        requires
            old(alloc).wf(),
        ensures
            final(alloc).wf(),
            final(alloc).end == old(alloc).end,
            old(alloc).avail() > 0 ==> {
                &&& r is Some
                &&& r.unwrap().wf()
                &&& forall|v: int| 0 <= v < VPN_LIMIT ==> #[trigger] r.unwrap().spec_mapping(v) is None
                &&& r.unwrap().spec_root_ppn() == old(alloc).next
                &&& final(alloc).next == old(alloc).next + 1
            },
            old(alloc).avail() == 0 ==> r is None && final(alloc).next == old(alloc).next,
    {
        match alloc.alloc_frame() {
            None => None,
            Some(frame) => {
                let root = PtRootTable { frame, slots: empty_slots() };
                Some(PageTable { root })
            }
        }
    }

    /// The `satp` value selecting this table under Sv39 (mode 8 in the top
    /// nibble, root page number in the low bits).
    pub fn token(&self) -> (r: u64)
        requires
            self.wf(),
        ensures
            r == 0x8000000000000000u64 + self.spec_root_ppn(),
    {
        0x8000000000000000u64 + self.root.frame.ppn
    }

    /// Walk to the leaf entry for `vpn`; `None` when no valid leaf exists.
    pub fn translate(&self, vpn: VirtPageNum) -> (r: Option<PageTableEntry>)
        requires
            self.wf(),
            vpn.0 < VPN_LIMIT,
        ensures
            r == self.spec_mapping(vpn.0 as int),
    {
        proof { lemma_vpn_decompose(vpn.0 as int); }
        let i2 = (vpn.0 / 262144) as usize;
        let i1 = (vpn.0 / 512 % 512) as usize;
        let i0 = (vpn.0 % 512) as usize;
        match &self.root.slots[i2] {
            None => None,
            Some(mid) => {
                proof { assert(self.root.slots@[i2 as int].unwrap().wf()); }
                match &mid.slots[i1] {
                    None => None,
                    Some(leaf) => {
                        proof { assert(mid.slots@[i1 as int].unwrap().wf()); }
                        let pte = leaf.slots[i0];
                        if pte.is_valid() {
                            Some(pte)
                        } else {
                            None
                        }
                    }
                }
            }
        }
    }

    /// Install a leaf mapping `vpn -> ppn` with `flags | V`, creating
    /// intermediate tables as needed. Fails (with the mapping unchanged)
    /// only when the frame allocator runs dry; the caller guarantees that
    /// `vpn` is not already mapped.
    pub fn map(&mut self, vpn: VirtPageNum, ppn: PhysPageNum, flags: u8, alloc: &mut FrameAllocator) -> (r: bool)
        requires
            old(self).wf(),
            old(alloc).wf(),
            vpn.0 < VPN_LIMIT,
            ppn.0 < PPN_LIMIT,
            flags % 2 == 0,
            old(self).spec_mapping(vpn.0 as int) is None,
        ensures
            final(self).wf(),
            final(alloc).wf(),
            final(alloc).end == old(alloc).end,
            old(alloc).next <= final(alloc).next <= old(alloc).next + 2,
            old(alloc).avail() >= 2 ==> r,
            r ==> final(self).spec_mapping(vpn.0 as int)
                == Some(PageTableEntry { bits: (ppn.0 * 1024 + flags + 1) as u64 }),
            !r ==> final(self).spec_mapping(vpn.0 as int) is None,
            forall|v: int| 0 <= v < VPN_LIMIT && v != vpn.0 ==>
                #[trigger] final(self).spec_mapping(v) == old(self).spec_mapping(v),
    {
        proof { lemma_vpn_decompose(vpn.0 as int); }
        let i2 = (vpn.0 / 262144) as usize;
        let i1 = (vpn.0 / 512 % 512) as usize;
        let i0 = (vpn.0 % 512) as usize;
        if self.root.slots[i2].is_none() {
            match alloc.alloc_frame() {
                None => {
                    return false;
                }
                Some(frame) => {
                    let mid = PtMidTable { frame, slots: empty_slots() };
                    self.root.slots.set(i2, Some(mid));
                }
            }
        }
        proof {
            assert(self.root.slots@[i2 as int] is Some ==> self.root.slots@[i2 as int].unwrap().wf());
        }
        let need_leaf = match &self.root.slots[i2] {
            Some(m) => m.slots[i1].is_none(),
            None => false,
        };
        if need_leaf {
            match alloc.alloc_frame() {
                None => {
                    proof {
                        assert forall|v: int| 0 <= v < VPN_LIMIT implies
                            self.spec_mapping(v) == old(self).spec_mapping(v) by {
                            lemma_vpn_decompose(v);
                        }
                    }
                    return false;
                }
                Some(frame) => {
                    let leaf = PtLeafTable { frame, slots: empty_pte_slots() };
                    proof {
                        assert(self.root.slots@[i2 as int] is Some
                            ==> self.root.slots@[i2 as int].unwrap().wf());
                    }
                    match &mut self.root.slots[i2] {
                        Some(m) => {
                            m.slots.set(i1, Some(leaf));
                        }
                        None => {}
                    }
                }
            }
        }
        let pte = PageTableEntry::new(ppn, flags + PTE_V);
        proof {
            assert(self.root.slots@[i2 as int] is Some
                ==> self.root.slots@[i2 as int].unwrap().wf());
        }
        match &mut self.root.slots[i2] {
            Some(m) => {
                proof {
                    assert(m.slots@[i1 as int] is Some
                        ==> m.slots@[i1 as int].unwrap().wf());
                }
                match &mut m.slots[i1] {
                    Some(l) => {
                        l.slots.set(i0, pte);
                    }
                    None => {}
                }
            }
            None => {}
        }
        proof {
            assert forall|v: int| 0 <= v < VPN_LIMIT && v != vpn.0 as int implies
                self.spec_mapping(v) == old(self).spec_mapping(v) by {
                lemma_vpn_decompose(v);
            }
        }
        true
    }

    /// Clear the leaf entry for `vpn`; intermediate tables are retained.
    /// The caller guarantees that `vpn` is currently mapped.
    pub fn unmap(&mut self, vpn: VirtPageNum)
        requires
            old(self).wf(),
            vpn.0 < VPN_LIMIT,
            old(self).spec_mapping(vpn.0 as int) is Some,
        ensures
            final(self).wf(),
            final(self).spec_mapping(vpn.0 as int) is None,
            forall|v: int| 0 <= v < VPN_LIMIT && v != vpn.0 ==>
                #[trigger] final(self).spec_mapping(v) == old(self).spec_mapping(v),
    {
        proof { lemma_vpn_decompose(vpn.0 as int); }
        let i2 = (vpn.0 / 262144) as usize;
        let i1 = (vpn.0 / 512 % 512) as usize;
        let i0 = (vpn.0 % 512) as usize;
        proof {
            assert(self.root.slots@[i2 as int] is Some
                ==> self.root.slots@[i2 as int].unwrap().wf());
        }
        match &mut self.root.slots[i2] {
            Some(m) => {
                proof {
                    assert(m.slots@[i1 as int] is Some
                        ==> m.slots@[i1 as int].unwrap().wf());
                }
                match &mut m.slots[i1] {
                    Some(l) => {
                        l.slots.set(i0, PageTableEntry::empty());
                    }
                    None => {}
                }
            }
            None => {}
        }
        proof {
            assert forall|v: int| 0 <= v < VPN_LIMIT && v != vpn.0 as int implies
                self.spec_mapping(v) == old(self).spec_mapping(v) by {
                lemma_vpn_decompose(v);
            }
        }
    }
}

} // verus!
