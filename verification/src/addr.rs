//! Virtual and physical addresses and page numbers.
use vstd::prelude::*;
use crate::config::{PAGE_SIZE, VA_LIMIT, VPN_LIMIT};

verus! {

/// A virtual address; only the low 39 bits are significant under Sv39.
#[derive(Clone, Copy, PartialEq, Eq, Structural, Debug)]
pub struct VirtAddr(pub u64);

/// A physical address.
#[derive(Clone, Copy, PartialEq, Eq, Structural, Debug)]
pub struct PhysAddr(pub u64);

/// A virtual page number, below `VPN_LIMIT`.
#[derive(Clone, Copy, PartialEq, Eq, Structural, Debug)]
pub struct VirtPageNum(pub u64);

/// A physical page number.
#[derive(Clone, Copy, PartialEq, Eq, Structural, Debug)]
pub struct PhysPageNum(pub u64);

/// The page that `va` falls in, after truncation to 39 bits.
pub open spec fn spec_va_floor(va: int) -> int {
    (va % (VA_LIMIT as int)) / (PAGE_SIZE as int)
}

/// The lowest page boundary at or above `va`, after truncation to 39 bits.
pub open spec fn spec_va_ceil(va: int) -> int {
    (va % (VA_LIMIT as int) + (PAGE_SIZE - 1)) / (PAGE_SIZE as int)
}

impl VirtAddr {
    /// Round down to the containing virtual page.
    pub fn floor(self) -> (r: VirtPageNum)
        ensures
            r.0 == spec_va_floor(self.0 as int),
            r.0 < VPN_LIMIT,
    {
        VirtPageNum((self.0 % VA_LIMIT) / PAGE_SIZE)
    }

    /// Round up to the next page boundary.
    pub fn ceil(self) -> (r: VirtPageNum)
        ensures
            r.0 == spec_va_ceil(self.0 as int),
            r.0 <= VPN_LIMIT,
    {
        VirtPageNum((self.0 % VA_LIMIT + (PAGE_SIZE - 1)) / PAGE_SIZE)
    }

    /// Whether the address sits on a page boundary.
    pub fn aligned(self) -> (r: bool)
        ensures
            r == (self.0 % PAGE_SIZE == 0),
    {
        self.0 % PAGE_SIZE == 0
    }
}

impl VirtPageNum {
    /// The first address of this page.
    pub fn addr(self) -> (r: VirtAddr)
        requires
            self.0 < VPN_LIMIT,
        ensures
            r.0 == self.0 * PAGE_SIZE,
    {
        VirtAddr(self.0 * PAGE_SIZE)
    }
}

} // verus!
