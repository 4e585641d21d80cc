//! Physical frame allocation: 4 KiB frames handed out zeroed, each owned by
//! exactly one `FrameTracker`.
use vstd::prelude::*;
use crate::config::{PAGE_SIZE, PPN_LIMIT};

verus! {

/// Exclusive ownership of one zero-initialised physical frame.
pub struct FrameTracker {
    /// The frame's physical page number.
    pub ppn: u64,
    /// The frame's byte contents.
    pub bytes: Vec<u8>,
}

impl FrameTracker {
    /// A tracker is well formed when its page number is representable and it
    /// carries exactly one page of bytes.
    pub open spec fn wf(&self) -> bool {
        &&& self.ppn < PPN_LIMIT
        &&& self.bytes@.len() == PAGE_SIZE
    }
}

/// Hands out fresh frames from a half-open range of physical page numbers.
pub struct FrameAllocator {
    /// Next page number to hand out.
    pub next: u64,
    /// One past the last page number this allocator owns.
    pub end: u64,
}

/// One page of zero bytes.
fn zero_page() -> (r: Vec<u8>)
    ensures
        r@.len() == PAGE_SIZE,
        forall|i: int| 0 <= i < r@.len() ==> r@[i] == 0u8,
{
    let mut v: Vec<u8> = Vec::new();
    let mut i: usize = 0;
    while i < 4096
        invariant
            v@.len() == i,
            i <= 4096,
            forall|j: int| 0 <= j < i ==> v@[j] == 0u8,
        decreases 4096 - i,
    {
        v.push(0u8);
        i += 1;
    }
    v
}

impl FrameAllocator {
    /// Frames not yet handed out.
    pub open spec fn avail(&self) -> int {
        self.end - self.next
    }

    pub open spec fn wf(&self) -> bool {
        &&& self.next <= self.end
        &&& self.end <= PPN_LIMIT
    }

    /// An allocator over the physical pages `[start, end)`.
    pub fn new(start: u64, end: u64) -> (r: FrameAllocator)
        requires
            start <= end,
            end <= PPN_LIMIT,
        ensures
            r.wf(),
            r.next == start,
            r.end == end,
    {
        FrameAllocator { next: start, end }
    }

    /// Allocate the next free frame, zeroed, or report exhaustion.
    pub fn alloc_frame(&mut self) -> (r: Option<FrameTracker>)
        requires
            old(self).wf(),
        ensures
            final(self).wf(),
            final(self).end == old(self).end,
            old(self).avail() > 0 ==> {
                &&& r is Some
                &&& r.unwrap().wf()
                &&& r.unwrap().ppn == old(self).next
                &&& forall|i: int| 0 <= i < PAGE_SIZE ==> r.unwrap().bytes@[i] == 0u8
                &&& final(self).next == old(self).next + 1
            },
            old(self).avail() == 0 ==> r is None && final(self).next == old(self).next,
    {
        if self.next < self.end {
            let ppn = self.next;
            self.next = self.next + 1;
            Some(FrameTracker { ppn, bytes: zero_page() })
        } else {
            None
        }
    }
}

} // verus!
