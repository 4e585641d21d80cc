//! A fixed-capacity byte FIFO used by pipes and mailbox slots. The whole
//! history of bytes written and bytes taken out is carried as ghost state,
//! so first-in-first-out delivery is part of the type's invariant.
use vstd::prelude::*;

verus! {

#[derive(Clone, Copy, PartialEq, Eq, Structural, Debug)]
pub enum RingBufferStatus {
    Full,
    Empty,
    Normal,
}

/// A byte ring of fixed capacity `arr.len()`.
pub struct RingBuffer {
    pub arr: Vec<u8>,
    pub head: usize,
    pub tail: usize,
    pub status: RingBufferStatus,
    /// Every byte ever written, in order.
    pub hist_in: Ghost<Seq<u8>>,
    /// Every byte ever read out, in order.
    pub hist_out: Ghost<Seq<u8>>,
}

impl RingBuffer {
    pub open spec fn spec_capacity(&self) -> int {
        self.arr@.len() as int
    }

    /// The bytes currently buffered, oldest first.
    pub open spec fn contents(&self) -> Seq<u8> {
        if self.status is Empty {
            Seq::empty()
        } else if self.head < self.tail {
            self.arr@.subrange(self.head as int, self.tail as int)
        } else {
            self.arr@.subrange(self.head as int, self.arr@.len() as int)
                + self.arr@.subrange(0, self.tail as int)
        }
    }

    pub open spec fn wf(&self) -> bool {
        &&& self.arr@.len() > 0
        &&& self.head < self.arr@.len()
        &&& self.tail < self.arr@.len()
        &&& self.status is Empty ==> self.head == self.tail
        &&& self.status is Full ==> self.head == self.tail
        &&& self.status is Normal ==> self.head != self.tail
        &&& self.hist_in@ == self.hist_out@ + self.contents()
    }

    /// An empty ring of the given capacity.
    pub fn new(capacity: usize) -> (r: RingBuffer)
        requires
            capacity > 0,
        ensures
            r.wf(),
            r.spec_capacity() == capacity,
            r.contents() == Seq::<u8>::empty(),
            r.hist_in@ == Seq::<u8>::empty(),
            r.hist_out@ == Seq::<u8>::empty(),
    {
        let mut arr: Vec<u8> = Vec::new();
        let mut i: usize = 0;
        while i < capacity
            invariant
                arr@.len() == i,
                i <= capacity,
            decreases capacity - i,
        {
            arr.push(0u8);
            i += 1;
        }
        RingBuffer {
            arr,
            head: 0,
            tail: 0,
            status: RingBufferStatus::Empty,
            hist_in: Ghost(Seq::empty()),
            hist_out: Ghost(Seq::empty()),
        }
    }

    /// Bytes available to read.
    pub fn available_read(&self) -> (r: usize)
        requires
            self.wf(),
        ensures
            r == self.contents().len(),
    {
        match self.status {
            RingBufferStatus::Empty => 0,
            RingBufferStatus::Full => self.arr.len(),
            RingBufferStatus::Normal => {
                if self.head < self.tail {
                    self.tail - self.head
                } else {
                    self.arr.len() - self.head + self.tail
                }
            }
        }
    }

    /// Room left to write.
    pub fn available_write(&self) -> (r: usize)
        requires
            self.wf(),
        ensures
            r == self.spec_capacity() - self.contents().len(),
    {
        match self.status {
            RingBufferStatus::Full => 0,
            RingBufferStatus::Empty => self.arr.len(),
            RingBufferStatus::Normal => {
                if self.head < self.tail {
                    self.arr.len() - (self.tail - self.head)
                } else {
                    self.head - self.tail
                }
            }
        }
    }

    /// Take the oldest byte out.
    pub fn read_byte(&mut self) -> (r: u8)
        requires
            old(self).wf(),
            old(self).contents().len() > 0,
        ensures
            final(self).wf(),
            final(self).spec_capacity() == old(self).spec_capacity(),
            r == old(self).contents()[0],
            final(self).contents() == old(self).contents().subrange(1, old(self).contents().len() as int),
            final(self).hist_in@ == old(self).hist_in@,
            final(self).hist_out@ == old(self).hist_out@.push(r),
    {
        let n = self.arr.len();
        let c = self.arr[self.head];
        self.head = if self.head + 1 == n { 0 } else { self.head + 1 };
        self.status = if self.head == self.tail {
            RingBufferStatus::Empty
        } else {
            RingBufferStatus::Normal
        };
        proof {
            self.hist_out@ = old(self).hist_out@.push(c);
            assert(self.contents()
                =~= old(self).contents().subrange(1, old(self).contents().len() as int));
            assert(self.hist_in@ =~= self.hist_out@ + self.contents());
        }
        c
    }

    /// Append one byte.
    pub fn write_byte(&mut self, byte: u8)
        requires
            old(self).wf(),
            old(self).contents().len() < old(self).spec_capacity(),
        ensures
            final(self).wf(),
            final(self).spec_capacity() == old(self).spec_capacity(),
            final(self).contents() == old(self).contents().push(byte),
            final(self).hist_in@ == old(self).hist_in@.push(byte),
            final(self).hist_out@ == old(self).hist_out@,
    {
        let n = self.arr.len();
        self.arr.set(self.tail, byte);
        self.tail = if self.tail + 1 == n { 0 } else { self.tail + 1 };
        self.status = if self.tail == self.head {
            RingBufferStatus::Full
        } else {
            RingBufferStatus::Normal
        };
        proof {
            self.hist_in@ = old(self).hist_in@.push(byte);
            assert(self.arr@ == old(self).arr@.update(old(self).tail as int, byte));
            if old(self).status is Empty {
                assert(self.contents() =~= old(self).contents().push(byte));
            } else if old(self).head < old(self).tail {
                assert(self.contents() =~= old(self).contents().push(byte));
            } else {
                assert(self.contents() =~= old(self).contents().push(byte));
            }
            assert(self.hist_in@ =~= self.hist_out@ + self.contents());
        }
    }
}

/// What can be read plus the room left always equals the capacity.
pub proof fn lemma_read_write_conservation(rb: &RingBuffer)
    requires
        rb.wf(),
    ensures
        rb.contents().len() + (rb.spec_capacity() - rb.contents().len()) == rb.spec_capacity(),
        0 <= rb.contents().len() <= rb.spec_capacity(),
{
}

/// First-in-first-out delivery over the whole lifetime: the bytes read out
/// of a ring, followed by what it still holds, are exactly the bytes written
/// into it, in order. In particular the bytes read are a prefix of the bytes
/// written.
pub proof fn lemma_fifo(rb: &RingBuffer)
    requires
        rb.wf(),
    ensures
        rb.hist_in@ == rb.hist_out@ + rb.contents(),
        rb.hist_out@ == rb.hist_in@.subrange(0, rb.hist_out@.len() as int),
{
    assert(rb.hist_out@ =~= rb.hist_in@.subrange(0, rb.hist_out@.len() as int));
}

} // verus!
