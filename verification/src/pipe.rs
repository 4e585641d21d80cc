//! Anonymous byte pipe: one shared ring buffer with a read end and a write
//! end. Transfers move as many bytes as fit; blocking is the caller's
//! policy, decided from `read_would_block` / `write_would_block`.
use vstd::prelude::*;
use crate::config::PIPE_RING_CAP;
use crate::ring_buffer::RingBuffer;

verus! {

/// A pipe's kernel-side state.
pub struct Pipe {
    pub ring: RingBuffer,
    pub read_open: bool,
    pub write_open: bool,
}

impl Pipe {
    pub open spec fn wf(&self) -> bool {
        &&& self.ring.wf()
        &&& self.ring.spec_capacity() == PIPE_RING_CAP
    }

    pub open spec fn contents(&self) -> Seq<u8> {
        self.ring.contents()
    }

    /// A fresh pipe with both ends open.
    pub fn new() -> (r: Pipe)
        ensures
            r.wf(),
            r.contents() == Seq::<u8>::empty(),
            r.read_open,
            r.write_open,
    {
        Pipe { ring: RingBuffer::new(32), read_open: true, write_open: true }
    }

    /// A read of an empty pipe should wait rather than report end of file
    /// while the write end is still open.
    pub fn read_would_block(&self) -> (r: bool)
        requires
            self.wf(),
        ensures
            r == (self.contents().len() == 0 && self.write_open),
    {
        let m = self.ring.available_read();
        m == 0 && self.write_open
    }

    /// A write that cannot place a single byte should wait while the read
    /// end is still open.
    pub fn write_would_block(&self) -> (r: bool)
        requires
            self.wf(),
        ensures
            r == (self.contents().len() == PIPE_RING_CAP && self.read_open),
    {
        let m = self.ring.available_write();
        m == 0 && self.read_open
    }

    /// Move up to `buf.len()` buffered bytes into the front of `buf`;
    /// returns how many were moved (0 when the pipe is empty).
    pub fn read(&mut self, buf: &mut Vec<u8>) -> (r: usize)
        requires
            old(self).wf(),
        ensures
            final(self).wf(),
            final(buf)@.len() == old(buf)@.len(),
            final(self).read_open == old(self).read_open,
            final(self).write_open == old(self).write_open,
            ({
                let rs = vstd::math::min(old(self).contents().len() as int, old(buf)@.len() as int);
                &&& r == rs
                &&& final(buf)@ == old(self).contents().subrange(0, rs)
                    + old(buf)@.subrange(rs, old(buf)@.len() as int)
                &&& final(self).contents() == old(self).contents().subrange(rs, old(self).contents().len() as int)
            }),
    {
        let avail = self.ring.available_read();
        let buf_len = buf.len();
        let want = if avail < buf_len { avail } else { buf_len };
        let ghost src = self.contents();
        let mut k: usize = 0;
        while k < want
            invariant
                self.wf(),
                self.read_open == old(self).read_open,
                self.write_open == old(self).write_open,
                k <= want,
                want == vstd::math::min(src.len() as int, buf_len as int),
                buf_len == buf@.len(),
                old(buf)@.len() == buf_len,
                self.contents() == src.subrange(k as int, src.len() as int),
                buf@ == src.subrange(0, k as int) + old(buf)@.subrange(k as int, buf_len as int),
            decreases want - k,
        {
            let ghost buf0 = buf@;
            let b = self.ring.read_byte();
            buf.set(k, b);
            k += 1;
            proof {
                assert(self.contents() =~= src.subrange(k as int, src.len() as int));
                let tgt = src.subrange(0, k as int) + old(buf)@.subrange(k as int, buf_len as int);
                assert forall|j: int| 0 <= j < buf_len implies buf@[j] == tgt[j] by {
                    if j < k - 1 {
                        assert(buf@[j] == buf0[j]);
                    } else if j >= k {
                        assert(buf@[j] == buf0[j]);
                    }
                }
                assert(buf@ =~= tgt);
            }
        }
        k
    }

    /// Append as much of `data` as fits; returns how many bytes went in
    /// (0 when the pipe is full).
    pub fn write(&mut self, data: &Vec<u8>) -> (r: usize)
        requires
            old(self).wf(),
        ensures
            final(self).wf(),
            final(self).read_open == old(self).read_open,
            final(self).write_open == old(self).write_open,
            ({
                let ws = vstd::math::min(
                    data@.len() as int,
                    PIPE_RING_CAP - old(self).contents().len(),
                );
                &&& r == ws
                &&& final(self).contents() == old(self).contents() + data@.subrange(0, ws)
            }),
    {
        let room = self.ring.available_write();
        let want = if room < data.len() { room } else { data.len() };
        let ghost base = self.contents();
        let mut k: usize = 0;
        while k < want
            invariant
                self.wf(),
                self.read_open == old(self).read_open,
                self.write_open == old(self).write_open,
                k <= want,
                want <= data@.len(),
                want == vstd::math::min(data@.len() as int, PIPE_RING_CAP - base.len()),
                self.contents() == base + data@.subrange(0, k as int),
            decreases want - k,
        {
            let b = data[k];
            self.ring.write_byte(b);
            k += 1;
            proof {
                assert(self.contents() =~= base + data@.subrange(0, k as int));
            }
        }
        k
    }

    /// Close the read end.
    pub fn close_read(&mut self)
        requires
            old(self).wf(),
        ensures
            final(self).wf(),
            (*final(self) == Pipe { read_open: false, ..*old(self) }),
    {
        self.read_open = false;
    }

    /// Close the write end.
    pub fn close_write(&mut self)
        requires
            old(self).wf(),
        ensures
            final(self).wf(),
            (*final(self) == Pipe { write_open: false, ..*old(self) }),
    {
        self.write_open = false;
    }
}

} // verus!
