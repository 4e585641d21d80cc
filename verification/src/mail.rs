//! Per-task mailbox: a ring of sixteen independent message slots. A writer
//! fills the slot after its previous write cursor if that slot is empty; a
//! reader drains the slot after its previous read cursor whole, even when
//! the destination buffer is shorter than the message.
use vstd::prelude::*;
use crate::config::{MAIL_RING_CAP, MAX_MAIL_COUNT};
use crate::ring_buffer::RingBuffer;

verus! {

/// A task's mailbox.
pub struct Mails {
    pub mails: Vec<RingBuffer>,
    pub prev_write_mail_idx: usize,
    pub prev_read_mail_idx: usize,
}

impl Mails {
    pub open spec fn wf(&self) -> bool {
        &&& self.mails@.len() == MAX_MAIL_COUNT
        &&& forall|i: int| 0 <= i < MAX_MAIL_COUNT ==> {
            &&& (#[trigger] self.mails@[i]).wf()
            &&& self.mails@[i].spec_capacity() == MAIL_RING_CAP
        }
        &&& self.prev_write_mail_idx < MAX_MAIL_COUNT
        &&& self.prev_read_mail_idx < MAX_MAIL_COUNT
    }

    /// The message bytes currently sitting in slot `i`.
    pub open spec fn slot(&self, i: int) -> Seq<u8> {
        self.mails@[i].contents()
    }

    /// The slot the next read will inspect.
    pub open spec fn next_read_idx(&self) -> int {
        (self.prev_read_mail_idx + 1) % (MAX_MAIL_COUNT as int)
    }

    /// The slot the next write will inspect.
    pub open spec fn next_write_idx(&self) -> int {
        (self.prev_write_mail_idx + 1) % (MAX_MAIL_COUNT as int)
    }

    /// A mailbox of sixteen empty slots with both cursors at zero.
    pub fn new() -> (r: Mails)
        ensures
            r.wf(),
            r.prev_write_mail_idx == 0,
            r.prev_read_mail_idx == 0,
            forall|i: int| 0 <= i < MAX_MAIL_COUNT ==> #[trigger] r.slot(i) == Seq::<u8>::empty(),
    {
        let mut mails: Vec<RingBuffer> = Vec::new();
        let mut i: usize = 0;
        while i < 16
            invariant
                mails@.len() == i,
                i <= 16,
                forall|j: int| 0 <= j < i ==> {
                    &&& (#[trigger] mails@[j]).wf()
                    &&& mails@[j].spec_capacity() == MAIL_RING_CAP
                    &&& mails@[j].contents() == Seq::<u8>::empty()
                },
            decreases 16 - i,
        {
            mails.push(RingBuffer::new(256));
            i += 1;
        }
        Mails { mails, prev_write_mail_idx: 0, prev_read_mail_idx: 0 }
    }

    /// Read the next message. With an empty buffer this is a probe: it
    /// reports 1 when a message is waiting and 0 when not, moving nothing.
    /// Otherwise, if the next slot holds a message, its bytes fill the
    /// buffer's prefix, the rest of the slot is discarded, the read cursor
    /// advances, and the number of bytes placed in the buffer is returned;
    /// if the slot is empty, 0 is returned and nothing changes.
    pub fn read(&mut self, buf: &mut Vec<u8>) -> (r: usize)
        requires
            old(self).wf(),
        ensures
            final(self).wf(),
            final(buf)@.len() == old(buf)@.len(),
            ({
                let ni = old(self).next_read_idx();
                let msg = old(self).slot(ni);
                if old(buf)@.len() == 0 {
                    &&& r == (if msg.len() == 0 { 0int } else { 1int })
                    &&& *final(self) == *old(self)
                    &&& *final(buf) == *old(buf)
                } else if msg.len() > 0 {
                    let rs = vstd::math::min(msg.len() as int, old(buf)@.len() as int);
                    &&& r == rs
                    &&& final(buf)@ == msg.subrange(0, rs)
                        + old(buf)@.subrange(rs, old(buf)@.len() as int)
                    &&& final(self).slot(ni) == Seq::<u8>::empty()
                    &&& forall|k: int| 0 <= k < MAX_MAIL_COUNT && k != ni
                            ==> #[trigger] final(self).mails@[k] == old(self).mails@[k]
                    &&& final(self).prev_read_mail_idx == ni
                    &&& final(self).prev_write_mail_idx == old(self).prev_write_mail_idx
                } else {
                    &&& r == 0
                    &&& *final(self) == *old(self)
                    &&& *final(buf) == *old(buf)
                }
            }),
    {
        let next_mail_idx: usize = (self.prev_read_mail_idx + 1) % 16;
        let next_avail_read: usize = {
            let m = &self.mails[next_mail_idx];
            m.available_read()
        };
        if buf.len() == 0 {
            return if next_avail_read == 0 { 0 } else { 1 };
        }
        if next_avail_read > 0 {
            let ghost msg = self.mails@[next_mail_idx as int].contents();
            let mut read_size: usize = 0;
            let buf_len = buf.len();
            let mut i: usize = 0;
            while i < next_avail_read
                invariant
                    self.wf(),
                    next_mail_idx < MAX_MAIL_COUNT,
                    i <= next_avail_read,
                    next_avail_read == msg.len(),
                    buf_len == buf@.len(),
                    old(buf)@.len() == buf_len,
                    buf_len > 0,
                    read_size == vstd::math::min(i as int, buf_len as int),
                    self.mails@[next_mail_idx as int].contents()
                        == msg.subrange(i as int, msg.len() as int),
                    buf@ == msg.subrange(0, read_size as int)
                        + old(buf)@.subrange(read_size as int, buf_len as int),
                    forall|k: int| 0 <= k < MAX_MAIL_COUNT && k != next_mail_idx
                        ==> #[trigger] self.mails@[k] == old(self).mails@[k],
                    self.prev_read_mail_idx == old(self).prev_read_mail_idx,
                    self.prev_write_mail_idx == old(self).prev_write_mail_idx,
                decreases next_avail_read - i,
            {
                let ghost i0 = i as int;
                let ghost rs0 = read_size as int;
                let ghost buf0 = buf@;
                let b = {
                    let m = &mut self.mails[next_mail_idx];
                    m.read_byte()
                };
                proof {
                    assert(b == msg.subrange(i0, msg.len() as int)[0]);
                    assert(b == msg[i0]);
                }
                if read_size < buf_len {
                    buf.set(read_size, b);
                    read_size += 1;
                    proof {
                        assert(rs0 == i0);
                        assert(buf@ == buf0.update(rs0, b));
                    }
                }
                i += 1;
                proof {
                    assert(self.mails@[next_mail_idx as int].contents()
                        =~= msg.subrange(i as int, msg.len() as int));
                    let tgt = msg.subrange(0, read_size as int)
                        + old(buf)@.subrange(read_size as int, buf_len as int);
                    assert(buf@.len() == tgt.len());
                    assert forall|j: int| 0 <= j < buf_len implies buf@[j] == tgt[j] by {
                        if j < rs0 {
                            assert(buf@[j] == buf0[j]);
                            assert(buf0[j] == msg.subrange(0, rs0)[j]);
                        } else if j == rs0 && rs0 < read_size {
                            assert(buf@[j] == b);
                        } else {
                            assert(buf@[j] == buf0[j]);
                        }
                    }
                    assert(buf@ =~= tgt);
                }
            }
            self.prev_read_mail_idx = next_mail_idx;
            proof {
                assert(self.mails@[next_mail_idx as int].contents() =~= Seq::<u8>::empty());
            }
            read_size
        } else {
            0
        }
    }

    /// Write a message. With an empty buffer this is a probe: it reports 1
    /// when the next slot is free and 0 when not, moving nothing. Otherwise,
    /// if the next slot is empty, up to a slot's capacity of the message is
    /// stored whole, the write cursor advances, and the byte count stored is
    /// returned; if the slot still holds an unread message, 0 is returned
    /// and nothing changes.
    pub fn write(&mut self, buf: &Vec<u8>) -> (r: usize)
        requires
            old(self).wf(),
        ensures
            final(self).wf(),
            ({
                let ni = old(self).next_write_idx();
                let slot_was = old(self).slot(ni);
                if buf@.len() == 0 {
                    &&& r == (if slot_was.len() != 0 { 0int } else { 1int })
                    &&& *final(self) == *old(self)
                } else if slot_was.len() == 0 {
                    let ws = vstd::math::min(buf@.len() as int, MAIL_RING_CAP as int);
                    &&& r == ws
                    &&& final(self).slot(ni) == buf@.subrange(0, ws)
                    &&& forall|k: int| 0 <= k < MAX_MAIL_COUNT && k != ni
                            ==> #[trigger] final(self).mails@[k] == old(self).mails@[k]
                    &&& final(self).prev_write_mail_idx == ni
                    &&& final(self).prev_read_mail_idx == old(self).prev_read_mail_idx
                } else {
                    &&& r == 0
                    &&& *final(self) == *old(self)
                }
            }),
    {
        let next_mail_idx: usize = (self.prev_write_mail_idx + 1) % 16;
        let next_avail_read: usize = {
            let m = &self.mails[next_mail_idx];
            m.available_read()
        };
        if buf.len() == 0 {
            return if next_avail_read != 0 { 0 } else { 1 };
        }
        if next_avail_read == 0 {
            let mut write_size: usize = 0;
            let avail_write: usize = {
                let m = &self.mails[next_mail_idx];
                m.available_write()
            };
            let ghost ws = vstd::math::min(buf@.len() as int, MAIL_RING_CAP as int);
            while write_size < avail_write && write_size < buf.len()
                invariant
                    self.wf(),
                    next_mail_idx < MAX_MAIL_COUNT,
                    avail_write == MAIL_RING_CAP,
                    write_size <= avail_write,
                    write_size <= buf@.len(),
                    write_size <= ws,
                    ws == vstd::math::min(buf@.len() as int, MAIL_RING_CAP as int),
                    self.mails@[next_mail_idx as int].contents() == buf@.subrange(0, write_size as int),
                    self.mails@[next_mail_idx as int].spec_capacity() == MAIL_RING_CAP,
                    forall|k: int| 0 <= k < MAX_MAIL_COUNT && k != next_mail_idx
                        ==> #[trigger] self.mails@[k] == old(self).mails@[k],
                    self.prev_read_mail_idx == old(self).prev_read_mail_idx,
                    self.prev_write_mail_idx == old(self).prev_write_mail_idx,
                decreases buf@.len() - write_size,
            {
                let b = buf[write_size];
                let m = &mut self.mails[next_mail_idx];
                m.write_byte(b);
                write_size += 1;
                proof {
                    assert(self.mails@[next_mail_idx as int].contents()
                        =~= buf@.subrange(0, write_size as int));
                }
            }
            self.prev_write_mail_idx = next_mail_idx;
            write_size
        } else {
            0
        }
    }
}

} // verus!
