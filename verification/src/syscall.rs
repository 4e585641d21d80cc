//! Syscall dispatch over explicit kernel state. The surrounding runtime
//! resolves user pointers into byte buffers through `translated_chunks`
//! (which performs the page-table walk) and performs the raw console and
//! context-switch work; every decision is made here. Each syscall's whole
//! behaviour is one outcome predicate, shared between the syscall function
//! and the dispatcher.
use vstd::prelude::*;
use crate::config::{MAIL_RING_CAP, MAX_MAIL_COUNT, PAGE_SIZE, PIPE_RING_CAP, VA_LIMIT, VPN_LIMIT};
use crate::addr::{VirtAddr, VirtPageNum, spec_va_ceil, spec_va_floor};
use crate::frame::FrameAllocator;
use crate::fs::Fd;
use crate::mail::Mails;
use crate::memory_set::MemorySet;
use crate::pipe::Pipe;
use crate::sched::{TaskControlBlock, TaskManager};

verus! {

/// Syscall numbers, as the ABI fixes them. (Exit, number 93, never
/// returns; it is served at the boundary, not here.)
pub const SYSCALL_PIPE: u64 = 59;
pub const SYSCALL_READ: u64 = 63;
pub const SYSCALL_WRITE: u64 = 64;
pub const SYSCALL_YIELD: u64 = 124;
pub const SYSCALL_SET_PRIORITY: u64 = 140;
pub const SYSCALL_GET_TIME: u64 = 169;
pub const SYSCALL_MUNMAP: u64 = 215;
pub const SYSCALL_MMAP: u64 = 222;
pub const SYSCALL_MAILREAD: u64 = 401;
pub const SYSCALL_MAILWRITE: u64 = 402;

/// Every observable part of the task manager is as it was.
pub open spec fn tm_preserved(pre: TaskManager, post: TaskManager) -> bool {
    &&& post.num_app == pre.num_app
    &&& post.tasks@ == pre.tasks@
    &&& post.current_task == pre.current_task
    &&& post.task_heap == pre.task_heap
    &&& post.pipes@ == pre.pipes@
}

/// Everything except what hangs off task `t`'s control block and the pipe
/// table is as it was, and of task `t` the scheduling fields are kept.
pub open spec fn task_frame(pre: TaskManager, post: TaskManager, t: int) -> bool {
    &&& post.num_app == pre.num_app
    &&& post.current_task == pre.current_task
    &&& post.task_heap == pre.task_heap
    &&& post.tasks@.len() == pre.tasks@.len()
    &&& forall|k: int| 0 <= k < pre.tasks@.len() && k != t
            ==> #[trigger] post.tasks@[k] == pre.tasks@[k]
    &&& post.tasks@[t].task_status == pre.tasks@[t].task_status
    &&& post.tasks@[t].task_stride == pre.tasks@[t].task_stride
    &&& post.tasks@[t].task_cx_ptr == pre.tasks@[t].task_cx_ptr
}

/// Slot `ni` now holds exactly `msg`, the write cursor moved there, and
/// nothing else of the mailbox changed.
pub open spec fn mailbox_written(pre: Mails, post: Mails, ni: int, msg: Seq<u8>) -> bool {
    &&& post.slot(ni) == msg
    &&& forall|k: int| 0 <= k < MAX_MAIL_COUNT && k != ni
            ==> #[trigger] post.mails@[k] == pre.mails@[k]
    &&& post.prev_write_mail_idx == ni
    &&& post.prev_read_mail_idx == pre.prev_read_mail_idx
}

/// Slot `ni` was emptied whole, the read cursor moved there, and nothing
/// else of the mailbox changed.
pub open spec fn mailbox_drained(pre: Mails, post: Mails, ni: int) -> bool {
    &&& post.slot(ni) == Seq::<u8>::empty()
    &&& forall|k: int| 0 <= k < MAX_MAIL_COUNT && k != ni
            ==> #[trigger] post.mails@[k] == pre.mails@[k]
    &&& post.prev_read_mail_idx == ni
    &&& post.prev_write_mail_idx == pre.prev_write_mail_idx
}

/// Pipe `p` is the only one touched.
pub open spec fn pipe_frame(pre: TaskManager, post: TaskManager, p: int) -> bool {
    &&& post.pipes@.len() == pre.pipes@.len()
    &&& forall|q: int| 0 <= q < pre.pipes@.len() && q != p
            ==> #[trigger] post.pipes@[q] == pre.pipes@[q]
}

/// The lowest free slot of an fd table (the table's length when none).
pub open spec fn spec_first_free(s: Seq<Option<Fd>>, from: int) -> int
    decreases s.len() - from,
{
    if from < 0 || from >= s.len() {
        s.len() as int
    } else if s[from] is None {
        from
    } else {
        spec_first_free(s, from + 1)
    }
}

/// Install `f` in the lowest free slot (appending when the table is
/// full); yields the descriptor and the new table.
pub open spec fn spec_alloc_fd(s: Seq<Option<Fd>>, f: Fd) -> (int, Seq<Option<Fd>>) {
    let idx = spec_first_free(s, 0);
    if idx < s.len() {
        (idx, s.update(idx, Some(f)))
    } else {
        (idx, s.push(Some(f)))
    }
}

/// Every page under `[ptr, ptr + len)` has a valid mapping in `ms`.
pub open spec fn spec_range_mapped(ms: MemorySet, ptr: u64, len: int) -> bool {
    forall|v: int|
        spec_va_floor(ptr as int) <= v < spec_va_ceil(ptr as int + len)
        ==> #[trigger] ms.page_table.spec_mapping(v) is Some
}

/// What writing to descriptor `fd` does: console output is counted (the
/// runtime prints), a pipe's write end takes what fits, the mailbox slot
/// after the write cursor takes a whole message when free, and a bad
/// descriptor, console input, or a pipe's read end answers -1.
pub open spec fn write_outcome(pre: TaskManager, post: TaskManager, fd: usize, buf: Seq<u8>, r: i64) -> bool {
    let t = pre.current_task as int;
    let cur = pre.tasks@[t];
    if fd >= cur.fd_table@.len() || cur.fd_table@[fd as int] is None {
        r == -1 && tm_preserved(pre, post)
    } else {
        match cur.fd_table@[fd as int].unwrap() {
            Fd::Stdout => r == buf.len() && tm_preserved(pre, post),
            Fd::Stdin => r == -1 && tm_preserved(pre, post),
            Fd::PipeRead(_) => r == -1 && tm_preserved(pre, post),
            Fd::PipeWrite(p) => {
                &&& r == vstd::math::min(
                    buf.len() as int,
                    PIPE_RING_CAP - pre.pipes@[p as int].contents().len())
                &&& post.pipes@[p as int].contents()
                    == pre.pipes@[p as int].contents() + buf.subrange(0, r as int)
                &&& post.pipes@[p as int].read_open == pre.pipes@[p as int].read_open
                &&& post.pipes@[p as int].write_open == pre.pipes@[p as int].write_open
                &&& pipe_frame(pre, post, p as int)
                &&& post.tasks@ == pre.tasks@
                &&& post.num_app == pre.num_app
                &&& post.current_task == pre.current_task
                &&& post.task_heap == pre.task_heap
            },
            Fd::Mail => {
                let mails = cur.mails;
                let ni = mails.next_write_idx();
                if buf.len() == 0 {
                    r == (if mails.slot(ni).len() != 0 { 0int } else { 1int })
                        && tm_preserved(pre, post)
                } else if mails.slot(ni).len() == 0 {
                    &&& r == vstd::math::min(buf.len() as int, MAIL_RING_CAP as int)
                    &&& mailbox_written(mails, post.tasks@[t].mails, ni, buf.subrange(0, r as int))
                    &&& post.tasks@[t].fd_table == cur.fd_table
                    &&& task_frame(pre, post, t)
                    &&& post.pipes@ == pre.pipes@
                } else {
                    r == 0 && tm_preserved(pre, post)
                }
            },
        }
    }
}

/// What reading descriptor `fd` does: a pipe's read end hands over what is
/// buffered, the mailbox drains the slot after the read cursor whole, and
/// a bad descriptor, a pipe's write end, or the console (whose input the
/// runtime serves at the boundary) answers -1.
pub open spec fn read_outcome(pre: TaskManager, post: TaskManager, fd: usize, pre_buf: Seq<u8>, post_buf: Seq<u8>, r: i64) -> bool {
    let t = pre.current_task as int;
    let cur = pre.tasks@[t];
    if fd >= cur.fd_table@.len() || cur.fd_table@[fd as int] is None {
        r == -1 && tm_preserved(pre, post) && post_buf == pre_buf
    } else {
        match cur.fd_table@[fd as int].unwrap() {
            Fd::Stdout => r == -1 && tm_preserved(pre, post) && post_buf == pre_buf,
            Fd::Stdin => r == -1 && tm_preserved(pre, post) && post_buf == pre_buf,
            Fd::PipeWrite(_) => r == -1 && tm_preserved(pre, post) && post_buf == pre_buf,
            Fd::PipeRead(p) => {
                let src = pre.pipes@[p as int].contents();
                let rs = vstd::math::min(src.len() as int, pre_buf.len() as int);
                &&& r == rs
                &&& post_buf == src.subrange(0, rs) + pre_buf.subrange(rs, pre_buf.len() as int)
                &&& post.pipes@[p as int].contents() == src.subrange(rs, src.len() as int)
                &&& post.pipes@[p as int].read_open == pre.pipes@[p as int].read_open
                &&& post.pipes@[p as int].write_open == pre.pipes@[p as int].write_open
                &&& pipe_frame(pre, post, p as int)
                &&& post.tasks@ == pre.tasks@
                &&& post.num_app == pre.num_app
                &&& post.current_task == pre.current_task
                &&& post.task_heap == pre.task_heap
            },
            Fd::Mail => {
                let mails = cur.mails;
                let ni = mails.next_read_idx();
                let msg = mails.slot(ni);
                if pre_buf.len() == 0 {
                    r == (if msg.len() == 0 { 0int } else { 1int })
                        && tm_preserved(pre, post) && post_buf == pre_buf
                } else if msg.len() > 0 {
                    let rs = vstd::math::min(msg.len() as int, pre_buf.len() as int);
                    &&& r == rs
                    &&& post_buf == msg.subrange(0, rs)
                        + pre_buf.subrange(rs, pre_buf.len() as int)
                    &&& mailbox_drained(mails, post.tasks@[t].mails, ni)
                    &&& post.tasks@[t].fd_table == cur.fd_table
                    &&& task_frame(pre, post, t)
                    &&& post.pipes@ == pre.pipes@
                } else {
                    r == 0 && tm_preserved(pre, post) && post_buf == pre_buf
                }
            },
        }
    }
}

/// What a mailbox read syscall does, after the destination user range is
/// checked: an empty buffer probes (-1 for no message, 0 for one
/// waiting), otherwise -1 reports an empty mailbox or a bad address, and
/// a positive count reports bytes delivered with the slot drained whole.
pub open spec fn mailread_outcome(pre: TaskManager, post: TaskManager, ms: MemorySet, ptr: u64, pre_buf: Seq<u8>, post_buf: Seq<u8>, r: i64) -> bool {
    let t = pre.current_task as int;
    let mails = pre.tasks@[t].mails;
    let ni = mails.next_read_idx();
    let msg = mails.slot(ni);
    if !spec_range_mapped(ms, ptr, pre_buf.len() as int) {
        r == -1 && tm_preserved(pre, post) && post_buf == pre_buf
    } else if pre_buf.len() == 0 {
        r == (if msg.len() == 0 { -1int } else { 0int })
            && tm_preserved(pre, post) && post_buf == pre_buf
    } else if msg.len() == 0 {
        r == -1 && tm_preserved(pre, post) && post_buf == pre_buf
    } else {
        let rs = vstd::math::min(msg.len() as int, pre_buf.len() as int);
        &&& r == rs
        &&& post_buf == msg.subrange(0, rs) + pre_buf.subrange(rs, pre_buf.len() as int)
        &&& mailbox_drained(mails, post.tasks@[t].mails, ni)
        &&& post.tasks@[t].fd_table == pre.tasks@[t].fd_table
        &&& task_frame(pre, post, t)
        &&& post.pipes@ == pre.pipes@
    }
}

/// What a mailbox write syscall does: the message goes whole (up to a
/// slot's capacity) into the slot after task `pid`'s write cursor when
/// that slot is free; an empty buffer probes (-1 for no room, 0 for a
/// free slot); -1 reports a full mailbox, a bad task id or a bad address.
pub open spec fn mailwrite_outcome(pre: TaskManager, post: TaskManager, ms: MemorySet, pid: usize, ptr: u64, buf: Seq<u8>, r: i64) -> bool {
    if pid >= pre.num_app {
        r == -1 && tm_preserved(pre, post)
    } else if !spec_range_mapped(ms, ptr, buf.len() as int) {
        r == -1 && tm_preserved(pre, post)
    } else {
        let mails = pre.tasks@[pid as int].mails;
        let ni = mails.next_write_idx();
        if buf.len() == 0 {
            r == (if mails.slot(ni).len() != 0 { -1int } else { 0int })
                && tm_preserved(pre, post)
        } else if mails.slot(ni).len() == 0 {
            let ws = vstd::math::min(buf.len() as int, MAIL_RING_CAP as int);
            &&& r == ws
            &&& mailbox_written(mails, post.tasks@[pid as int].mails, ni, buf.subrange(0, ws))
            &&& post.tasks@[pid as int].fd_table == pre.tasks@[pid as int].fd_table
            &&& task_frame(pre, post, pid as int)
            &&& post.pipes@ == pre.pipes@
        } else {
            r == -1 && tm_preserved(pre, post)
        }
    }
}

/// What closing descriptor `fd` does: the slot is freed, and a pipe-end
/// descriptor also closes its end of the pipe; -1 for a bad or
/// already-empty descriptor.
pub open spec fn close_outcome(pre: TaskManager, post: TaskManager, fd: usize, r: i64) -> bool {
    let t = pre.current_task as int;
    let cur = pre.tasks@[t];
    if fd >= cur.fd_table@.len() || cur.fd_table@[fd as int] is None {
        r == -1 && tm_preserved(pre, post)
    } else {
        &&& r == 0
        &&& post.tasks@[t].fd_table@ == cur.fd_table@.update(fd as int, None)
        &&& post.tasks@[t].mails == cur.mails
        &&& task_frame(pre, post, t)
        &&& match cur.fd_table@[fd as int].unwrap() {
            Fd::PipeRead(p) => {
                &&& (post.pipes@[p as int] == Pipe { read_open: false, ..pre.pipes@[p as int] })
                &&& pipe_frame(pre, post, p as int)
            },
            Fd::PipeWrite(p) => {
                &&& (post.pipes@[p as int] == Pipe { write_open: false, ..pre.pipes@[p as int] })
                &&& pipe_frame(pre, post, p as int)
            },
            _ => post.pipes@ == pre.pipes@,
        }
    }
}

/// What creating a pipe does: a fresh open pipe joins the table, and its
/// read and write ends land in the two lowest free descriptor slots of
/// the current task (read end first), as `spec_alloc_fd` says.
pub open spec fn pipe_outcome(pre: TaskManager, post: TaskManager, r: i64, rfd: usize, wfd: usize) -> bool {
    let t = pre.current_task as int;
    let newp = pre.pipes@.len() as usize;
    let a1 = spec_alloc_fd(pre.tasks@[t].fd_table@, Fd::PipeRead(newp));
    let a2 = spec_alloc_fd(a1.1, Fd::PipeWrite(newp));
    &&& r == 0
    &&& rfd == a1.0
    &&& wfd == a2.0
    &&& post.tasks@[t].fd_table@ == a2.1
    &&& post.tasks@[t].mails == pre.tasks@[t].mails
    &&& task_frame(pre, post, t)
    &&& post.pipes@.len() == pre.pipes@.len() + 1
    &&& post.pipes@.subrange(0, pre.pipes@.len() as int) == pre.pipes@
    &&& post.pipes@.last().contents() == Seq::<u8>::empty()
    &&& post.pipes@.last().read_open
    &&& post.pipes@.last().write_open
}

/// What mmap does: zero length is a no-op returning 0; an illegal port (a
/// bit above 0..2 set, or none of them), an unaligned or out-of-range
/// start, or an oversized length answers -1; otherwise the rounded-up
/// range goes to the overlap-checked map of the address space.
pub open spec fn mmap_outcome(pre: MemorySet, post: MemorySet, pre_avail: int, start: u64, len: u64, port: u64, r: i64) -> bool {
    let rlen = (len + (PAGE_SIZE - 1)) / (PAGE_SIZE as int) * (PAGE_SIZE as int);
    let lo = spec_va_floor(start as int);
    let hi = spec_va_ceil(start as int + rlen);
    &&& len == 0 ==> r == 0 && post == pre
    &&& len > 0 && (port / 8 != 0 || port % 8 == 0) ==> r == -1 && post == pre
    &&& len > 0 && port / 8 == 0 && port % 8 != 0 && start % PAGE_SIZE != 0
            ==> r == -1 && post == pre
    &&& len > 0 && port / 8 == 0 && port % 8 != 0 && start % PAGE_SIZE == 0
            && (start >= VA_LIMIT || rlen >= VA_LIMIT - start) ==> r == -1 && post == pre
    &&& len > 0 && port / 8 == 0 && port % 8 != 0 && start % PAGE_SIZE == 0
            && start < VA_LIMIT && rlen < VA_LIMIT - start ==> {
        if pre.overlaps_range(lo, hi)
            || (pre.trampoline is Some && lo <= pre.trampoline.unwrap() < hi)
            || pre_avail < 3 * (hi - lo) {
            r == -1 && post == pre
        } else {
            r == rlen && MemorySet::mmap_success(pre, post, lo, hi, port)
        }
    }
}

/// What munmap does: an unaligned or out-of-range start answers -1;
/// otherwise the rounded-up range goes to the coverage-checked unmap.
pub open spec fn munmap_outcome(pre: MemorySet, post: MemorySet, start: u64, len: u64, r: i64) -> bool {
    let rlen = (len + (PAGE_SIZE - 1)) / (PAGE_SIZE as int) * (PAGE_SIZE as int);
    let lo = spec_va_floor(start as int);
    let hi = spec_va_ceil(start as int + rlen);
    &&& start % PAGE_SIZE != 0 ==> r == -1 && post == pre
    &&& start % PAGE_SIZE == 0 && (start >= VA_LIMIT || rlen >= VA_LIMIT - start)
            ==> r == -1 && post == pre
    &&& start % PAGE_SIZE == 0 && start < VA_LIMIT && rlen < VA_LIMIT - start ==> {
        if !pre.covers_range(lo, hi) {
            r == -1 && post == pre
        } else {
            &&& r == rlen
            &&& post.areas@ == crate::memory_set::keep_areas(pre.areas@, lo, hi)
            &&& post.trampoline == pre.trampoline
            &&& forall|v: int| 0 <= v < VPN_LIMIT ==>
                #[trigger] post.page_table.spec_mapping(v)
                    == if crate::memory_set::removed_covers(pre.areas@, lo, hi, v) {
                        None
                    } else {
                        pre.page_table.spec_mapping(v)
                    }
        }
    }
}

/// Split the user range `[ptr, ptr + len)` at page boundaries and resolve
/// each piece through the page table: the result holds, per covered page,
/// the backing physical page, the offset into it, and the piece's length.
/// `None` when any page of the range is unmapped.
pub fn translated_chunks(ms: &MemorySet, ptr: u64, len: u64) -> (r: Option<Vec<(u64, u64, u64)>>)
    requires
        ms.wf(),
        ptr < VA_LIMIT,
        len < VA_LIMIT - ptr,
    ensures
        r is Some <==> spec_range_mapped(*ms, ptr, len as int),
        r is Some ==> {
            let lo = spec_va_floor(ptr as int);
            let hi = spec_va_ceil(ptr as int + len);
            &&& r.unwrap()@.len() == hi - lo
            &&& forall|c: int| 0 <= c < r.unwrap()@.len() ==> {
                let piece = #[trigger] r.unwrap()@[c];
                let page_start = (lo + c) * PAGE_SIZE;
                let piece_lo = vstd::math::max(ptr as int, page_start);
                let piece_hi = vstd::math::min(ptr as int + len, page_start + PAGE_SIZE);
                &&& piece.0 == ms.page_table.spec_mapping(lo + c).unwrap().spec_ppn()
                &&& piece.1 == piece_lo - page_start
                &&& piece.2 == piece_hi - piece_lo
            }
        },
{
    let start_vpn = VirtAddr(ptr).floor();
    let end_vpn = VirtAddr(ptr + len).ceil();
    let ghost lo = start_vpn.0 as int;
    let ghost hi = end_vpn.0 as int;
    let mut chunks: Vec<(u64, u64, u64)> = Vec::new();
    let mut vpn: u64 = start_vpn.0;
    proof {
        vstd::arithmetic::div_mod::lemma_div_is_ordered(
            ptr as int, ptr as int + len, PAGE_SIZE as int);
    }
    while vpn < end_vpn.0
        invariant
            ms.wf(),
            ptr < VA_LIMIT,
            len < VA_LIMIT - ptr,
            start_vpn.0 == lo,
            end_vpn.0 == hi,
            lo == spec_va_floor(ptr as int),
            hi == spec_va_ceil(ptr as int + len),
            hi <= VPN_LIMIT,
            lo <= vpn <= hi,
            chunks@.len() == vpn - lo,
            forall|v: int| lo <= v < vpn ==> #[trigger] ms.page_table.spec_mapping(v) is Some,
            forall|c: int| 0 <= c < chunks@.len() ==> {
                let piece = #[trigger] chunks@[c];
                let page_start = (lo + c) * PAGE_SIZE;
                let piece_lo = vstd::math::max(ptr as int, page_start);
                let piece_hi = vstd::math::min(ptr as int + len, page_start + PAGE_SIZE);
                &&& piece.0 == ms.page_table.spec_mapping(lo + c).unwrap().spec_ppn()
                &&& piece.1 == piece_lo - page_start
                &&& piece.2 == piece_hi - piece_lo
            },
        decreases hi - vpn,
    {
        let pte = match ms.translate(VirtPageNum(vpn)) {
            None => {
                proof {
                    assert(!(ms.page_table.spec_mapping(vpn as int) is Some));
                }
                return None;
            }
            Some(p) => p,
        };
        let page_start = vpn * PAGE_SIZE;
        let piece_lo = if ptr > page_start { ptr } else { page_start };
        let range_end = ptr + len;
        let page_end = page_start + PAGE_SIZE;
        let piece_hi = if range_end < page_end { range_end } else { page_end };
        proof {
            assert(page_start <= ptr as int + len && ptr as int <= page_end) by (nonlinear_arith)
                requires
                    lo <= vpn < hi,
                    0 <= ptr as int,
                    0 <= len,
                    ptr as int + len < 0x8000000000,
                    lo == (ptr as int) / 4096,
                    hi == (ptr as int + len + 4095) / 4096,
                    page_start == vpn * 4096,
                    page_end == page_start + 4096;
        }
        chunks.push((pte.ppn().0, piece_lo - page_start, piece_hi - piece_lo));
        vpn += 1;
    }
    Some(chunks)
}

/// Write to a file descriptor; `write_outcome` is the whole story.
pub fn sys_write(tm: &mut TaskManager, fd: usize, buf: &Vec<u8>) -> (r: i64)
    requires
        old(tm).wf(),
        buf@.len() < 0x8000000000000000,
    ensures
        final(tm).wf(),
        write_outcome(*old(tm), *final(tm), fd, buf@, r),
{
    let current = tm.current_task;
    if fd >= tm.tasks[current].fd_table.len() {
        return -1;
    }
    let entry = tm.tasks[current].fd_table[fd];
    match entry {
        None => -1,
        Some(Fd::Stdout) => buf.len() as i64,
        Some(Fd::Stdin) => -1,
        Some(Fd::PipeRead(_)) => -1,
        Some(Fd::PipeWrite(p)) => {
            let pipe = &mut tm.pipes[p];
            let n = pipe.write(buf);
            n as i64
        }
        Some(Fd::Mail) => {
            let task = &mut tm.tasks[current];
            let n = task.mails.write(buf);
            proof {
                if tm.tasks@[current as int] == old(tm).tasks@[current as int] {
                    assert(tm.tasks@ =~= old(tm).tasks@);
                }
            }
            n as i64
        }
    }
}

/// Read from a file descriptor into the caller's buffer (whose bytes the
/// runtime then copies back to user memory); `read_outcome` is the whole
/// story.
pub fn sys_read(tm: &mut TaskManager, fd: usize, buf: &mut Vec<u8>) -> (r: i64)
    requires
        old(tm).wf(),
        old(buf)@.len() < 0x8000000000000000,
    ensures
        final(tm).wf(),
        final(buf)@.len() == old(buf)@.len(),
        read_outcome(*old(tm), *final(tm), fd, old(buf)@, final(buf)@, r),
{
    let current = tm.current_task;
    if fd >= tm.tasks[current].fd_table.len() {
        return -1;
    }
    let entry = tm.tasks[current].fd_table[fd];
    match entry {
        None => -1,
        Some(Fd::Stdout) => -1,
        Some(Fd::Stdin) => -1,
        Some(Fd::PipeWrite(_)) => -1,
        Some(Fd::PipeRead(p)) => {
            let pipe = &mut tm.pipes[p];
            let n = pipe.read(buf);
            n as i64
        }
        Some(Fd::Mail) => {
            let task = &mut tm.tasks[current];
            let n = task.mails.read(buf);
            proof {
                if tm.tasks@[current as int] == old(tm).tasks@[current as int] {
                    assert(tm.tasks@ =~= old(tm).tasks@);
                }
            }
            n as i64
        }
    }
}

/// Read the current task's mailbox; `mailread_outcome` is the whole story.
pub fn sys_mailread(tm: &mut TaskManager, ms: &MemorySet, ptr: u64, buf: &mut Vec<u8>) -> (r: i64)
    requires
        old(tm).wf(),
        ms.wf(),
        ptr < VA_LIMIT,
        old(buf)@.len() < VA_LIMIT - ptr,
    ensures
        final(tm).wf(),
        final(buf)@.len() == old(buf)@.len(),
        mailread_outcome(*old(tm), *final(tm), *ms, ptr, old(buf)@, final(buf)@, r),
{
    match translated_chunks(ms, ptr, buf.len() as u64) {
        None => -1,
        Some(_) => {
            let len = buf.len();
            let current = tm.current_task;
            let task = &mut tm.tasks[current];
            let n = task.mails.read(buf);
            proof {
                if tm.tasks@[current as int] == old(tm).tasks@[current as int] {
                    assert(tm.tasks@ =~= old(tm).tasks@);
                }
            }
            if len == 0 {
                if n == 0 { -1 } else { 0 }
            } else {
                if n == 0 { -1 } else { n as i64 }
            }
        }
    }
}

/// Deliver a message to the mailbox of task `pid` (possibly the current
/// task); `mailwrite_outcome` is the whole story.
pub fn sys_mailwrite(tm: &mut TaskManager, ms: &MemorySet, pid: usize, ptr: u64, buf: &Vec<u8>) -> (r: i64)
    requires
        old(tm).wf(),
        ms.wf(),
        ptr < VA_LIMIT,
        buf@.len() < VA_LIMIT - ptr,
    ensures
        final(tm).wf(),
        mailwrite_outcome(*old(tm), *final(tm), *ms, pid, ptr, buf@, r),
{
    if pid >= tm.num_app {
        return -1;
    }
    match translated_chunks(ms, ptr, buf.len() as u64) {
        None => -1,
        Some(_) => {
            let task = &mut tm.tasks[pid];
            let n = task.mails.write(buf);
            proof {
                if tm.tasks@[pid as int] == old(tm).tasks@[pid as int] {
                    assert(tm.tasks@ =~= old(tm).tasks@);
                }
            }
            if buf.len() == 0 {
                if n == 0 { -1 } else { 0 }
            } else {
                if n == 0 { -1 } else { n as i64 }
            }
        }
    }
}

/// Close a file descriptor, closing the pipe end it referred to;
/// `close_outcome` is the whole story.
pub fn sys_close(tm: &mut TaskManager, fd: usize) -> (r: i64)
    requires
        old(tm).wf(),
    ensures
        final(tm).wf(),
        close_outcome(*old(tm), *final(tm), fd, r),
{
    let current = tm.current_task;
    if fd >= tm.tasks[current].fd_table.len() {
        return -1;
    }
    let entry = tm.tasks[current].fd_table[fd];
    match entry {
        None => {
            return -1;
        }
        Some(Fd::PipeRead(p)) => {
            let pipe = &mut tm.pipes[p];
            pipe.close_read();
        }
        Some(Fd::PipeWrite(p)) => {
            let pipe = &mut tm.pipes[p];
            pipe.close_write();
        }
        Some(_) => {}
    }
    let task = &mut tm.tasks[current];
    task.fd_table.set(fd, None);
    proof {
        assert forall|t: int| 0 <= t < tm.tasks@.len()
            implies (#[trigger] tm.tasks@[t]).wf(tm.pipes@.len() as int) by {
            if t != current {
                assert(tm.tasks@[t] == old(tm).tasks@[t]);
                assert(old(tm).tasks@[t].wf(old(tm).pipes@.len() as int));
            } else {
                assert(old(tm).tasks@[t].wf(old(tm).pipes@.len() as int));
            }
        }
    }
    0
}

/// Put `f` into the lowest free slot of the table, appending when full.
fn alloc_fd_slot(fd_table: &mut Vec<Option<Fd>>, f: Fd) -> (r: usize)
    requires
        old(fd_table)@.len() < usize::MAX,
    ensures
        r == spec_alloc_fd(old(fd_table)@, f).0,
        final(fd_table)@ == spec_alloc_fd(old(fd_table)@, f).1,
{
    let n = fd_table.len();
    let mut i: usize = 0;
    while i < n
        invariant
            fd_table == old(fd_table),
            n == fd_table@.len(),
            i <= n,
            spec_first_free(fd_table@, 0) == spec_first_free(fd_table@, i as int),
        decreases n - i,
    {
        if fd_table[i].is_none() {
            fd_table.set(i, Some(f));
            return i;
        }
        i += 1;
    }
    fd_table.push(Some(f));
    n
}

/// Create a pipe: a fresh open pipe joins the table and its two ends go
/// to the current task's two lowest free descriptors (read end first),
/// which the runtime writes to user memory. `pipe_outcome` is the whole
/// story; the syscall result is the 0 in the first position.
pub fn sys_pipe(tm: &mut TaskManager) -> (r: (i64, usize, usize))
    requires
        old(tm).wf(),
        old(tm).tasks@[old(tm).current_task as int].fd_table@.len() < usize::MAX - 1,
        old(tm).pipes@.len() < usize::MAX,
    ensures
        final(tm).wf(),
        pipe_outcome(*old(tm), *final(tm), r.0, r.1, r.2),
{
    let current = tm.current_task;
    let pipe_id = tm.pipes.len();
    tm.pipes.push(crate::pipe::Pipe::new());
    let task = &mut tm.tasks[current];
    let read_fd = alloc_fd_slot(&mut task.fd_table, Fd::PipeRead(pipe_id));
    let write_fd = alloc_fd_slot(&mut task.fd_table, Fd::PipeWrite(pipe_id));
    proof {
        assert(tm.pipes@.subrange(0, old(tm).pipes@.len() as int) =~= old(tm).pipes@);
        assert forall|t: int| 0 <= t < tm.tasks@.len()
            implies (#[trigger] tm.tasks@[t]).wf(tm.pipes@.len() as int) by {
            if t != current {
                assert(tm.tasks@[t] == old(tm).tasks@[t]);
                assert(old(tm).tasks@[t].wf(old(tm).pipes@.len() as int));
            } else {
                let f0 = old(tm).tasks@[t].fd_table@;
                let a1 = spec_alloc_fd(f0, Fd::PipeRead(pipe_id));
                let a2 = spec_alloc_fd(a1.1, Fd::PipeWrite(pipe_id));
                assert(old(tm).tasks@[t].wf(old(tm).pipes@.len() as int));
                assert forall|x: int| 0 <= x < tm.tasks@[t].fd_table@.len()
                    implies match #[trigger] tm.tasks@[t].fd_table@[x] {
                        Some(Fd::PipeRead(q)) => q < tm.pipes@.len(),
                        Some(Fd::PipeWrite(q)) => q < tm.pipes@.len(),
                        _ => true,
                    } by {
                    if x < f0.len() && tm.tasks@[t].fd_table@[x] == f0[x] {
                        assert(old(tm).tasks@[t].wf(old(tm).pipes@.len() as int));
                    }
                }
            }
        }
    }
    (0, read_fd, write_fd)
}

/// Yield: the current task goes back to Ready and the scheduler picks the
/// next one; the runtime performs the context switch between the returned
/// task indices. The syscall result is always 0; the task that yielded is
/// left Ready (or Running again, when it is the one chosen), and nothing
/// is chosen only when no task is runnable.
pub fn sys_yield(tm: &mut TaskManager) -> (r: (i64, Option<(usize, usize)>))
    requires
        old(tm).wf(),
    ensures
        final(tm).wf(),
        r.0 == 0,
        final(tm).tasks@.len() == old(tm).tasks@.len(),
        r.1 is Some ==> {
            &&& r.1.unwrap().0 == old(tm).current_task
            &&& r.1.unwrap().1 < final(tm).tasks@.len()
            &&& final(tm).tasks@[r.1.unwrap().1 as int].task_status
                    is Running
            &&& final(tm).current_task == r.1.unwrap().1
        },
        r.1 is Some && r.1.unwrap().1 != old(tm).current_task
            ==> final(tm).tasks@[old(tm).current_task as int].task_status is Ready,
        r.1 is None ==> final(tm).current_task == old(tm).current_task
            && (forall|x: (u64, usize)|
                #[trigger] crate::sched::heap_entries(old(tm).task_heap).count(x) > 0
                    ==> x.1 != old(tm).current_task
                        && !(old(tm).tasks@[x.1 as int].task_status is Ready)),
{
    let switch = tm.suspend_current_and_run_next();
    (0, switch)
}

/// Report the clock reading the runtime took, split for the user's
/// timeval record: seconds and the microseconds below a second. The
/// syscall result is the 0 in the first position; the runtime writes the
/// pair through the user's pointer.
pub fn sys_get_time(now_us: u64) -> (r: (i64, u64, u64))
    ensures
        r.0 == 0,
        r.1 == now_us / 1000000,
        r.2 == now_us % 1000000,
{
    (0, now_us / 1000000, now_us % 1000000)
}

/// Set the current task's scheduling priority; the stride becomes
/// `BIG_STRIDE / prio`. A priority below 2 is rejected with -1; nothing
/// else of the manager changes either way.
pub fn sys_set_priority(tm: &mut TaskManager, prio: u64) -> (r: i64)
    requires
        old(tm).wf(),
        prio < 0x8000000000000000,
    ensures
        final(tm).wf(),
        prio < 2 ==> r == -1 && tm_preserved(*old(tm), *final(tm)),
        prio >= 2 ==> {
            &&& r == prio
            &&& final(tm).tasks@[old(tm).current_task as int].task_stride
                == crate::config::BIG_STRIDE / prio
            &&& final(tm).tasks@[old(tm).current_task as int]
                == (TaskControlBlock {
                    task_stride: (crate::config::BIG_STRIDE / prio) as u64,
                    ..old(tm).tasks@[old(tm).current_task as int]
                })
            &&& final(tm).tasks@.len() == old(tm).tasks@.len()
            &&& (forall|k: int| 0 <= k < old(tm).tasks@.len() && k != old(tm).current_task
                    ==> #[trigger] final(tm).tasks@[k] == old(tm).tasks@[k])
            &&& final(tm).num_app == old(tm).num_app
            &&& final(tm).current_task == old(tm).current_task
            &&& final(tm).task_heap == old(tm).task_heap
            &&& final(tm).pipes@ == old(tm).pipes@
        },
{
    if prio < 2 {
        return -1;
    }
    tm.set_current_priority(prio);
    prio as i64
}

/// Map a user range; `mmap_outcome` is the whole story.
pub fn sys_mmap(ms: &mut MemorySet, alloc: &mut FrameAllocator, start: u64, len: u64, port: u64) -> (r: i64)
    requires
        old(ms).wf(),
        old(alloc).wf(),
    ensures
        final(ms).wf(),
        final(alloc).wf(),
        final(alloc).end == old(alloc).end,
        mmap_outcome(*old(ms), *final(ms), old(alloc).avail(), start, len, port, r),
{
    if len == 0 {
        return 0;
    }
    if port / 8 != 0 || port % 8 == 0 {
        return -1;
    }
    if start % PAGE_SIZE != 0 {
        return -1;
    }
    if start >= VA_LIMIT || len >= VA_LIMIT {
        return -1;
    }
    let rounded = (len + (PAGE_SIZE - 1)) / PAGE_SIZE * PAGE_SIZE;
    if rounded >= VA_LIMIT - start {
        return -1;
    }
    ms.check_and_map(start, rounded, port, alloc)
}

/// Unmap a user range; `munmap_outcome` is the whole story.
pub fn sys_munmap(ms: &mut MemorySet, start: u64, len: u64) -> (r: i64)
    requires
        old(ms).wf(),
    ensures
        final(ms).wf(),
        munmap_outcome(*old(ms), *final(ms), start, len, r),
{
    if start % PAGE_SIZE != 0 {
        return -1;
    }
    if start >= VA_LIMIT || len >= VA_LIMIT {
        return -1;
    }
    let rounded = (len + (PAGE_SIZE - 1)) / PAGE_SIZE * PAGE_SIZE;
    if rounded >= VA_LIMIT - start {
        return -1;
    }
    ms.check_and_unmap(start, rounded)
}

/// Dispatch one syscall by number; each arm's outcome predicate carries
/// its handler's whole contract. Buffers already resolved from user
/// memory arrive in `buf_in` / `buf_out`; the runtime supplies the clock
/// reading, performs any context switch the yield arm decides, and writes
/// a new pipe's descriptors or the time pair back to user memory.
pub fn syscall(tm: &mut TaskManager, ms: &mut MemorySet, alloc: &mut FrameAllocator, syscall_id: u64, args: [u64; 3], buf_in: &Vec<u8>, buf_out: &mut Vec<u8>, now_us: u64) -> (r: i64)
    requires
        old(tm).wf(),
        old(ms).wf(),
        old(alloc).wf(),
        buf_in@.len() < 0x100000000,
        old(buf_out)@.len() < 0x100000000,
        args[0] < 0x8000000000000000,
        old(tm).tasks@[old(tm).current_task as int].fd_table@.len() < 0x8000,
        old(tm).pipes@.len() < 0x8000,
        syscall_id == SYSCALL_PIPE || syscall_id == SYSCALL_READ
            || syscall_id == SYSCALL_WRITE || syscall_id == SYSCALL_YIELD
            || syscall_id == SYSCALL_SET_PRIORITY || syscall_id == SYSCALL_GET_TIME
            || syscall_id == SYSCALL_MUNMAP || syscall_id == SYSCALL_MMAP
            || syscall_id == SYSCALL_MAILREAD || syscall_id == SYSCALL_MAILWRITE,
    ensures
        final(tm).wf(),
        final(ms).wf(),
        final(alloc).wf(),
        syscall_id == SYSCALL_WRITE
            ==> write_outcome(*old(tm), *final(tm), args[0] as usize, buf_in@, r)
                && *final(ms) == *old(ms),
        syscall_id == SYSCALL_READ
            ==> read_outcome(*old(tm), *final(tm), args[0] as usize, old(buf_out)@, final(buf_out)@, r)
                && *final(ms) == *old(ms),
        syscall_id == SYSCALL_PIPE
            ==> (exists|rfd: usize, wfd: usize|
                    pipe_outcome(*old(tm), *final(tm), r, rfd, wfd))
                && *final(ms) == *old(ms),
        syscall_id == SYSCALL_YIELD ==> r == 0 && *final(ms) == *old(ms),
        syscall_id == SYSCALL_GET_TIME ==> r == 0 && tm_preserved(*old(tm), *final(tm))
            && *final(ms) == *old(ms),
        syscall_id == SYSCALL_SET_PRIORITY ==> *final(ms) == *old(ms)
            && (args[0] < 2 ==> r == -1 && tm_preserved(*old(tm), *final(tm)))
            && (args[0] >= 2 ==> r == args[0]
                && final(tm).tasks@[old(tm).current_task as int].task_stride
                    == crate::config::BIG_STRIDE / args[0]),
        syscall_id == SYSCALL_MMAP
            ==> mmap_outcome(*old(ms), *final(ms), old(alloc).avail(), args[0], args[1], args[2], r)
                && tm_preserved(*old(tm), *final(tm)),
        syscall_id == SYSCALL_MUNMAP
            ==> munmap_outcome(*old(ms), *final(ms), args[0], args[1], r)
                && tm_preserved(*old(tm), *final(tm)),
        syscall_id == SYSCALL_MAILREAD
            ==> *final(ms) == *old(ms)
                && (args[0] < VA_LIMIT && old(buf_out)@.len() < VA_LIMIT - args[0]
                    ==> mailread_outcome(*old(tm), *final(tm), *old(ms), args[0], old(buf_out)@, final(buf_out)@, r))
                && (!(args[0] < VA_LIMIT && old(buf_out)@.len() < VA_LIMIT - args[0])
                    ==> r == -1 && tm_preserved(*old(tm), *final(tm))),
        syscall_id == SYSCALL_MAILWRITE
            ==> *final(ms) == *old(ms)
                && (args[1] < VA_LIMIT && buf_in@.len() < VA_LIMIT - args[1]
                    ==> mailwrite_outcome(*old(tm), *final(tm), *old(ms), args[0] as usize, args[1], buf_in@, r))
                && (!(args[1] < VA_LIMIT && buf_in@.len() < VA_LIMIT - args[1])
                    ==> r == -1 && tm_preserved(*old(tm), *final(tm))),
{
    if syscall_id == SYSCALL_WRITE {
        sys_write(tm, args[0] as usize, buf_in)
    } else if syscall_id == SYSCALL_READ {
        sys_read(tm, args[0] as usize, buf_out)
    } else if syscall_id == SYSCALL_PIPE {
        let (code, _read_fd, _write_fd) = sys_pipe(tm);
        code
    } else if syscall_id == SYSCALL_YIELD {
        let (code, _switch) = sys_yield(tm);
        code
    } else if syscall_id == SYSCALL_SET_PRIORITY {
        sys_set_priority(tm, args[0])
    } else if syscall_id == SYSCALL_GET_TIME {
        let (code, _secs, _usecs) = sys_get_time(now_us);
        code
    } else if syscall_id == SYSCALL_MMAP {
        sys_mmap(ms, alloc, args[0], args[1], args[2])
    } else if syscall_id == SYSCALL_MUNMAP {
        sys_munmap(ms, args[0], args[1])
    } else if syscall_id == SYSCALL_MAILREAD {
        if args[0] < VA_LIMIT && (buf_out.len() as u64) < VA_LIMIT - args[0] {
            sys_mailread(tm, ms, args[0], buf_out)
        } else {
            -1
        }
    } else {
        if args[1] < VA_LIMIT && (buf_in.len() as u64) < VA_LIMIT - args[1] {
            sys_mailwrite(tm, ms, args[0] as usize, args[1], buf_in)
        } else {
            -1
        }
    }
}

} // verus!
