//! Stride scheduling: each task carries a stride `BIG_STRIDE / priority`;
//! the runnable task with the least cumulative pass runs next. Pending
//! `(pass, task)` pairs sit in a bounded min-heap; entries of exited tasks
//! go stale and are filtered when popped.
use vstd::prelude::*;
use vstd::multiset::Multiset;
use core::cmp::Ordering;
use heapless::binary_heap::{BinaryHeap, Min};
use crate::config::BIG_STRIDE;
use crate::fs::Fd;
use crate::mail::Mails;
use crate::pipe::Pipe;

verus! {

/// A cumulative pass value, ordered inside a window of `BIG_STRIDE / 2` so
/// that comparison survives wrap-around of the counter.
#[derive(Clone, Copy, PartialEq, Eq, Structural, Debug)]
pub struct Pass(pub u64);

/// `a + b` on 64-bit pass values, wrapping.
pub open spec fn spec_wrap_add(a: u64, b: u64) -> u64 {
    ((a + b) % 0x10000000000000000) as u64
}

/// The wrap-safe order: when the raw values differ, the one that is behind
/// by at most `BIG_STRIDE / 2` (mod 2^64) is the smaller.
pub open spec fn spec_pass_cmp(a: u64, b: u64) -> Ordering {
    if a < b {
        if b - a > BIG_STRIDE / 2 {
            Ordering::Greater
        } else {
            Ordering::Less
        }
    } else if a > b {
        if a - b > BIG_STRIDE / 2 {
            Ordering::Less
        } else {
            Ordering::Greater
        }
    } else {
        Ordering::Equal
    }
}

impl Pass {
    /// Advance the pass by one stride, wrapping.
    pub fn add_stride(self, stride: u64) -> (r: Pass)
        ensures
            r.0 == spec_wrap_add(self.0, stride),
    {
        Pass(self.0.wrapping_add(stride))
    }

    /// Compare two passes in the wrap-safe window order.
    pub fn cmp(&self, other: &Pass) -> (r: Ordering)
        ensures
            r == spec_pass_cmp(self.0, other.0),
    {
        if self.0 < other.0 {
            if other.0 - self.0 > BIG_STRIDE / 2 {
                Ordering::Greater
            } else {
                Ordering::Less
            }
        } else if self.0 > other.0 {
            if self.0 - other.0 > BIG_STRIDE / 2 {
                Ordering::Less
            } else {
                Ordering::Greater
            }
        } else {
            Ordering::Equal
        }
    }
}

/// A pass that moved forward by at most half the window is seen as having
/// grown, even across a wrap of the 64-bit counter.
pub proof fn lemma_pass_cmp_small_step(a: u64, d: u64)
    requires
        0 < d <= BIG_STRIDE / 2,
    ensures
        spec_pass_cmp(a, spec_wrap_add(a, d)) == Ordering::Less,
{
    let s = spec_wrap_add(a, d);
    if a + d < 0x10000000000000000 {
        assert(s == a + d);
    } else {
        assert(s == a + d - 0x10000000000000000);
        assert(a - s == 0x10000000000000000 - d);
    }
}

/// A pass that moved forward by more than half the window (without the
/// counter wrapping) is seen as having gone backwards: the comparison
/// window is `BIG_STRIDE / 2` wide. (With a wrap of the 64-bit counter the
/// large-step direction is not preserved.)
pub proof fn lemma_pass_cmp_large_step(a: u64, d: u64)
    requires
        BIG_STRIDE / 2 < d < BIG_STRIDE,
        a + d <= u64::MAX,
    ensures
        spec_pass_cmp(a, spec_wrap_add(a, d)) == Ordering::Greater,
{
}

/// Lexicographic order on `(pass, task)` heap entries; this is the order
/// std gives tuples of integers.
pub open spec fn entry_le(a: (u64, usize), b: (u64, usize)) -> bool {
    a.0 < b.0 || (a.0 == b.0 && a.1 <= b.1)
}

#[verifier::external_type_specification]
#[verifier::external_body]
pub struct ExMin(Min);

#[verifier::external_type_specification]
#[verifier::external_body]
#[verifier::reject_recursive_types(T)]
#[verifier::reject_recursive_types(K)]
pub struct ExBinaryHeap<T, K, const N: usize>(BinaryHeap<T, K, N>);

/// The multiset of `(pass, task)` entries a scheduler heap holds.
pub uninterp spec fn heap_entries(h: BinaryHeap<(u64, usize), Min, 16>) -> Multiset<(u64, usize)>;

/// Relies on heapless `BinaryHeap::new`: a fresh heap holds nothing.
#[verifier::external_body]
fn heap_new() -> (r: BinaryHeap<(u64, usize), Min, 16>)
    ensures
        heap_entries(r) == Multiset::<(u64, usize)>::empty(),
{
    BinaryHeap::new()
}

/// Relies on heapless `BinaryHeap::push`: stores the entry unless the heap
/// already holds its bound of 16, in which case the entry comes back.
#[verifier::external_body]
fn heap_push(h: &mut BinaryHeap<(u64, usize), Min, 16>, item: (u64, usize)) -> (r: Result<(), (u64, usize)>)
    ensures
        heap_entries(*old(h)).len() < 16 ==> r is Ok
            && heap_entries(*final(h)) == heap_entries(*old(h)).insert(item),
        heap_entries(*old(h)).len() >= 16 ==> r is Err
            && heap_entries(*final(h)) == heap_entries(*old(h)),
{
    h.push(item)
}

/// Relies on heapless `BinaryHeap::pop` with the `Min` kind: removes and
/// returns a least entry under the lexicographic tuple order, or nothing
/// when the heap is empty.
#[verifier::external_body]
fn heap_pop(h: &mut BinaryHeap<(u64, usize), Min, 16>) -> (r: Option<(u64, usize)>)
    ensures
        heap_entries(*old(h)).len() == 0 ==> r is None
            && heap_entries(*final(h)) == heap_entries(*old(h)),
        heap_entries(*old(h)).len() > 0 ==> {
            &&& r is Some
            &&& heap_entries(*old(h)).count(r.unwrap()) > 0
            &&& heap_entries(*final(h)) == heap_entries(*old(h)).remove(r.unwrap())
            &&& forall|x: (u64, usize)| #[trigger] heap_entries(*old(h)).count(x) > 0
                    ==> entry_le(r.unwrap(), x)
        },
{
    h.pop()
}

#[derive(Clone, Copy, PartialEq, Eq, Structural, Debug)]
pub enum TaskStatus {
    UnInit,
    Ready,
    Running,
    Exited,
}

/// One task: saved-context pointer, run state, stride, fd table, mailbox.
pub struct TaskControlBlock {
    pub task_cx_ptr: u64,
    pub task_status: TaskStatus,
    pub task_stride: u64,
    pub fd_table: Vec<Option<Fd>>,
    pub mails: Mails,
}

impl TaskControlBlock {
    pub open spec fn wf(&self, pipe_count: int) -> bool {
        &&& self.mails.wf()
        &&& forall|f: int| 0 <= f < self.fd_table@.len() ==> match #[trigger] self.fd_table@[f] {
            Some(Fd::PipeRead(p)) => p < pipe_count,
            Some(Fd::PipeWrite(p)) => p < pipe_count,
            _ => true,
        }
    }
}

/// The scheduler and task table.
pub struct TaskManager {
    pub num_app: usize,
    pub tasks: Vec<TaskControlBlock>,
    pub current_task: usize,
    pub task_heap: BinaryHeap<(u64, usize), Min, 16>,
    pub pipes: Vec<Pipe>,
}

impl TaskManager {
    pub open spec fn wf(&self) -> bool {
        &&& self.tasks@.len() == self.num_app <= 16
        &&& self.num_app > 0
        &&& self.current_task < self.num_app
        &&& heap_entries(self.task_heap).len() <= 16
        &&& forall|x: (u64, usize)| #[trigger] heap_entries(self.task_heap).count(x) > 0
                ==> x.1 < self.num_app
        &&& forall|t: int| 0 <= t < self.tasks@.len()
                ==> (#[trigger] self.tasks@[t]).wf(self.pipes@.len() as int)
        &&& forall|p: int| 0 <= p < self.pipes@.len() ==> (#[trigger] self.pipes@[p]).wf()
    }

    /// A manager over `num_app` tasks, all Ready at the default stride
    /// `BIG_STRIDE / 2`, each with stdin, stdout, stderr and its mailbox
    /// open, and one heap entry per task.
    pub fn new(num_app: usize, cx_ptrs: &Vec<u64>) -> (r: TaskManager)
        requires
            0 < num_app <= 16,
            cx_ptrs@.len() == num_app,
        ensures
            r.wf(),
            r.num_app == num_app,
            r.current_task == 0,
            r.pipes@.len() == 0,
            heap_entries(r.task_heap).len() == num_app,
            forall|t: int| 0 <= t < num_app ==> {
                &&& (#[trigger] r.tasks@[t]).task_status is Ready
                &&& r.tasks@[t].task_stride == BIG_STRIDE / 2
                &&& r.tasks@[t].task_cx_ptr == cx_ptrs@[t]
                &&& r.tasks@[t].fd_table@ == seq![
                    Some(Fd::Stdin), Some(Fd::Stdout), Some(Fd::Stdout), Some(Fd::Mail)]
                &&& r.tasks@[t].mails.prev_read_mail_idx == 0
                &&& r.tasks@[t].mails.prev_write_mail_idx == 0
                &&& forall|m: int| 0 <= m < crate::config::MAX_MAIL_COUNT
                        ==> #[trigger] r.tasks@[t].mails.slot(m) == Seq::<u8>::empty()
            },
            forall|t: usize| 0 <= t < num_app
                ==> #[trigger] heap_entries(r.task_heap).count(((BIG_STRIDE / 2) as u64, t)) >= 1,
    {
        let mut tasks: Vec<TaskControlBlock> = Vec::new();
        let mut heap = heap_new();
        let mut i: usize = 0;
        while i < num_app
            invariant
                0 < num_app <= 16,
                cx_ptrs@.len() == num_app,
                i <= num_app,
                tasks@.len() == i,
                heap_entries(heap).len() == i,
                forall|x: (u64, usize)| #[trigger] heap_entries(heap).count(x) > 0 ==> x.1 < i,
                forall|t: int| 0 <= t < i ==> {
                    &&& (#[trigger] tasks@[t]).task_status is Ready
                    &&& tasks@[t].task_stride == BIG_STRIDE / 2
                    &&& tasks@[t].task_cx_ptr == cx_ptrs@[t]
                    &&& tasks@[t].fd_table@ == seq![
                        Some(Fd::Stdin), Some(Fd::Stdout), Some(Fd::Stdout), Some(Fd::Mail)]
                    &&& tasks@[t].mails.prev_read_mail_idx == 0
                    &&& tasks@[t].mails.prev_write_mail_idx == 0
                    &&& (forall|m: int| 0 <= m < crate::config::MAX_MAIL_COUNT
                            ==> #[trigger] tasks@[t].mails.slot(m) == Seq::<u8>::empty())
                    &&& tasks@[t].wf(0)
                },
                forall|t: usize| 0 <= t < i
                    ==> #[trigger] heap_entries(heap).count(((BIG_STRIDE / 2) as u64, t)) >= 1,
            decreases num_app - i,
        {
            let mut fd_table: Vec<Option<Fd>> = Vec::new();
            fd_table.push(Some(Fd::Stdin));
            fd_table.push(Some(Fd::Stdout));
            fd_table.push(Some(Fd::Stdout));
            fd_table.push(Some(Fd::Mail));
            proof {
                assert(fd_table@ =~= seq![
                    Some(Fd::Stdin), Some(Fd::Stdout), Some(Fd::Stdout), Some(Fd::Mail)]);
            }
            let tcb = TaskControlBlock {
                task_cx_ptr: cx_ptrs[i],
                task_status: TaskStatus::Ready,
                task_stride: BIG_STRIDE / 2,
                fd_table,
                mails: Mails::new(),
            };
            tasks.push(tcb);
            let _ = heap_push(&mut heap, (BIG_STRIDE / 2, i));
            i += 1;
        }
        TaskManager {
            num_app,
            tasks,
            current_task: 0,
            task_heap: heap,
            pipes: Vec::new(),
        }
    }

    /// Mark the first task Running; the caller switches into its context.
    pub fn run_first_task(&mut self) -> (r: usize)
        requires
            old(self).wf(),
        ensures
            final(self).wf(),
            r == 0,
            final(self).tasks@.len() == old(self).tasks@.len(),
            final(self).num_app == old(self).num_app,
            final(self).current_task == old(self).current_task,
            final(self).task_heap == old(self).task_heap,
            final(self).pipes == old(self).pipes,
            final(self).tasks@[0].task_status is Running,
            forall|t: int| 0 < t < final(self).tasks@.len()
                ==> #[trigger] final(self).tasks@[t] == old(self).tasks@[t],
    {
        let t = &mut self.tasks[0];
        t.task_status = TaskStatus::Running;
        0
    }

    /// Give the current task the stride of the given priority.
    pub fn set_current_priority(&mut self, prio: u64)
        requires
            old(self).wf(),
            prio >= 2,
        ensures
            final(self).wf(),
            final(self).tasks@.len() == old(self).tasks@.len(),
            final(self).num_app == old(self).num_app,
            final(self).pipes == old(self).pipes,
            final(self).task_heap == old(self).task_heap,
            final(self).tasks@[old(self).current_task as int].task_stride == BIG_STRIDE / prio,
            (final(self).tasks@[old(self).current_task as int]
                == TaskControlBlock {
                    task_stride: (BIG_STRIDE / prio) as u64,
                    ..old(self).tasks@[old(self).current_task as int]
                }),
            final(self).tasks@[old(self).current_task as int].task_status
                == old(self).tasks@[old(self).current_task as int].task_status,
            forall|t: int| 0 <= t < final(self).tasks@.len() && t != old(self).current_task
                ==> #[trigger] final(self).tasks@[t] == old(self).tasks@[t],
            final(self).current_task == old(self).current_task,
    {
        let current = self.current_task;
        let t = &mut self.tasks[current];
        t.task_stride = BIG_STRIDE / prio;
    }

    /// Mark the current task Ready again.
    pub fn mark_current_suspended(&mut self)
        requires
            old(self).wf(),
        ensures
            final(self).wf(),
            final(self).tasks@.len() == old(self).tasks@.len(),
            final(self).num_app == old(self).num_app,
            final(self).pipes == old(self).pipes,
            final(self).task_heap == old(self).task_heap,
            (final(self).tasks@[old(self).current_task as int]
                == TaskControlBlock {
                    task_status: TaskStatus::Ready,
                    ..old(self).tasks@[old(self).current_task as int]
                }),
            final(self).tasks@[old(self).current_task as int].task_status is Ready,
            forall|t: int| 0 <= t < final(self).tasks@.len() && t != old(self).current_task
                ==> #[trigger] final(self).tasks@[t] == old(self).tasks@[t],
            final(self).current_task == old(self).current_task,
    {
        let current = self.current_task;
        let t = &mut self.tasks[current];
        t.task_status = TaskStatus::Ready;
    }

    /// Mark the current task Exited; its heap entries go stale.
    pub fn mark_current_exited(&mut self)
        requires
            old(self).wf(),
        ensures
            final(self).wf(),
            final(self).tasks@.len() == old(self).tasks@.len(),
            final(self).num_app == old(self).num_app,
            final(self).pipes == old(self).pipes,
            final(self).task_heap == old(self).task_heap,
            (final(self).tasks@[old(self).current_task as int]
                == TaskControlBlock {
                    task_status: TaskStatus::Exited,
                    ..old(self).tasks@[old(self).current_task as int]
                }),
            final(self).tasks@[old(self).current_task as int].task_status is Exited,
            forall|t: int| 0 <= t < final(self).tasks@.len() && t != old(self).current_task
                ==> #[trigger] final(self).tasks@[t] == old(self).tasks@[t],
            final(self).current_task == old(self).current_task,
    {
        let current = self.current_task;
        let t = &mut self.tasks[current];
        t.task_status = TaskStatus::Exited;
    }

    /// Pop entries until one refers to a Ready task; reinsert that task
    /// with its pass advanced by its stride and report it. Entries of
    /// non-Ready tasks are stale and are dropped.
    pub fn find_next_task(&mut self) -> (r: Option<usize>)
        requires
            old(self).wf(),
        ensures
            final(self).wf(),
            final(self).tasks == old(self).tasks,
            final(self).pipes == old(self).pipes,
            final(self).current_task == old(self).current_task,
            final(self).num_app == old(self).num_app,
            r is Some ==> {
                &&& r.unwrap() < old(self).tasks@.len()
                &&& old(self).tasks@[r.unwrap() as int].task_status is Ready
                &&& heap_entries(final(self).task_heap).len()
                    <= heap_entries(old(self).task_heap).len()
                &&& forall|x: (u64, usize)| #[trigger] heap_entries(final(self).task_heap).count(x) > 0
                    ==> heap_entries(old(self).task_heap).count(x) > 0 || x.1 == r.unwrap()
                &&& exists|p: u64| {
                    &&& #[trigger] heap_entries(old(self).task_heap).count((p, r.unwrap())) > 0
                    &&& heap_entries(final(self).task_heap).count(
                        (spec_wrap_add(p, old(self).tasks@[r.unwrap() as int].task_stride), r.unwrap())) > 0
                    &&& forall|x: (u64, usize)| #[trigger] heap_entries(old(self).task_heap).count(x) > 0
                            && old(self).tasks@[x.1 as int].task_status is Ready
                        ==> entry_le((p, r.unwrap()), x)
                }
            },
            r is None ==> heap_entries(final(self).task_heap).len() == 0
                && (forall|x: (u64, usize)| #[trigger] heap_entries(old(self).task_heap).count(x) > 0
                    ==> !(old(self).tasks@[x.1 as int].task_status is Ready)),
    {
        loop
            invariant
                self.wf(),
                self.tasks == old(self).tasks,
                self.pipes == old(self).pipes,
                self.current_task == old(self).current_task,
                self.num_app == old(self).num_app,
                heap_entries(self.task_heap).len() <= heap_entries(old(self).task_heap).len(),
                forall|x: (u64, usize)| #[trigger] heap_entries(self.task_heap).count(x)
                    <= heap_entries(old(self).task_heap).count(x),
                forall|x: (u64, usize)| #[trigger] heap_entries(old(self).task_heap).count(x) > 0
                    && !(heap_entries(self.task_heap).count(x) > 0)
                    ==> !(old(self).tasks@[x.1 as int].task_status is Ready),
                forall|x: (u64, usize)| #[trigger] heap_entries(old(self).task_heap).count(x) > 0
                    && old(self).tasks@[x.1 as int].task_status is Ready
                    ==> heap_entries(self.task_heap).count(x)
                        == heap_entries(old(self).task_heap).count(x),
            decreases heap_entries(self.task_heap).len(),
        {
            match heap_pop(&mut self.task_heap) {
                None => {
                    return None;
                }
                Some((pass, process_id)) => {
                    let status = self.tasks[process_id].task_status;
                    match status {
                        TaskStatus::Ready => {
                            let stride = self.tasks[process_id].task_stride;
                            let next_pass = Pass(pass).add_stride(stride);
                            let _ = heap_push(&mut self.task_heap, (next_pass.0, process_id));
                            return Some(process_id);
                        }
                        _ => {}
                    }
                }
            }
        }
    }

    /// Pick the next Ready task, mark it Running, and hand back the pair of
    /// task indices whose contexts the caller must switch between. Reports
    /// nothing when no task is runnable (all applications completed).
    pub fn run_next_task(&mut self) -> (r: Option<(usize, usize)>)
        requires
            old(self).wf(),
        ensures
            final(self).wf(),
            final(self).tasks@.len() == old(self).tasks@.len(),
            final(self).num_app == old(self).num_app,
            final(self).pipes == old(self).pipes,
            r is Some ==> {
                &&& r.unwrap().0 == old(self).current_task
                &&& r.unwrap().1 < final(self).tasks@.len()
                &&& old(self).tasks@[r.unwrap().1 as int].task_status is Ready
                &&& final(self).tasks@[r.unwrap().1 as int].task_status is Running
                &&& final(self).current_task == r.unwrap().1
                &&& forall|t: int| 0 <= t < final(self).tasks@.len() && t != r.unwrap().1
                    ==> #[trigger] final(self).tasks@[t] == old(self).tasks@[t]
            },
            r is None ==> final(self).tasks == old(self).tasks
                && final(self).current_task == old(self).current_task
                && heap_entries(final(self).task_heap).len() == 0
                && (forall|x: (u64, usize)|
                    #[trigger] heap_entries(old(self).task_heap).count(x) > 0
                        ==> !(old(self).tasks@[x.1 as int].task_status is Ready)),
    {
        match self.find_next_task() {
            Some(next) => {
                let current = self.current_task;
                let t = &mut self.tasks[next];
                t.task_status = TaskStatus::Running;
                self.current_task = next;
                Some((current, next))
            }
            None => None,
        }
    }

    /// Yield: the current task becomes Ready and the next one is chosen.
    pub fn suspend_current_and_run_next(&mut self) -> (r: Option<(usize, usize)>)
        requires
            old(self).wf(),
        ensures
            final(self).wf(),
            final(self).tasks@.len() == old(self).tasks@.len(),
            r is Some ==> {
                &&& r.unwrap().0 == old(self).current_task
                &&& r.unwrap().1 < final(self).tasks@.len()
                &&& final(self).tasks@[r.unwrap().1 as int].task_status is Running
                &&& final(self).current_task == r.unwrap().1
            },
            r is Some && r.unwrap().1 != old(self).current_task
                ==> final(self).tasks@[old(self).current_task as int].task_status is Ready,
            r is None ==> final(self).current_task == old(self).current_task
                && final(self).tasks@[old(self).current_task as int].task_status is Ready
                && heap_entries(final(self).task_heap).len() == 0
                && (forall|x: (u64, usize)|
                    #[trigger] heap_entries(old(self).task_heap).count(x) > 0
                        ==> x.1 != old(self).current_task
                            && !(old(self).tasks@[x.1 as int].task_status is Ready)),
    {
        self.mark_current_suspended();
        self.run_next_task()
    }

    /// Exit: the current task becomes Exited and the next one is chosen.
    pub fn exit_current_and_run_next(&mut self) -> (r: Option<(usize, usize)>)
        requires
            old(self).wf(),
        ensures
            final(self).wf(),
            final(self).tasks@.len() == old(self).tasks@.len(),
            final(self).tasks@[old(self).current_task as int].task_status is Exited,
            r is Some ==> {
                &&& r.unwrap().0 == old(self).current_task
                &&& r.unwrap().1 < final(self).tasks@.len()
                &&& r.unwrap().1 != old(self).current_task
                &&& final(self).tasks@[r.unwrap().1 as int].task_status is Running
                &&& final(self).current_task == r.unwrap().1
            },
            r is None ==> final(self).current_task == old(self).current_task
                && heap_entries(final(self).task_heap).len() == 0
                && (forall|x: (u64, usize)|
                    #[trigger] heap_entries(old(self).task_heap).count(x) > 0
                        ==> x.1 == old(self).current_task
                            || !(old(self).tasks@[x.1 as int].task_status is Ready)),
    {
        self.mark_current_exited();
        self.run_next_task()
    }
}

} // verus!
