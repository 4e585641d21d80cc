use core::cmp::Ordering;
use kernelcore::config::BIG_STRIDE;
use kernelcore::frame::FrameAllocator;
use kernelcore::memory_set::MemorySet;
use kernelcore::sched::{Pass, TaskManager, TaskStatus};
use kernelcore::syscall::{
    sys_close, sys_get_time, sys_mailread, sys_mailwrite, sys_mmap, sys_pipe, sys_read,
    sys_set_priority, sys_write, sys_yield,
};

fn two_task_manager() -> TaskManager {
    TaskManager::new(2, &vec![0u64, 0u64])
}

#[test]
fn pass_cmp_small_and_large_steps() {
    let half = BIG_STRIDE / 2;
    assert_eq!(Pass(5).cmp(&Pass(5 + 100)), Ordering::Less);
    assert_eq!(Pass(7).cmp(&Pass(7 + half)), Ordering::Less);
    assert_eq!(Pass(7 + half).cmp(&Pass(7)), Ordering::Greater);
    assert_eq!(Pass(9).cmp(&Pass(9 + half + 1)), Ordering::Greater);
    assert_eq!(Pass(9).cmp(&Pass(9 + BIG_STRIDE - 1)), Ordering::Greater);
    assert_eq!(Pass(42).cmp(&Pass(42)), Ordering::Equal);
}

#[test]
fn pass_cmp_stable_under_wrap() {
    let a = u64::MAX - 1;
    let b = Pass(a).add_stride(100).0;
    assert!(b < a); // wrapped
    assert_eq!(Pass(a).cmp(&Pass(b)), Ordering::Less);
}

#[test]
fn stride_scheduler_two_to_one_ratio() {
    let mut tm = two_task_manager();
    // Task 0 keeps priority 2 (the default stride); task 1 gets priority 4.
    tm.tasks[1].task_stride = BIG_STRIDE / 4;
    let mut counts = [0usize; 2];
    for _ in 0..30 {
        tm.mark_current_suspended();
        match tm.run_next_task() {
            Some((_, next)) => counts[next] += 1,
            None => break,
        }
    }
    assert_eq!(counts[0] + counts[1], 30);
    // Twice the priority runs about twice as often.
    assert!(counts[1] >= 2 * counts[0] - 2);
    assert!(counts[1] <= 2 * counts[0] + 2);
}

#[test]
fn exited_tasks_leave_stale_heap_entries_behind() {
    let mut tm = two_task_manager();
    tm.mark_current_exited();
    let (_, next) = tm.run_next_task().unwrap();
    assert_eq!(next, 1);
    assert!(matches!(tm.tasks[1].task_status, TaskStatus::Running));
    tm.mark_current_exited();
    assert!(tm.run_next_task().is_none());
}

#[test]
fn yield_reports_zero_and_reschedules() {
    let mut tm = two_task_manager();
    let (code, switch) = sys_yield(&mut tm);
    assert_eq!(code, 0);
    assert!(switch.is_some());
}

#[test]
fn get_time_returns_zero_and_the_split_clock() {
    assert_eq!(sys_get_time(3_500_000), (0, 3, 500_000));
    assert_eq!(sys_get_time(999_999), (0, 0, 999_999));
}

#[test]
fn set_priority_rejects_below_two() {
    let mut tm = two_task_manager();
    assert_eq!(sys_set_priority(&mut tm, 0), -1);
    assert_eq!(sys_set_priority(&mut tm, 1), -1);
    assert_eq!(sys_set_priority(&mut tm, 4), 4);
    assert_eq!(tm.tasks[0].task_stride, BIG_STRIDE / 4);
}

#[test]
fn write_to_console_and_bad_fds() {
    let mut tm = two_task_manager();
    let msg = b"hi".to_vec();
    assert_eq!(sys_write(&mut tm, 1, &msg), 2);
    assert_eq!(sys_write(&mut tm, 2, &msg), 2);
    assert_eq!(sys_write(&mut tm, 0, &msg), -1);
    assert_eq!(sys_write(&mut tm, 99, &msg), -1);
    let mut buf = vec![0u8; 4];
    assert_eq!(sys_read(&mut tm, 1, &mut buf), -1);
    assert_eq!(sys_read(&mut tm, 99, &mut buf), -1);
}

#[test]
fn close_frees_a_descriptor_once() {
    let mut tm = two_task_manager();
    assert_eq!(sys_close(&mut tm, 99), -1);
    assert_eq!(sys_close(&mut tm, 1), 0);
    assert_eq!(sys_close(&mut tm, 1), -1);
}

#[test]
fn pipe_hello_scenario_through_syscalls() {
    let mut tm = two_task_manager();
    let (code, read_fd, write_fd) = sys_pipe(&mut tm);
    assert_eq!(code, 0);
    assert_eq!((read_fd, write_fd), (4, 5));
    assert_eq!(sys_write(&mut tm, write_fd, &b"hello".to_vec()), 5);
    let mut buf = vec![0u8; 3];
    assert_eq!(sys_read(&mut tm, read_fd, &mut buf), 3);
    assert_eq!(&buf[..], b"hel");
    let mut buf2 = vec![0u8; 3];
    assert_eq!(sys_read(&mut tm, read_fd, &mut buf2), 2);
    assert_eq!(&buf2[..2], b"lo");
    assert_eq!(sys_close(&mut tm, write_fd), 0);
    // Closing the descriptor really closed the pipe's write end, so the
    // drained pipe now reports end of file rather than asking to wait.
    assert!(!tm.pipes[0].write_open);
    assert!(!tm.pipes[0].read_would_block());
    let mut buf3 = vec![0u8; 3];
    assert_eq!(sys_read(&mut tm, read_fd, &mut buf3), 0);
    // Writing on the read end is refused.
    assert_eq!(sys_write(&mut tm, read_fd, &b"x".to_vec()), -1);
}

#[test]
fn pipe_reuses_the_lowest_free_descriptor() {
    let mut tm = two_task_manager();
    // Free slot 1; the next pipe's read end takes it, and the write end
    // takes the first free slot after the four initial ones.
    assert_eq!(sys_close(&mut tm, 1), 0);
    let (code, read_fd, write_fd) = sys_pipe(&mut tm);
    assert_eq!(code, 0);
    assert_eq!((read_fd, write_fd), (1, 4));
    assert_eq!(sys_write(&mut tm, write_fd, &b"ab".to_vec()), 2);
    let mut buf = vec![0u8; 2];
    assert_eq!(sys_read(&mut tm, read_fd, &mut buf), 2);
    assert_eq!(&buf[..], b"ab");
}

/// An address space with one user page at 0x10000000 for mail buffers.
fn user_space() -> (MemorySet, FrameAllocator) {
    let mut alloc = FrameAllocator::new(0x81000, 0x90000);
    let mut ms = MemorySet::new_bare(&mut alloc);
    assert_eq!(sys_mmap(&mut ms, &mut alloc, 0x10000000, 0x1000, 0x3), 0x1000);
    (ms, alloc)
}

#[test]
fn mail_scenario_between_two_tasks() {
    let mut tm = two_task_manager();
    let (ms, _alloc) = user_space();
    let ptr = 0x10000000u64;
    // Task 0 sends two messages to task 1.
    assert_eq!(sys_mailwrite(&mut tm, &ms, 1, ptr, &b"msg1".to_vec()), 4);
    assert_eq!(sys_mailwrite(&mut tm, &ms, 1, ptr, &b"msg2".to_vec()), 4);
    // An invalid target task is rejected.
    assert_eq!(sys_mailwrite(&mut tm, &ms, 7, ptr, &b"x".to_vec()), -1);
    // An unmapped sender buffer is rejected.
    assert_eq!(sys_mailwrite(&mut tm, &ms, 1, 0x20000000, &b"x".to_vec()), -1);
    // Task 1 reads: a short buffer takes the head and discards the tail.
    tm.current_task = 1;
    let mut buf = vec![0u8; 3];
    assert_eq!(sys_mailread(&mut tm, &ms, ptr, &mut buf), 3);
    assert_eq!(&buf[..], b"msg");
    let mut buf2 = vec![0u8; 16];
    assert_eq!(sys_mailread(&mut tm, &ms, ptr, &mut buf2), 4);
    assert_eq!(&buf2[..4], b"msg2");
    // Probe on the now-empty mailbox.
    let mut probe: Vec<u8> = Vec::new();
    assert_eq!(sys_mailread(&mut tm, &ms, ptr, &mut probe), -1);
}

#[test]
fn seventeen_mailwrites_fill_the_box() {
    let mut tm = two_task_manager();
    let (ms, _alloc) = user_space();
    let ptr = 0x10000000u64;
    for _ in 0..16 {
        assert_eq!(sys_mailwrite(&mut tm, &ms, 1, ptr, &b"ping".to_vec()), 4);
    }
    assert_eq!(sys_mailwrite(&mut tm, &ms, 1, ptr, &b"ping".to_vec()), -1);
}

#[test]
fn mail_probe_semantics_through_syscalls() {
    let mut tm = two_task_manager();
    let (ms, _alloc) = user_space();
    let ptr = 0x10000000u64;
    let mut probe: Vec<u8> = Vec::new();
    // Empty mailbox: read probe says nothing available.
    assert_eq!(sys_mailread(&mut tm, &ms, ptr, &mut probe), -1);
    // Write probe says the next slot is free.
    assert_eq!(sys_mailwrite(&mut tm, &ms, 0, ptr, &probe), 0);
    assert_eq!(sys_mailwrite(&mut tm, &ms, 0, ptr, &b"m".to_vec()), 1);
    // Now a read probe reports availability.
    assert_eq!(sys_mailread(&mut tm, &ms, ptr, &mut probe), 0);
    // And the message is still there afterwards.
    let mut buf = vec![0u8; 4];
    assert_eq!(sys_mailread(&mut tm, &ms, ptr, &mut buf), 1);
    assert_eq!(buf[0], b'm');
}
