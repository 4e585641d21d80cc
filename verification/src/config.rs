//! Layout and policy constants of the kernel.
use vstd::prelude::*;

verus! {

/// Size of one page / physical frame, in bytes.
pub const PAGE_SIZE: u64 = 4096;
/// log2 of `PAGE_SIZE`.
pub const PAGE_SIZE_BITS: u64 = 12;
/// Virtual addresses are 39 bits wide (Sv39); the low 39 bits are significant.
pub const VA_LIMIT: u64 = 0x8000000000;
/// Virtual page numbers have 27 significant bits, split 9/9/9 over three levels.
pub const VPN_LIMIT: u64 = 0x8000000;
/// Physical page numbers occupy 44 bits of a page-table entry.
pub const PPN_LIMIT: u64 = 0x100000000000;
/// The trampoline page sits in the highest virtual page.
pub const TRAMPOLINE: u64 = 0x7FFFFFF000;
/// The per-task trap context page sits just below the trampoline.
pub const TRAP_CONTEXT: u64 = 0x7FFFFFE000;
/// End of the physical memory that the kernel identity-maps.
pub const MEMORY_END: u64 = 0x80800000;
/// Bytes of user stack mapped above the loaded segments.
pub const USER_STACK_SIZE: u64 = 8192;
/// Upper bound on the number of tasks; also the scheduler heap bound.
pub const MAX_APP_NUM: usize = 16;
/// The stride of a task is `BIG_STRIDE / priority`.
pub const BIG_STRIDE: u64 = 0x100000;
/// File-descriptor slot that always holds the task's mailbox.
pub const MAIL_FD: usize = 3;
/// Number of message slots in one mailbox.
pub const MAX_MAIL_COUNT: usize = 16;
/// Byte capacity of one mailbox slot.
pub const MAIL_RING_CAP: usize = 256;
/// Byte capacity of a pipe's ring buffer.
pub const PIPE_RING_CAP: usize = 32;

} // verus!
