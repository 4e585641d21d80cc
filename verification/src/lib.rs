//! Core of a small cooperative RISC-V kernel: Sv39 virtual memory with
//! overlap-checked map/unmap, a stride scheduler over a bounded min-heap,
//! and mailbox/pipe ring buffers behind a uniform file abstraction.
pub mod addr;
pub mod config;
pub mod elf;
pub mod frame;
pub mod fs;
pub mod mail;
pub mod map_area;
pub mod memory_set;
pub mod page_table;
pub mod pipe;
pub mod ring_buffer;
pub mod sched;
pub mod syscall;
