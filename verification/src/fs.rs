//! The uniform file abstraction: readable/writable endpoints, file
//! metadata, and the kernel-side descriptor that a task's fd table holds.
use vstd::prelude::*;
use crate::mail::Mails;
use crate::pipe::Pipe;

verus! {

/// File type and mode bits (octal 040000 marks a directory, 0100000 an
/// ordinary file).
#[derive(Clone, Copy, PartialEq, Eq, Structural, Debug)]
pub struct StatMode {
    pub bits: u32,
}

/// File metadata as the stat syscall reports it.
#[derive(Clone, Copy, Debug)]
pub struct Stat {
    /// ID of the device containing the file.
    pub dev: u64,
    /// Inode number.
    pub ino: u64,
    /// File type and mode.
    pub mode: StatMode,
    /// Number of hard links.
    pub nlink: u32,
    /// Unused padding, kept for layout compatibility.
    pub pad: [u64; 7],
}

impl Stat {
    /// The all-zero stat record.
    pub fn new() -> (r: Stat)
        ensures
            r.dev == 0,
            r.ino == 0,
            r.mode.bits == 0,
            r.nlink == 0,
            forall|i: int| 0 <= i < 7 ==> r.pad@[i] == 0,
    {
        Stat { dev: 0, ino: 0, mode: StatMode { bits: 0 }, nlink: 0, pad: [0u64; 7] }
    }
}

/// A readable/writable endpoint.
pub trait File {
    /// The endpoint's internal invariant.
    spec fn inv(&self) -> bool;

    fn readable(&self) -> bool;

    fn writable(&self) -> bool;

    /// Move bytes into the front of `buf`; returns the count moved.
    fn read(&mut self, buf: &mut Vec<u8>) -> (r: usize)
        requires
            old(self).inv(),
        ensures
            final(self).inv(),
            final(buf)@.len() == old(buf)@.len(),
    ;

    /// Take bytes from `buf`; returns the count accepted.
    fn write(&mut self, buf: &Vec<u8>) -> (r: usize)
        requires
            old(self).inv(),
        ensures
            final(self).inv(),
    ;

    fn stat(&self) -> Stat;
}

impl File for Mails {
    open spec fn inv(&self) -> bool {
        self.wf()
    }

    fn readable(&self) -> bool {
        true
    }

    fn writable(&self) -> bool {
        true
    }

    fn read(&mut self, buf: &mut Vec<u8>) -> (r: usize) {
        Mails::read(self, buf)
    }

    fn write(&mut self, buf: &Vec<u8>) -> (r: usize) {
        Mails::write(self, buf)
    }

    fn stat(&self) -> Stat {
        Stat::new()
    }
}

impl File for Pipe {
    open spec fn inv(&self) -> bool {
        self.wf()
    }

    fn readable(&self) -> bool {
        self.read_open
    }

    fn writable(&self) -> bool {
        self.write_open
    }

    fn read(&mut self, buf: &mut Vec<u8>) -> (r: usize) {
        Pipe::read(self, buf)
    }

    fn write(&mut self, buf: &Vec<u8>) -> (r: usize) {
        Pipe::write(self, buf)
    }

    fn stat(&self) -> Stat {
        Stat::new()
    }
}

/// What one slot of a task's fd table refers to.
#[derive(Clone, Copy, PartialEq, Eq, Structural, Debug)]
pub enum Fd {
    /// Console input.
    Stdin,
    /// Console output (also standard error).
    Stdout,
    /// The read end of the pipe with this index in the pipe table.
    PipeRead(usize),
    /// The write end of the pipe with this index in the pipe table.
    PipeWrite(usize),
    /// The task's own mailbox.
    Mail,
}

} // verus!
