use kernelcore::addr::{PhysPageNum, VirtPageNum};
use kernelcore::frame::FrameAllocator;
use kernelcore::memory_set::{KernelLayout, MemorySet};
use kernelcore::syscall::{sys_mmap, sys_munmap, translated_chunks};

fn fresh_alloc() -> FrameAllocator {
    FrameAllocator::new(0x81000, 0x200000)
}

#[test]
fn token_encodes_sv39_mode_and_root() {
    let mut alloc = fresh_alloc();
    let ms = MemorySet::new_bare(&mut alloc);
    assert_eq!(ms.token(), 0x8000000000000000u64 + 0x81000);
}

#[test]
fn mmap_zero_length_is_a_no_op() {
    let mut alloc = fresh_alloc();
    let mut ms = MemorySet::new_bare(&mut alloc);
    assert_eq!(sys_mmap(&mut ms, &mut alloc, 0x10000000, 0, 0x3), 0);
    assert_eq!(ms.areas.len(), 0);
}

#[test]
fn mmap_rejects_unaligned_start() {
    let mut alloc = fresh_alloc();
    let mut ms = MemorySet::new_bare(&mut alloc);
    assert_eq!(sys_mmap(&mut ms, &mut alloc, 0x10000001, 0x1000, 0x3), -1);
    assert_eq!(ms.areas.len(), 0);
}

#[test]
fn mmap_rejects_bad_port() {
    let mut alloc = fresh_alloc();
    let mut ms = MemorySet::new_bare(&mut alloc);
    assert_eq!(sys_mmap(&mut ms, &mut alloc, 0x10000000, 0x1000, 0x0), -1);
    assert_eq!(sys_mmap(&mut ms, &mut alloc, 0x10000000, 0x1000, 0x8), -1);
    assert_eq!(ms.areas.len(), 0);
}

#[test]
fn mmap_munmap_round_trip() {
    let mut alloc = fresh_alloc();
    let mut ms = MemorySet::new_bare(&mut alloc);
    assert_eq!(sys_mmap(&mut ms, &mut alloc, 0x10000000, 0x2000, 0x3), 0x2000);
    assert_eq!(ms.areas.len(), 1);
    // The framed area holds one frame per page once mapped.
    assert_eq!(ms.areas[0].data_frames.len(), 2);
    // Overlapping request is rejected, area list untouched.
    assert_eq!(sys_mmap(&mut ms, &mut alloc, 0x10000000, 0x1000, 0x1), -1);
    assert_eq!(ms.areas.len(), 1);
    // Unmapping the range restores the prior (empty) area list.
    assert_eq!(sys_munmap(&mut ms, 0x10000000, 0x2000), 0x2000);
    assert_eq!(ms.areas.len(), 0);
    assert!(ms.translate(VirtPageNum(0x10000)).is_none());
    // The same range can be mapped again.
    assert_eq!(sys_mmap(&mut ms, &mut alloc, 0x10000000, 0x2000, 0x3), 0x2000);
    assert_eq!(ms.areas.len(), 1);
}

#[test]
fn munmap_rejects_uncovered_range() {
    let mut alloc = fresh_alloc();
    let mut ms = MemorySet::new_bare(&mut alloc);
    assert_eq!(sys_mmap(&mut ms, &mut alloc, 0x10000000, 0x1000, 0x3), 0x1000);
    assert_eq!(sys_munmap(&mut ms, 0x10000000, 0x2000), -1);
    assert_eq!(ms.areas.len(), 1);
}

#[test]
fn mapped_pages_carry_requested_permissions() {
    let mut alloc = fresh_alloc();
    let mut ms = MemorySet::new_bare(&mut alloc);
    assert_eq!(sys_mmap(&mut ms, &mut alloc, 0x10000000, 0x1000, 0x3), 0x1000);
    let pte = ms.translate(VirtPageNum(0x10000)).unwrap();
    assert!(pte.is_valid());
    assert!(pte.readable());
    assert!(pte.writable());
    assert!(!pte.executable());
    assert!(pte.is_user());
}

#[test]
fn translated_chunks_cross_page_boundary() {
    let mut alloc = fresh_alloc();
    let mut ms = MemorySet::new_bare(&mut alloc);
    assert_eq!(sys_mmap(&mut ms, &mut alloc, 0x10000000, 0x2000, 0x3), 0x2000);
    let ppn0 = ms.translate(VirtPageNum(0x10000)).unwrap().ppn().0;
    let ppn1 = ms.translate(VirtPageNum(0x10001)).unwrap().ppn().0;
    let chunks = translated_chunks(&ms, 0x10000800, 0x1000).unwrap();
    assert_eq!(chunks.len(), 2);
    assert_eq!(chunks[0], (ppn0, 0x800, 0x800));
    assert_eq!(chunks[1], (ppn1, 0, 0x800));
    // A range touching an unmapped page resolves to nothing.
    assert!(translated_chunks(&ms, 0x10001800, 0x1000).is_none());
}

#[test]
fn kernel_space_sections_and_remap_check() {
    let mut alloc = FrameAllocator::new(0x81000, 0x400000);
    let layout = KernelLayout {
        stext: 0x80200000,
        etext: 0x80220000,
        srodata: 0x80220000,
        erodata: 0x80230000,
        sdata: 0x80230000,
        edata: 0x80240000,
        sbss: 0x80240000,
        ebss: 0x80250000,
        ekernel: 0x80250000,
        strampoline_ppn: 0x80200,
    };
    let ks = MemorySet::new_kernel(&layout, &mut alloc);
    assert_eq!(ks.areas.len(), 5);
    // Identity mapping: a .text page translates to itself, readable and
    // executable but not writable.
    let pte = ks.translate(VirtPageNum(0x80200)).unwrap();
    assert_eq!(pte.ppn().0, 0x80200);
    assert!(pte.readable() && pte.executable() && !pte.writable());
    assert!(MemorySet::remap_test(&ks, &layout));
}

fn le16(v: u16) -> [u8; 2] {
    v.to_le_bytes()
}

fn le32(v: u32) -> [u8; 4] {
    v.to_le_bytes()
}

fn le64(v: u64) -> [u8; 8] {
    v.to_le_bytes()
}

fn push_all(out: &mut Vec<u8>, bytes: &[u8]) {
    for b in bytes {
        out.push(*b);
    }
}

fn program_header(out: &mut Vec<u8>, flags: u32, offset: u64, vaddr: u64, filesz: u64, memsz: u64) {
    push_all(out, &le32(1)); // PT_LOAD
    push_all(out, &le32(flags));
    push_all(out, &le64(offset));
    push_all(out, &le64(vaddr));
    push_all(out, &le64(vaddr));
    push_all(out, &le64(filesz));
    push_all(out, &le64(memsz));
    push_all(out, &le64(0x1000));
}

/// A minimal 64-bit little-endian RISC-V ELF with two loadable segments.
fn two_segment_elf() -> Vec<u8> {
    let mut e: Vec<u8> = Vec::new();
    push_all(&mut e, &[0x7f, 0x45, 0x4c, 0x46, 2, 1, 1, 0, 0, 0, 0, 0, 0, 0, 0, 0]);
    push_all(&mut e, &le16(2)); // ET_EXEC
    push_all(&mut e, &le16(0xf3)); // RISC-V
    push_all(&mut e, &le32(1));
    push_all(&mut e, &le64(0x10000)); // entry
    push_all(&mut e, &le64(64)); // ph offset
    push_all(&mut e, &le64(0)); // sh offset
    push_all(&mut e, &le32(0));
    push_all(&mut e, &le16(64));
    push_all(&mut e, &le16(56));
    push_all(&mut e, &le16(2)); // ph count
    push_all(&mut e, &le16(0));
    push_all(&mut e, &le16(0));
    push_all(&mut e, &le16(0));
    // R|X, 8 KiB at 0x10000; then R|W, 4 KiB at 0x20000.
    program_header(&mut e, 0x5, 0, 0x10000, 0, 0x2000);
    program_header(&mut e, 0x6, 0, 0x20000, 0, 0x1000);
    e
}

#[test]
fn from_elf_two_load_segments() {
    let image = two_segment_elf();
    let mut alloc = fresh_alloc();
    let strampoline = PhysPageNum(0x80200);
    let (ms, user_sp, entry) =
        MemorySet::from_elf(&image, strampoline, &mut alloc).unwrap();
    assert_eq!(entry, 0x10000);
    // Guard page above 0x21000, then the stack.
    assert_eq!(user_sp, 0x21000 + 0x1000 + 0x2000);
    // Two segments, the stack, and the trap context.
    assert_eq!(ms.areas.len(), 4);
    // Every page of every loadable segment is readable via translate.
    for vpn in [0x10u64, 0x11, 0x20] {
        let pte = ms.translate(VirtPageNum(vpn)).unwrap();
        assert!(pte.is_valid() && pte.readable() && pte.is_user());
    }
    assert!(ms.translate(VirtPageNum(0x10)).unwrap().executable());
    assert!(!ms.translate(VirtPageNum(0x10)).unwrap().writable());
    assert!(ms.translate(VirtPageNum(0x20)).unwrap().writable());
    // The trap context page is readable and writable, supervisor only.
    let trap = ms.translate(VirtPageNum(0x7FFFFFE000 / 4096)).unwrap();
    assert!(trap.readable() && trap.writable() && !trap.is_user());
    // The trampoline translates to its code page, readable and executable.
    let tramp = ms.translate(VirtPageNum(0x7FFFFFF000 / 4096)).unwrap();
    assert_eq!(tramp.ppn().0, 0x80200);
    assert!(tramp.readable() && tramp.executable() && !tramp.writable() && !tramp.is_user());
    // The guard page between image and stack stays unmapped.
    assert!(ms.translate(VirtPageNum(0x21)).is_none());
    // Stack pages are mapped read-write-user.
    let sp_page = ms.translate(VirtPageNum(0x22)).unwrap();
    assert!(sp_page.readable() && sp_page.writable() && sp_page.is_user());
}

#[test]
fn from_elf_rejects_short_input() {
    let image = vec![0x7fu8, 0x45, 0x4c, 0x46, 2, 1, 1, 0];
    let mut alloc = fresh_alloc();
    assert!(MemorySet::from_elf(&image, PhysPageNum(0x80200), &mut alloc).is_none());
}

#[test]
fn from_elf_rejects_bad_magic() {
    let mut image = two_segment_elf();
    image[0] = 0x7e;
    let mut alloc = fresh_alloc();
    assert!(MemorySet::from_elf(&image, PhysPageNum(0x80200), &mut alloc).is_none());
}
