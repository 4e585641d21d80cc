//! Reading the fields this kernel needs out of a 64-bit little-endian ELF
//! image. Each field is a plain integer at a fixed offset of the header or
//! of a program header, so the reads are verified against their exact
//! little-endian value; nothing else of the format is interpreted.
use vstd::prelude::*;

verus! {

/// The little-endian value of the `n` bytes of `d` starting at `off`.
pub open spec fn le_bytes_at(d: Seq<u8>, off: int, n: nat) -> int
    decreases n,
{
    if n == 0 {
        0
    } else {
        d[off] + 256 * le_bytes_at(d, off + 1, (n - 1) as nat)
    }
}

/// The 16-bit little-endian value at `off`.
pub fn read_le_u16(data: &[u8], off: usize) -> (r: u16)
    requires
        off + 2 <= data@.len(),
    ensures
        r == le_bytes_at(data@, off as int, 2),
{
    let total = data.len();
    proof {
        reveal_with_fuel(le_bytes_at, 3);
    }
    let b0 = *vstd::slice::slice_index_get(data, off) as u16;
    let b1 = *vstd::slice::slice_index_get(data, off + 1) as u16;
    b0 + 256 * b1
}

/// The 32-bit little-endian value at `off`.
pub fn read_le_u32(data: &[u8], off: usize) -> (r: u32)
    requires
        off + 4 <= data@.len(),
    ensures
        r == le_bytes_at(data@, off as int, 4),
{
    let total = data.len();
    proof {
        reveal_with_fuel(le_bytes_at, 5);
    }
    let b0 = *vstd::slice::slice_index_get(data, off) as u32;
    let b1 = *vstd::slice::slice_index_get(data, off + 1) as u32;
    let b2 = *vstd::slice::slice_index_get(data, off + 2) as u32;
    let b3 = *vstd::slice::slice_index_get(data, off + 3) as u32;
    b0 + 0x100 * b1 + 0x10000 * b2 + 0x1000000 * b3
}

/// The 64-bit little-endian value at `off`.
pub fn read_le_u64(data: &[u8], off: usize) -> (r: u64)
    requires
        off + 8 <= data@.len(),
    ensures
        r == le_bytes_at(data@, off as int, 8),
{
    let total = data.len();
    proof {
        reveal_with_fuel(le_bytes_at, 9);
    }
    let b0 = *vstd::slice::slice_index_get(data, off) as u64;
    let b1 = *vstd::slice::slice_index_get(data, off + 1) as u64;
    let b2 = *vstd::slice::slice_index_get(data, off + 2) as u64;
    let b3 = *vstd::slice::slice_index_get(data, off + 3) as u64;
    let b4 = *vstd::slice::slice_index_get(data, off + 4) as u64;
    let b5 = *vstd::slice::slice_index_get(data, off + 5) as u64;
    let b6 = *vstd::slice::slice_index_get(data, off + 6) as u64;
    let b7 = *vstd::slice::slice_index_get(data, off + 7) as u64;
    b0 + 0x100 * b1 + 0x10000 * b2 + 0x1000000 * b3
        + 0x100000000 * b4 + 0x10000000000 * b5
        + 0x1000000000000 * b6 + 0x100000000000000 * b7
}

/// A plausible image head: long enough for a 64-bit ELF header, the
/// 0x7f 'E' 'L' 'F' magic, and the 64-bit class byte.
pub open spec fn elf_header_ok(d: Seq<u8>) -> bool {
    &&& d.len() >= 64
    &&& d[0] == 0x7fu8
    &&& d[1] == 0x45u8
    &&& d[2] == 0x4cu8
    &&& d[3] == 0x46u8
    &&& d[4] == 2u8
}

/// The entry-point field of a 64-bit ELF header.
pub open spec fn spec_elf_entry(d: Seq<u8>) -> int {
    le_bytes_at(d, 24, 8)
}

/// The program-header-table offset field.
pub open spec fn spec_elf_phoff(d: Seq<u8>) -> int {
    le_bytes_at(d, 32, 8)
}

/// The program-header entry-size field.
pub open spec fn spec_elf_phentsize(d: Seq<u8>) -> int {
    le_bytes_at(d, 54, 2)
}

/// The program-header count field.
pub open spec fn spec_elf_phnum(d: Seq<u8>) -> int {
    le_bytes_at(d, 56, 2)
}

/// One loadable segment, as plain values: where it sits in virtual memory,
/// which bytes of the file fill its front, and its access flags.
#[derive(Clone, Copy, PartialEq, Eq, Structural, Debug)]
pub struct LoadSegment {
    pub vaddr: u64,
    pub mem_size: u64,
    pub offset: u64,
    pub file_size: u64,
    pub readable: bool,
    pub writable: bool,
    pub executable: bool,
}

/// The segment described by the 64-bit program header at offset `off`:
/// p_flags at +4 (bit 0 execute, bit 1 write, bit 2 read), p_offset at +8,
/// p_vaddr at +16, p_filesz at +32, p_memsz at +40.
pub open spec fn spec_seg_at(d: Seq<u8>, off: int) -> LoadSegment {
    LoadSegment {
        vaddr: le_bytes_at(d, off + 16, 8) as u64,
        mem_size: le_bytes_at(d, off + 40, 8) as u64,
        offset: le_bytes_at(d, off + 8, 8) as u64,
        file_size: le_bytes_at(d, off + 32, 8) as u64,
        readable: (le_bytes_at(d, off + 4, 4) / 4) % 2 == 1,
        writable: (le_bytes_at(d, off + 4, 4) / 2) % 2 == 1,
        executable: le_bytes_at(d, off + 4, 4) % 2 == 1,
    }
}

/// A segment this kernel accepts: inside the lower user range, file bytes
/// within image and memory size, and its pages at or after `prev_end`.
pub open spec fn spec_seg_acceptable(d: Seq<u8>, seg: LoadSegment, prev_end: int) -> bool {
    &&& seg.vaddr + seg.mem_size <= 0x4000000000
    &&& seg.file_size <= seg.mem_size
    &&& seg.offset + seg.file_size <= d.len()
    &&& crate::addr::spec_va_floor(seg.vaddr as int) >= prev_end
}

/// Walk program headers `i..n` of the table at `phoff`: collect the
/// loadable (type 1) ones in order, refusing a table entry out of bounds
/// or a segment the kernel does not accept; `prev_end` is the first page
/// the next segment may use.
pub open spec fn spec_parse_from(d: Seq<u8>, i: int, n: int, phoff: int, prev_end: int) -> Option<Seq<LoadSegment>>
    decreases n - i,
{
    if i >= n {
        Some(Seq::empty())
    } else {
        let off = phoff + i * 56;
        if off + 56 > d.len() {
            None
        } else if le_bytes_at(d, off, 4) != 1 {
            spec_parse_from(d, i + 1, n, phoff, prev_end)
        } else {
            let seg = spec_seg_at(d, off);
            if !spec_seg_acceptable(d, seg, prev_end) {
                None
            } else {
                match spec_parse_from(d, i + 1, n, phoff,
                        crate::addr::spec_va_ceil(seg.vaddr + seg.mem_size)) {
                    None => None,
                    Some(rest) => Some(seq![seg] + rest),
                }
            }
        }
    }
}

/// Nothing is parsed past the last header.
pub proof fn lemma_parse_done(d: Seq<u8>, i: int, n: int, phoff: int, prev_end: int)
    requires
        i >= n,
    ensures
        spec_parse_from(d, i, n, phoff, prev_end) == Some(Seq::<LoadSegment>::empty()),
{
    reveal_with_fuel(spec_parse_from, 1);
}

/// A header entry reaching past the image fails the parse.
pub proof fn lemma_parse_oob(d: Seq<u8>, i: int, n: int, phoff: int, prev_end: int)
    requires
        i < n,
        phoff + i * 56 + 56 > d.len(),
    ensures
        spec_parse_from(d, i, n, phoff, prev_end) is None,
{
    reveal_with_fuel(spec_parse_from, 1);
}

/// A header of any type but loadable is skipped.
pub proof fn lemma_parse_skip(d: Seq<u8>, i: int, n: int, phoff: int, prev_end: int)
    requires
        i < n,
        phoff + i * 56 + 56 <= d.len(),
        le_bytes_at(d, phoff + i * 56, 4) != 1,
    ensures
        spec_parse_from(d, i, n, phoff, prev_end)
            == spec_parse_from(d, i + 1, n, phoff, prev_end),
{
    reveal_with_fuel(spec_parse_from, 1);
}

/// A loadable header either fails the parse (unacceptable segment) or
/// contributes its segment ahead of the rest.
pub proof fn lemma_parse_load(d: Seq<u8>, i: int, n: int, phoff: int, prev_end: int)
    requires
        i < n,
        phoff + i * 56 + 56 <= d.len(),
        le_bytes_at(d, phoff + i * 56, 4) == 1,
    ensures
        ({
            let seg = spec_seg_at(d, phoff + i * 56);
            spec_parse_from(d, i, n, phoff, prev_end)
                == (if !spec_seg_acceptable(d, seg, prev_end) {
                    None::<Seq<LoadSegment>>
                } else {
                    match spec_parse_from(d, i + 1, n, phoff,
                            crate::addr::spec_va_ceil(seg.vaddr + seg.mem_size)) {
                        None => None,
                        Some(rest) => Some(seq![seg] + rest),
                    }
                })
        }),
{
    reveal_with_fuel(spec_parse_from, 1);
}

/// The loadable segments of the image, or nothing when the head is not a
/// 64-bit ELF, the entry size is not the 64-bit header size, or some
/// header or segment is out of bounds or unacceptable.
pub open spec fn spec_load_segments(d: Seq<u8>) -> Option<Seq<LoadSegment>> {
    if !elf_header_ok(d) {
        None
    } else if spec_elf_phentsize(d) != 56 {
        None
    } else {
        spec_parse_from(d, 0, spec_elf_phnum(d), spec_elf_phoff(d), 0)
    }
}

} // verus!
