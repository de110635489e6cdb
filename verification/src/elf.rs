//! Planning the load of an ELF64 kernel image: header checks, the page span
//! its loadable segments cover, and the copies that place them. Allocating
//! the pages and writing memory is left to the caller.
use vstd::prelude::*;
use crate::exobyte_format::{spec_le, lemma_le_bound, pow256};

verus! {

pub const PT_LOAD: u32 = 1;
pub const PAGE_SIZE: u64 = 4096;
/// Size of the ELF64 file header.
pub const EHDR_SIZE: usize = 64;
/// Size of an ELF64 program header.
pub const PHDR_SIZE: usize = 56;

#[derive(Clone, Copy, PartialEq, Eq, Structural, Debug)]
pub enum ElfLoadError {
    BadHeader,
    BadProgramHeader,
    SegmentLayout,
    SegmentOverflow,
    SegmentAlloc,
    SegmentSourceBounds,
    NoLoadSegments,
}

/// Where the image starts executing and the lowest page it occupies.
#[derive(Clone, Copy, PartialEq, Eq, Structural, Debug)]
pub struct ElfLoadInfo {
    pub entry: u64,
    pub load_base: u64,
}

/// The fields of the file header the loader reads.
#[derive(Clone, Copy, PartialEq, Eq, Structural, Debug)]
pub struct ElfHeader {
    pub class: u8,
    pub data: u8,
    pub machine: u16,
    pub entry: u64,
    pub phoff: u64,
    pub phentsize: u16,
    pub phnum: u16,
}

/// A program header.
#[derive(Clone, Copy, PartialEq, Eq, Structural, Debug)]
pub struct ProgramHeader {
    pub p_type: u32,
    pub p_offset: u64,
    pub p_vaddr: u64,
    pub p_paddr: u64,
    pub p_filesz: u64,
    pub p_memsz: u64,
}

/// The little-endian value of `n` bytes of the image at `at`.
pub open spec fn field(img: Seq<u8>, at: int, n: nat) -> nat {
    spec_le(img, at, n)
}

/// The file header, when the image is long enough to hold one.
pub open spec fn spec_header(img: Seq<u8>) -> Option<ElfHeader> {
    if img.len() < EHDR_SIZE {
        None
    } else {
        Some(ElfHeader {
            class: img[4],
            data: img[5],
            machine: field(img, 18, 2) as u16,
            entry: field(img, 24, 8) as u64,
            phoff: field(img, 32, 8) as u64,
            phentsize: field(img, 54, 2) as u16,
            phnum: field(img, 56, 2) as u16,
        })
    }
}

/// The image is a little-endian x86-64 ELF64 file.
pub open spec fn header_valid(img: Seq<u8>, h: ElfHeader) -> bool {
    &&& img[0] == 0x7F && img[1] == 0x45 && img[2] == 0x4C && img[3] == 0x46
    &&& h.class == 2
    &&& h.data == 1
    &&& h.machine == 0x3E
}

/// Where program header `idx` starts.
pub open spec fn ph_offset(h: ElfHeader, idx: int) -> int {
    h.phoff + idx * h.phentsize
}

/// Program header `idx`, when it lies inside the image.
pub open spec fn spec_phdr(img: Seq<u8>, h: ElfHeader, idx: int) -> Option<ProgramHeader> {
    let off = ph_offset(h, idx);
    if off + PHDR_SIZE > img.len() {
        None
    } else {
        Some(ProgramHeader {
            p_type: field(img, off, 4) as u32,
            p_offset: field(img, off + 8, 8) as u64,
            p_vaddr: field(img, off + 16, 8) as u64,
            p_paddr: field(img, off + 24, 8) as u64,
            p_filesz: field(img, off + 32, 8) as u64,
            p_memsz: field(img, off + 40, 8) as u64,
        })
    }
}

/// Where a segment goes: its physical address, or its virtual one when the
/// physical address is zero.
pub open spec fn seg_start(ph: ProgramHeader) -> int {
    if ph.p_paddr != 0 { ph.p_paddr as int } else { ph.p_vaddr as int }
}

pub open spec fn align_down(v: int) -> int {
    v - v % 4096
}

pub open spec fn align_up(v: int) -> int {
    if v % 4096 == 0 { v } else { v - v % 4096 + 4096 }
}

/// The page span the loadable segments among the first `n` headers cover:
/// lowest page, end of the highest page, and whether any was loadable.
pub open spec fn spec_span(img: Seq<u8>, h: ElfHeader, n: nat) -> Result<(int, int, bool), ElfLoadError>
    decreases n,
{
    if n == 0 {
        Ok((u64::MAX as int, 0, false))
    } else {
        match spec_span(img, h, (n - 1) as nat) {
            Err(e) => Err(e),
            Ok((lo, hi, saw)) => match spec_phdr(img, h, n - 1) {
                None => Err(ElfLoadError::BadProgramHeader),
                Some(ph) => if ph.p_type != PT_LOAD {
                    Ok((lo, hi, saw))
                } else if ph.p_memsz < ph.p_filesz {
                    Err(ElfLoadError::SegmentLayout)
                } else if seg_start(ph) + ph.p_memsz > u64::MAX {
                    Err(ElfLoadError::SegmentOverflow)
                } else if align_up(seg_start(ph) + ph.p_memsz) > u64::MAX {
                    Err(ElfLoadError::SegmentOverflow)
                } else {
                    let ps = align_down(seg_start(ph));
                    let pe = align_up(seg_start(ph) + ph.p_memsz);
                    Ok((if ps < lo { ps } else { lo }, if pe > hi { pe } else { hi }, true))
                },
            },
        }
    }
}

/// The pages to allocate: the lowest one and how many, after the header
/// checks and a pass over the program headers.
pub open spec fn spec_layout(img: Seq<u8>) -> Result<(ElfHeader, int, int), ElfLoadError> {
    match spec_header(img) {
        None => Err(ElfLoadError::BadHeader),
        Some(h) => if !header_valid(img, h) {
            Err(ElfLoadError::BadHeader)
        } else {
            match spec_span(img, h, h.phnum as nat) {
                Err(e) => Err(e),
                Ok((lo, hi, saw)) => if !saw {
                    Err(ElfLoadError::NoLoadSegments)
                } else if hi <= lo {
                    Err(ElfLoadError::SegmentLayout)
                } else {
                    Ok((h, lo, (hi - lo) / 4096))
                },
            }
        },
    }
}

/// The page allocation an image needs, and where it will start.
#[derive(Clone, Copy, PartialEq, Eq, Structural, Debug)]
pub struct LoadLayout {
    pub header: ElfHeader,
    pub first_page: u64,
    pub pages: u64,
}

fn le_u64(img: &[u8], at: usize) -> (v: u64)
    requires
        at + 8 <= img@.len(),
    ensures
        v == field(img@, at as int, 8),
{
    let mut cur = at;
    proof {
        lemma_le_bound(img@, at as int, 8);
        lemma_pow8();
    }
    match crate::exobyte_format::read_f64_bits_le(img, &mut cur) {
        Ok(v) => v,
        Err(_) => 0,
    }
}

fn le_u32(img: &[u8], at: usize) -> (v: u32)
    requires
        at + 4 <= img@.len(),
    ensures
        v == field(img@, at as int, 4),
{
    let mut cur = at;
    proof { lemma_le_bound(img@, at as int, 4); }
    match crate::exobyte_format::read_u32_le(img, &mut cur) {
        Ok(v) => v,
        Err(_) => 0,
    }
}

fn le_u16(img: &[u8], at: usize) -> (v: u16)
    requires
        at + 2 <= img@.len(),
    ensures
        v == field(img@, at as int, 2),
{
    let mut cur = at;
    proof { lemma_le_bound(img@, at as int, 2); }
    match crate::exobyte_format::read_u16_le(img, &mut cur) {
        Ok(v) => v,
        Err(_) => 0,
    }
}

proof fn lemma_pow8()
    ensures
        pow256(8) == 0x1_0000_0000_0000_0000,
{
    reveal_with_fuel(pow256, 9);
}

/// Reads the file header, if the image holds one.
pub fn parse_header(img: &[u8]) -> (r: Option<ElfHeader>)
    ensures
        r == spec_header(img@),
{
    if img.len() < EHDR_SIZE {
        return None;
    }
    proof {
        lemma_pow8();
        lemma_le_bound(img@, 24, 8);
        lemma_le_bound(img@, 32, 8);
    }
    Some(ElfHeader {
        class: img[4],
        data: img[5],
        machine: le_u16(img, 18),
        entry: le_u64(img, 24),
        phoff: le_u64(img, 32),
        phentsize: le_u16(img, 54),
        phnum: le_u16(img, 56),
    })
}

/// Checks the magic, class, byte order and machine.
pub fn validate_header(img: &[u8], h: &ElfHeader) -> (r: Result<(), ElfLoadError>)
    requires
        img@.len() >= EHDR_SIZE,
    ensures
        r is Ok <==> header_valid(img@, *h),
        r is Err ==> r == Err::<(), ElfLoadError>(ElfLoadError::BadHeader),
{
    if img[0] != 0x7F || img[1] != 0x45 || img[2] != 0x4C || img[3] != 0x46 {
        return Err(ElfLoadError::BadHeader);
    }
    if h.class != 2 || h.data != 1 {
        return Err(ElfLoadError::BadHeader);
    }
    if h.machine != 0x3E {
        return Err(ElfLoadError::BadHeader);
    }
    Ok(())
}

/// Reads program header `idx`, if it lies inside the image.
pub fn parse_program_header(img: &[u8], h: &ElfHeader, idx: u16) -> (r: Option<ProgramHeader>)
    ensures
        r == spec_phdr(img@, *h, idx as int),
{
    let n = img.len();
    assert((idx as u64) * (h.phentsize as u64) <= 0xFFFF * 0xFFFF) by (nonlinear_arith)
        requires idx <= 0xFFFF, h.phentsize <= 0xFFFF;
    let step = (idx as u64) * (h.phentsize as u64);
    let off = match h.phoff.checked_add(step) {
        Some(o) => o,
        None => return None,
    };
    if off > img.len() as u64 || (img.len() as u64) - off < PHDR_SIZE as u64 {
        return None;
    }
    let o = off as usize;
    proof {
        lemma_pow8();
        lemma_le_bound(img@, o + 8, 8);
        lemma_le_bound(img@, o + 16, 8);
        lemma_le_bound(img@, o + 24, 8);
        lemma_le_bound(img@, o + 32, 8);
        lemma_le_bound(img@, o + 40, 8);
        lemma_le_bound(img@, o as int, 4);
    }
    Some(ProgramHeader {
        p_type: le_u32(img, o),
        p_offset: le_u64(img, o + 8),
        p_vaddr: le_u64(img, o + 16),
        p_paddr: le_u64(img, o + 24),
        p_filesz: le_u64(img, o + 32),
        p_memsz: le_u64(img, o + 40),
    })
}


proof fn lemma_span_err(img: Seq<u8>, h: ElfHeader, m: nat, m2: nat)
    requires
        m <= m2,
        spec_span(img, h, m) is Err,
    ensures
        spec_span(img, h, m2) == spec_span(img, h, m),
    decreases m2,
{
    if m2 > m {
        lemma_span_err(img, h, m, (m2 - 1) as nat);
    }
}

/// The first address of the page holding `v`.
pub fn page_down(v: u64) -> (r: u64)
    ensures
        r == align_down(v as int),
{
    v - v % 4096
}

/// The first page boundary at or above `v`, if it fits.
pub fn page_up(v: u64) -> (r: Option<u64>)
    ensures
        align_up(v as int) <= u64::MAX ==> r == Some(align_up(v as int) as u64),
        align_up(v as int) > u64::MAX ==> r is None,
{
    if v % 4096 == 0 {
        Some(v)
    } else {
        (v - v % 4096).checked_add(4096)
    }
}

/// Checks the header and works out the pages the loadable segments need.
pub fn plan_load(img: &[u8]) -> (r: Result<LoadLayout, ElfLoadError>)
    ensures
        match spec_layout(img@) {
            Ok((h, lo, pages)) => r matches Ok(l) && l.header == h && l.first_page == lo && l.pages == pages,
            Err(e) => r == Err::<LoadLayout, ElfLoadError>(e),
        },
{
    let h = match parse_header(img) {
        Some(h) => h,
        None => return Err(ElfLoadError::BadHeader),
    };
    match validate_header(img, &h) {
        Ok(()) => {},
        Err(e) => return Err(e),
    }
    let mut lo: u64 = u64::MAX;
    let mut hi: u64 = 0;
    let mut saw = false;
    let mut idx: u16 = 0;
    while idx < h.phnum
        invariant
            idx <= h.phnum,
            spec_header(img@) == Some(h),
            header_valid(img@, h),
            spec_span(img@, h, idx as nat) == Ok::<(int, int, bool), ElfLoadError>((lo as int, hi as int, saw)),
        decreases h.phnum - idx,
    {
        let ph = match parse_program_header(img, &h, idx) {
            Some(ph) => ph,
            None => {
                proof { lemma_span_err(img@, h, (idx + 1) as nat, h.phnum as nat); }
                return Err(ElfLoadError::BadProgramHeader);
            },
        };
        if ph.p_type == PT_LOAD {
            if ph.p_memsz < ph.p_filesz {
                proof { lemma_span_err(img@, h, (idx + 1) as nat, h.phnum as nat); }
                return Err(ElfLoadError::SegmentLayout);
            }
            let start = if ph.p_paddr != 0 { ph.p_paddr } else { ph.p_vaddr };
            let end = match start.checked_add(ph.p_memsz) {
                Some(e) => e,
                None => {
                    proof { lemma_span_err(img@, h, (idx + 1) as nat, h.phnum as nat); }
                    return Err(ElfLoadError::SegmentOverflow);
                },
            };
            let ps = page_down(start);
            let pe = match page_up(end) {
                Some(p) => p,
                None => {
                    proof { lemma_span_err(img@, h, (idx + 1) as nat, h.phnum as nat); }
                    return Err(ElfLoadError::SegmentOverflow);
                },
            };
            if ps < lo {
                lo = ps;
            }
            if pe > hi {
                hi = pe;
            }
            saw = true;
        }
        idx += 1;
    }
    if !saw {
        return Err(ElfLoadError::NoLoadSegments);
    }
    if hi <= lo {
        return Err(ElfLoadError::SegmentLayout);
    }
    Ok(LoadLayout { header: h, first_page: lo, pages: (hi - lo) / 4096 })
}

/// One segment to place: `filesz` bytes from `src_offset` of the image to
/// `dst`, then zeros up to `memsz`.
#[derive(Clone, Copy, PartialEq, Eq, Structural, Debug)]
pub struct SegmentCopy {
    pub dst: u64,
    pub src_offset: u64,
    pub filesz: u64,
    pub memsz: u64,
}

/// The copies the loadable segments among the first `n` headers ask for, in
/// order, and the error that stops them, if any.
pub open spec fn spec_copies(img: Seq<u8>, h: ElfHeader, n: nat) -> (Seq<SegmentCopy>, Option<ElfLoadError>)
    decreases n,
{
    if n == 0 {
        (Seq::empty(), None)
    } else {
        let (cs, err) = spec_copies(img, h, (n - 1) as nat);
        if err is Some {
            (cs, err)
        } else {
            match spec_phdr(img, h, n - 1) {
                None => (cs, Some(ElfLoadError::BadProgramHeader)),
                Some(ph) => if ph.p_type != PT_LOAD {
                    (cs, None)
                } else if ph.p_memsz < ph.p_filesz {
                    (cs, Some(ElfLoadError::SegmentLayout))
                } else if seg_start(ph) + ph.p_memsz > u64::MAX {
                    (cs, Some(ElfLoadError::SegmentOverflow))
                } else if ph.p_offset + ph.p_filesz > img.len() {
                    (cs, Some(ElfLoadError::SegmentSourceBounds))
                } else {
                    (cs.push(SegmentCopy {
                        dst: seg_start(ph) as u64,
                        src_offset: ph.p_offset,
                        filesz: ph.p_filesz,
                        memsz: ph.p_memsz,
                    }), None)
                },
            }
        }
    }
}

proof fn lemma_copies_stop(img: Seq<u8>, h: ElfHeader, m: nat, m2: nat)
    requires
        m <= m2,
        spec_copies(img, h, m).1 is Some,
    ensures
        spec_copies(img, h, m2) == spec_copies(img, h, m),
    decreases m2,
{
    if m2 > m {
        lemma_copies_stop(img, h, m, (m2 - 1) as nat);
    }
}

/// The segment copies, in header order, and the error met, if any: the
/// copies before it are still to be made.
pub fn segment_copies(img: &[u8], h: &ElfHeader) -> (r: (Vec<SegmentCopy>, Option<ElfLoadError>))
    ensures
        (r.0@, r.1) == spec_copies(img@, *h, h.phnum as nat),
{
    let mut out: Vec<SegmentCopy> = Vec::new();
    let mut idx: u16 = 0;
    let n = img.len();
    while idx < h.phnum
        invariant
            idx <= h.phnum,
            n == img@.len(),
            spec_copies(img@, *h, idx as nat) == (out@, None::<ElfLoadError>),
        decreases h.phnum - idx,
    {
        let ghost before = out@;
        let stop: Option<ElfLoadError> = match parse_program_header(img, h, idx) {
            None => Some(ElfLoadError::BadProgramHeader),
            Some(ph) => {
                if ph.p_type != PT_LOAD {
                    None
                } else if ph.p_memsz < ph.p_filesz {
                    Some(ElfLoadError::SegmentLayout)
                } else {
                    let start = if ph.p_paddr != 0 { ph.p_paddr } else { ph.p_vaddr };
                    if start.checked_add(ph.p_memsz).is_none() {
                        Some(ElfLoadError::SegmentOverflow)
                    } else {
                        match ph.p_offset.checked_add(ph.p_filesz) {
                            Some(end) if end <= n as u64 => {
                                out.push(SegmentCopy { dst: start, src_offset: ph.p_offset, filesz: ph.p_filesz, memsz: ph.p_memsz });
                                None
                            },
                            _ => Some(ElfLoadError::SegmentSourceBounds),
                        }
                    }
                }
            },
        };
        if stop.is_some() {
            proof { lemma_copies_stop(img@, *h, (idx + 1) as nat, h.phnum as nat); }
            return (out, stop);
        }
        idx += 1;
    }
    (out, None)
}

/// What a successful load reports.
pub fn load_info(layout: &LoadLayout) -> (r: ElfLoadInfo)
    ensures
        r.entry == layout.header.entry,
        r.load_base == layout.first_page,
{
    ElfLoadInfo { entry: layout.header.entry, load_base: layout.first_page }
}


/// The span covers every loadable segment among the first `n` headers, and
/// starts and ends on page boundaries once a segment was seen.
pub proof fn lemma_span_covers(img: Seq<u8>, h: ElfHeader, n: nat)
    requires
        spec_span(img, h, n) is Ok,
    ensures
        ({
            let (lo, hi, saw) = spec_span(img, h, n)->Ok_0;
            &&& saw ==> lo % 4096 == 0 && hi % 4096 == 0
            &&& forall|k: int| 0 <= k < n && (#[trigger] spec_phdr(img, h, k)) is Some
                && spec_phdr(img, h, k)->Some_0.p_type == PT_LOAD ==> {
                let ph = spec_phdr(img, h, k)->Some_0;
                lo <= seg_start(ph) && seg_start(ph) + ph.p_memsz <= hi
            }
        }),
    decreases n,
{
    if n > 0 {
        lemma_span_covers(img, h, (n - 1) as nat);
        let (lo, hi, saw) = spec_span(img, h, (n - 1) as nat)->Ok_0;
        if !saw {
            assert(lo == u64::MAX as int && hi == 0) by {
                lemma_span_unseen(img, h, (n - 1) as nat);
            }
        }
    }
}

proof fn lemma_span_unseen(img: Seq<u8>, h: ElfHeader, n: nat)
    requires
        spec_span(img, h, n) is Ok,
        !spec_span(img, h, n)->Ok_0.2,
    ensures
        spec_span(img, h, n)->Ok_0.0 == u64::MAX as int,
        spec_span(img, h, n)->Ok_0.1 == 0,
    decreases n,
{
    if n > 0 {
        lemma_span_unseen(img, h, (n - 1) as nat);
    }
}

} // verus!
