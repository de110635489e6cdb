use vectoros::elf::{load_info, page_down, page_up, plan_load, segment_copies, ElfLoadError};

/// An ELF64 image with the given (type, offset, vaddr, paddr, filesz, memsz) program headers.
fn image(entry: u64, phdrs: &[(u32, u64, u64, u64, u64, u64)], extra: usize) -> Vec<u8> {
    let mut img = vec![0u8; 64];
    img[0..4].copy_from_slice(&[0x7F, b'E', b'L', b'F']);
    img[4] = 2;
    img[5] = 1;
    img[18..20].copy_from_slice(&0x3Eu16.to_le_bytes());
    img[24..32].copy_from_slice(&entry.to_le_bytes());
    img[32..40].copy_from_slice(&64u64.to_le_bytes());
    img[54..56].copy_from_slice(&56u16.to_le_bytes());
    img[56..58].copy_from_slice(&(phdrs.len() as u16).to_le_bytes());
    for &(t, off, va, pa, fs, ms) in phdrs {
        let mut ph = vec![0u8; 56];
        ph[0..4].copy_from_slice(&t.to_le_bytes());
        ph[8..16].copy_from_slice(&off.to_le_bytes());
        ph[16..24].copy_from_slice(&va.to_le_bytes());
        ph[24..32].copy_from_slice(&pa.to_le_bytes());
        ph[32..40].copy_from_slice(&fs.to_le_bytes());
        ph[40..48].copy_from_slice(&ms.to_le_bytes());
        img.extend_from_slice(&ph);
    }
    img.extend(std::iter::repeat(0xCC).take(extra));
    img
}

#[test]
fn plan_covers_all_loadable_pages() {
    let img = image(0x10_0100, &[(1, 0, 0x10_0000, 0, 0x80, 0x1800), (1, 0, 0, 0x10_3010, 0x10, 0x20), (4, 0, 0, 0, 0, 0)], 256);
    let layout = plan_load(&img).unwrap();
    assert_eq!(layout.first_page, 0x10_0000);
    assert_eq!(layout.pages, 4);
    let info = load_info(&layout);
    assert_eq!((info.entry, info.load_base), (0x10_0100, 0x10_0000));
    let (copies, err) = segment_copies(&img, &layout.header);
    assert!(err.is_none());
    assert_eq!(copies.len(), 2);
    assert_eq!((copies[1].dst, copies[1].filesz, copies[1].memsz), (0x10_3010, 0x10, 0x20));
}

#[test]
fn header_errors() {
    assert_eq!(plan_load(&[0u8; 10]).unwrap_err(), ElfLoadError::BadHeader);
    let mut img = image(0, &[(1, 0, 0x1000, 0, 0, 0x10)], 0);
    img[18] = 0x28;
    assert_eq!(plan_load(&img).unwrap_err(), ElfLoadError::BadHeader);
    let mut img = image(0, &[(1, 0, 0x1000, 0, 0, 0x10)], 0);
    img[0] = 0;
    assert_eq!(plan_load(&img).unwrap_err(), ElfLoadError::BadHeader);
}

#[test]
fn segment_errors() {
    let img = image(0, &[(2, 0, 0x1000, 0, 0, 0x10)], 0);
    assert_eq!(plan_load(&img).unwrap_err(), ElfLoadError::NoLoadSegments);
    let img = image(0, &[(1, 0, 0x1000, 0, 0x20, 0x10)], 0);
    assert_eq!(plan_load(&img).unwrap_err(), ElfLoadError::SegmentLayout);
    let img = image(0, &[(1, 0, u64::MAX - 4, 0, 0, 0x10)], 0);
    assert_eq!(plan_load(&img).unwrap_err(), ElfLoadError::SegmentOverflow);
    let mut img = image(0, &[(1, 0, 0x1000, 0, 0, 0x10)], 0);
    img[56..58].copy_from_slice(&2u16.to_le_bytes());
    assert_eq!(plan_load(&img).unwrap_err(), ElfLoadError::BadProgramHeader);
    let img = image(0, &[(1, 0, 0x1000, 0, 0x10000, 0x10000)], 0);
    let layout = plan_load(&img).unwrap();
    let (copies, err) = segment_copies(&img, &layout.header);
    assert!(copies.is_empty());
    assert_eq!(err, Some(ElfLoadError::SegmentSourceBounds));
}

#[test]
fn page_rounding() {
    assert_eq!(page_down(0x1fff), 0x1000);
    assert_eq!(page_up(0x1001), Some(0x2000));
    assert_eq!(page_up(0x2000), Some(0x2000));
    assert_eq!(page_up(u64::MAX), None);
}
