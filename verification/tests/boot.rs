use vectoros::boot::{
    boot_state, check_bootinfo, framebuffer_line, gop_framebuffer, map_format, memory_map_entries, memory_map_info,
    memory_map_line, BootInfo, Framebuffer, MemoryMapInfo, PixelLayout, BOOT_MAGIC,
};
use vectoros::kernel_state::TaskState;

fn good() -> BootInfo {
    BootInfo {
        magic: BOOT_MAGIC,
        framebuffer: Framebuffer { base: 0x8000_0000, size: 1024 * 768 * 4, width: 1024, height: 768, stride: 1024, format: 1 },
        memory_map: MemoryMapInfo { map: 0x1000, size: 48 * 20, desc_size: 48 },
        rsdp_addr: 0,
    }
}

#[test]
fn bootinfo_checks_in_order() {
    assert_eq!(check_bootinfo(None), Some("E01 bootinfo null"));
    assert_eq!(check_bootinfo(Some(&good())), None);
    let mut b = good();
    b.magic = 1;
    b.framebuffer.base = 0;
    assert_eq!(check_bootinfo(Some(&b)), Some("E02 boot magic"));
    let mut b = good();
    b.framebuffer.base = 0;
    assert_eq!(check_bootinfo(Some(&b)), Some("E03 fb base"));
    let mut b = good();
    b.framebuffer.stride = 0;
    assert_eq!(check_bootinfo(Some(&b)), Some("E04 fb stride"));
    let mut b = good();
    b.framebuffer.height = 0;
    assert_eq!(check_bootinfo(Some(&b)), Some("E05 fb size"));
    let mut b = good();
    b.framebuffer.width = 16385;
    b.framebuffer.stride = 16385;
    assert_eq!(check_bootinfo(Some(&b)), Some("E06 fb bounds"));
    let mut b = good();
    b.framebuffer.stride = 1000;
    assert_eq!(check_bootinfo(Some(&b)), Some("E06 fb bounds"));
}

#[test]
fn first_screen_lines() {
    let b = good();
    assert_eq!(framebuffer_line(&b.framebuffer), b"Framebuffer: 1024 x 768".to_vec());
    assert_eq!(memory_map_entries(&b.memory_map), 20);
    assert_eq!(memory_map_line(&b.memory_map), b"Memory map entries: 20".to_vec());
    let none = MemoryMapInfo { map: 0, size: 100, desc_size: 0 };
    assert_eq!(memory_map_entries(&none), 0);
}

#[test]
fn pixel_format_codes() {
    assert_eq!(map_format(PixelLayout::Rgb), 0);
    assert_eq!(map_format(PixelLayout::Bgr), 1);
    assert_eq!(map_format(PixelLayout::Bitmask), 2);
    assert_eq!(map_format(PixelLayout::BltOnly), 3);
    let fb = gop_framebuffer(0xA000, 4096, 32, 32, 32, PixelLayout::Bgr);
    assert_eq!(fb, Framebuffer { base: 0xA000, size: 4096, width: 32, height: 32, stride: 32, format: 1 });
}

#[test]
fn memory_map_size_roundtrip() {
    let m = memory_map_info(0x5000, 20, 48).unwrap();
    assert_eq!(m.size, 960);
    assert_eq!(memory_map_entries(&m), 20);
    assert!(memory_map_info(0, usize::MAX, 2).is_none());
}

#[test]
fn initial_runtime_state() {
    let s = boot_state();
    assert_eq!(s.task_count, 3);
    assert!(s.tasks[0] == TaskState::Ready && s.tasks[1] == TaskState::Ready && s.tasks[2] == TaskState::Blocked);
    assert_eq!(s.tick, 0);
    assert_eq!(s.dispatch_budget, [4; 8]);
}

fn intro_text(info: Option<&BootInfo>) -> (Vec<(bool, String)>, bool) {
    let (lines, go_on) = vectoros::kernel_boot::kernel_intro(info);
    let v = lines
        .iter()
        .map(|l| (l.sink == vectoros::demo::Sink::Screen, String::from_utf8(l.text.clone()).unwrap()))
        .collect();
    (v, go_on)
}

#[test]
fn kernel_first_lines() {
    let (lines, go_on) = intro_text(None);
    assert!(!go_on);
    assert_eq!(lines, vec![(false, "K00 kernel entry".to_string()), (false, "E01 bootinfo null".to_string())]);
    let mut bad = good();
    bad.framebuffer.stride = 0;
    let (lines, go_on) = intro_text(Some(&bad));
    assert!(!go_on);
    assert_eq!(lines[1].1, "E04 fb stride");
    let (lines, go_on) = intro_text(Some(&good()));
    assert!(go_on);
    let expect = [
        (false, "K00 kernel entry"),
        (false, "K01 bootinfo ok"),
        (true, "K00 kernel entry"),
        (false, "K00 kernel entry"),
        (true, "K01 bootinfo ok"),
        (false, "K01 bootinfo ok"),
        (false, "K02 framebuffer writer"),
        (true, "VectorOS Kernel v0"),
        (true, "Framebuffer: 1024 x 768"),
        (false, "K03 framebuffer info"),
        (true, "Memory map entries: 20"),
        (false, "K04 memory map info"),
    ];
    let expect: Vec<(bool, String)> = expect.iter().map(|(s, t)| (*s, t.to_string())).collect();
    assert_eq!(lines, expect);
}
