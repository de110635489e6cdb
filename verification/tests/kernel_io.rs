use vectoros::kernel_io::{
    exception_lines, exception_marker, frame_rsp, gate, install_handlers, pic_remap, pit_init_100hz, FaultContext,
    Handlers, Idt, IdtEntry, KERNEL_GATE, USER_GATE,
};

fn target(e: &IdtEntry) -> u64 {
    (e.offset_low as u64) | ((e.offset_mid as u64) << 16) | ((e.offset_high as u64) << 32)
}

#[test]
fn gate_splits_the_handler_address() {
    let e = gate(0xFFFF_8000_1234_5678, 0x08, KERNEL_GATE);
    assert_eq!(e.offset_low, 0x5678);
    assert_eq!(e.offset_mid, 0x1234);
    assert_eq!(e.offset_high, 0xFFFF_8000);
    assert_eq!(e.selector, 0x08);
    assert_eq!(e.options, 0x8E00);
    assert_eq!(target(&e), 0xFFFF_8000_1234_5678);
}

#[test]
fn install_sets_six_vectors() {
    let mut idt = Idt::new();
    let h = Handlers { ud: 0x1000, df: 0x2000, gp: 0x3000, pf: 0x4000, timer: 0x5000, syscall: 0x6000 };
    install_handlers(&mut idt, h, 0x28);
    assert_eq!(target(&idt.entries[6]), 0x1000);
    assert_eq!(target(&idt.entries[8]), 0x2000);
    assert_eq!(target(&idt.entries[13]), 0x3000);
    assert_eq!(target(&idt.entries[14]), 0x4000);
    assert_eq!(target(&idt.entries[32]), 0x5000);
    assert_eq!(target(&idt.entries[0x80]), 0x6000);
    assert_eq!(idt.entries[0x80].options, USER_GATE);
    assert_eq!(idt.entries[14].options, KERNEL_GATE);
    assert!(idt.entries[0] == IdtEntry::missing());
}

#[test]
fn pic_remap_sequence() {
    let w = pic_remap(0x20, 0x28, 0xFF, 0xAB);
    let got: Vec<(u16, u8)> = w.iter().map(|p| (p.port, p.val)).collect();
    assert_eq!(
        got,
        vec![
            (0x20, 0x11), (0xA0, 0x11), (0x21, 0x20), (0xA1, 0x28), (0x21, 0x04), (0xA1, 0x02),
            (0x21, 0x01), (0xA1, 0x01), (0x21, 0xFE), (0xA1, 0xAB),
        ]
    );
}

#[test]
fn pit_programs_divisor_11931() {
    let w = pit_init_100hz();
    let got: Vec<(u16, u8)> = w.iter().map(|p| (p.port, p.val)).collect();
    assert_eq!(got, vec![(0x43, 0x36), (0x40, 0x9B), (0x40, 0x2E)]);
}

#[test]
fn exception_report() {
    assert_eq!(exception_marker(14), 0x580E);
    assert_eq!(frame_rsp(0x1000), 0x1078);
    let c = FaultContext { vector: 14, err: 2, last_marker: 0x580E, rip: 0xdead, frame_rsp: 0x1078, rflags: 0x202, cr2: Some(0xbeef) };
    let lines: Vec<String> = exception_lines("XPF", c).into_iter().map(|l| String::from_utf8(l).unwrap()).collect();
    assert_eq!(lines, vec!["XPF v=14 e=2 lm=580e", "XD1 rip=dead rsp=1078 rfl=202", "XPF cr2=beef"]);
    let g = FaultContext { cr2: None, vector: 13, ..c };
    assert_eq!(exception_lines("XGP", g).len(), 2);
}
