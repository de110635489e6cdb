//! What the kernel writes to the interrupt hardware: interrupt-descriptor
//! entries, the PIC remapping sequence, the PIT divisor, and the report a
//! fatal exception leaves on the serial port.
use vstd::prelude::*;
use vstd::utf8::encode_utf8;
use crate::fmt::{fit, cut};
use crate::text::{spec_dec, spec_hex, push_str, push_dec, push_hex};

verus! {

/// Gate options of a kernel interrupt gate: present, ring 0, 64-bit
/// interrupt gate.
pub const KERNEL_GATE: u16 = 0x8E00;
/// Gate options of a gate that ring 3 may raise (`int 0x80`).
pub const USER_GATE: u16 = 0xEE00;
/// Number of entries in the descriptor table.
pub const IDT_ENTRIES: usize = 256;
/// Limit field of the descriptor-table register: the table's size minus one.
pub const IDT_LIMIT: u16 = 4095;

pub const VEC_UD: usize = 6;
pub const VEC_DF: usize = 8;
pub const VEC_GP: usize = 13;
pub const VEC_PF: usize = 14;
pub const VEC_TIMER: usize = 32;
pub const VEC_SYSCALL: usize = 0x80;

/// One interrupt-descriptor entry, field by field.
#[derive(Copy, Clone, PartialEq, Eq, Structural)]
pub struct IdtEntry {
    pub offset_low: u16,
    pub selector: u16,
    pub options: u16,
    pub offset_mid: u16,
    pub offset_high: u32,
    pub reserved: u32,
}

pub open spec fn missing_entry() -> IdtEntry {
    IdtEntry { offset_low: 0, selector: 0, options: 0, offset_mid: 0, offset_high: 0, reserved: 0 }
}

/// The entry that sends a vector to `handler` through `selector`.
pub open spec fn spec_gate(handler: u64, selector: u16, options: u16) -> IdtEntry {
    IdtEntry {
        offset_low: (handler & 0xFFFF) as u16,
        selector,
        options,
        offset_mid: ((handler >> 16u64) & 0xFFFF) as u16,
        offset_high: ((handler >> 32u64) & 0xFFFF_FFFF) as u32,
        reserved: 0,
    }
}

/// The handler address an entry points at.
pub open spec fn entry_target(e: IdtEntry) -> u64 {
    (e.offset_low as u64) | ((e.offset_mid as u64) << 16u64) | ((e.offset_high as u64) << 32u64)
}

impl IdtEntry {
    /// An entry that sends nowhere (not present).
    pub fn missing() -> (e: Self)
        ensures
            e == missing_entry(),
    {
        IdtEntry { offset_low: 0, selector: 0, options: 0, offset_mid: 0, offset_high: 0, reserved: 0 }
    }
}

pub fn gate(handler: u64, selector: u16, options: u16) -> (e: IdtEntry)
    ensures
        e == spec_gate(handler, selector, options),
{
    IdtEntry {
        offset_low: (handler & 0xFFFF) as u16,
        selector,
        options,
        offset_mid: ((handler >> 16) & 0xFFFF) as u16,
        offset_high: ((handler >> 32) & 0xFFFF_FFFF) as u32,
        reserved: 0,
    }
}

/// An entry built for a handler points back at that handler.
pub proof fn lemma_gate_target(handler: u64, selector: u16, options: u16)
    ensures
        entry_target(spec_gate(handler, selector, options)) == handler,
{
    assert(((handler & 0xFFFF) as u16) as u64 == handler & 0xFFFF) by (bit_vector);
    assert((((handler >> 16u64) & 0xFFFF) as u16) as u64 == (handler >> 16u64) & 0xFFFF) by (bit_vector);
    assert((((handler >> 32u64) & 0xFFFF_FFFF) as u32) as u64 == (handler >> 32u64) & 0xFFFF_FFFF) by (bit_vector);
    assert(((handler & 0xFFFF) | (((handler >> 16u64) & 0xFFFF) << 16u64) | (((handler >> 32u64) & 0xFFFF_FFFF) << 32u64))
        == handler) by (bit_vector);
}

/// Both gate kinds are present 64-bit interrupt gates; the kernel gate is
/// for ring 0 only, the user gate may be raised from ring 3.
pub proof fn lemma_gate_kinds()
    ensures
        KERNEL_GATE & 0x8000 == 0x8000,
        USER_GATE & 0x8000 == 0x8000,
        (KERNEL_GATE >> 8u16) & 0xF == 0xE,
        (USER_GATE >> 8u16) & 0xF == 0xE,
        (KERNEL_GATE >> 13u16) & 3 == 0,
        (USER_GATE >> 13u16) & 3 == 3,
{
    assert(0x8E00u16 & 0x8000 == 0x8000) by (bit_vector);
    assert(0xEE00u16 & 0x8000 == 0x8000) by (bit_vector);
    assert((0x8E00u16 >> 8u16) & 0xF == 0xE) by (bit_vector);
    assert((0xEE00u16 >> 8u16) & 0xF == 0xE) by (bit_vector);
    assert((0x8E00u16 >> 13u16) & 3 == 0) by (bit_vector);
    assert((0xEE00u16 >> 13u16) & 3 == 3) by (bit_vector);
}

/// The interrupt-descriptor table.
pub struct Idt {
    pub entries: [IdtEntry; 256],
}

impl Idt {
    pub fn new() -> (t: Self)
        ensures
            forall|i: int| 0 <= i < IDT_ENTRIES ==> #[trigger] t.entries@[i] == missing_entry(),
    {
        Idt { entries: [IdtEntry::missing(); 256] }
    }

    /// Points `vector` at `handler` with the given gate options.
    pub fn set_handler_with_options(&mut self, vector: usize, handler: u64, selector: u16, options: u16)
        requires
            vector < IDT_ENTRIES,
        ensures
            final(self).entries@ == old(self).entries@.update(vector as int, spec_gate(handler, selector, options)),
    {
        self.entries[vector] = gate(handler, selector, options);
    }

    pub fn set_handler(&mut self, vector: usize, handler: u64, selector: u16)
        requires
            vector < IDT_ENTRIES,
        ensures
            final(self).entries@ == old(self).entries@.update(vector as int, spec_gate(handler, selector, KERNEL_GATE)),
    {
        self.set_handler_with_options(vector, handler, selector, KERNEL_GATE);
    }

    pub fn set_handler_user(&mut self, vector: usize, handler: u64, selector: u16)
        requires
            vector < IDT_ENTRIES,
        ensures
            final(self).entries@ == old(self).entries@.update(vector as int, spec_gate(handler, selector, USER_GATE)),
    {
        self.set_handler_with_options(vector, handler, selector, USER_GATE);
    }
}

/// The handler addresses the kernel installs.
#[derive(Copy, Clone)]
pub struct Handlers {
    pub ud: u64,
    pub df: u64,
    pub gp: u64,
    pub pf: u64,
    pub timer: u64,
    pub syscall: u64,
}

/// The table after the kernel's installation: the four fault vectors and
/// the timer through kernel gates, the system-call vector through a user
/// gate.
pub open spec fn spec_installed(entries: Seq<IdtEntry>, h: Handlers, cs: u16) -> Seq<IdtEntry> {
    entries.update(VEC_UD as int, spec_gate(h.ud, cs, KERNEL_GATE))
        .update(VEC_DF as int, spec_gate(h.df, cs, KERNEL_GATE))
        .update(VEC_GP as int, spec_gate(h.gp, cs, KERNEL_GATE))
        .update(VEC_PF as int, spec_gate(h.pf, cs, KERNEL_GATE))
        .update(VEC_TIMER as int, spec_gate(h.timer, cs, KERNEL_GATE))
        .update(VEC_SYSCALL as int, spec_gate(h.syscall, cs, USER_GATE))
}

pub fn install_handlers(idt: &mut Idt, h: Handlers, cs: u16)
    ensures
        final(idt).entries@ == spec_installed(old(idt).entries@, h, cs),
{
    idt.set_handler(VEC_UD, h.ud, cs);
    idt.set_handler(VEC_DF, h.df, cs);
    idt.set_handler(VEC_GP, h.gp, cs);
    idt.set_handler(VEC_PF, h.pf, cs);
    idt.set_handler(VEC_TIMER, h.timer, cs);
    idt.set_handler_user(VEC_SYSCALL, h.syscall, cs);
}

/// After installation each installed vector leads to its handler, only the
/// system-call vector is open to ring 3, and every other entry is as before.
pub proof fn lemma_installed(entries: Seq<IdtEntry>, h: Handlers, cs: u16)
    requires
        entries.len() == IDT_ENTRIES,
    ensures
        entry_target(spec_installed(entries, h, cs)[VEC_UD as int]) == h.ud,
        entry_target(spec_installed(entries, h, cs)[VEC_DF as int]) == h.df,
        entry_target(spec_installed(entries, h, cs)[VEC_GP as int]) == h.gp,
        entry_target(spec_installed(entries, h, cs)[VEC_PF as int]) == h.pf,
        entry_target(spec_installed(entries, h, cs)[VEC_TIMER as int]) == h.timer,
        entry_target(spec_installed(entries, h, cs)[VEC_SYSCALL as int]) == h.syscall,
        spec_installed(entries, h, cs)[VEC_SYSCALL as int].options == USER_GATE,
        forall|v: int| 0 <= v < IDT_ENTRIES && v != VEC_SYSCALL ==>
            (#[trigger] spec_installed(entries, h, cs)[v]).options != USER_GATE || spec_installed(entries, h, cs)[v] == entries[v],
        forall|v: int| 0 <= v < IDT_ENTRIES && v != VEC_UD && v != VEC_DF && v != VEC_GP && v != VEC_PF
            && v != VEC_TIMER && v != VEC_SYSCALL ==> #[trigger] spec_installed(entries, h, cs)[v] == entries[v],
{
    lemma_gate_target(h.ud, cs, KERNEL_GATE);
    lemma_gate_target(h.df, cs, KERNEL_GATE);
    lemma_gate_target(h.gp, cs, KERNEL_GATE);
    lemma_gate_target(h.pf, cs, KERNEL_GATE);
    lemma_gate_target(h.timer, cs, KERNEL_GATE);
    lemma_gate_target(h.syscall, cs, USER_GATE);
}

/// A write of `val` to I/O port `port`.
#[derive(Copy, Clone, PartialEq, Eq, Structural)]
pub struct PortWrite {
    pub port: u16,
    pub val: u8,
}

pub open spec fn pw(port: u16, val: u8) -> PortWrite {
    PortWrite { port, val }
}

/// The port writes that remap the two PICs to the given vector offsets,
/// given the interrupt masks read from them first: initialisation words
/// one to four on each, then the saved masks with the timer line unmasked.
pub open spec fn spec_pic_remap(master_offset: u8, slave_offset: u8, master_mask: u8, slave_mask: u8) -> Seq<PortWrite> {
    seq![
        pw(0x20, 0x11), pw(0xA0, 0x11),
        pw(0x21, master_offset), pw(0xA1, slave_offset),
        pw(0x21, 0x04), pw(0xA1, 0x02),
        pw(0x21, 0x01), pw(0xA1, 0x01),
        pw(0x21, master_mask & 0xFE), pw(0xA1, slave_mask),
    ]
}

pub fn pic_remap(master_offset: u8, slave_offset: u8, master_mask: u8, slave_mask: u8) -> (w: Vec<PortWrite>)
    ensures
        w@ == spec_pic_remap(master_offset, slave_offset, master_mask, slave_mask),
{
    let mut w: Vec<PortWrite> = Vec::new();
    w.push(PortWrite { port: 0x20, val: 0x11 });
    w.push(PortWrite { port: 0xA0, val: 0x11 });
    w.push(PortWrite { port: 0x21, val: master_offset });
    w.push(PortWrite { port: 0xA1, val: slave_offset });
    w.push(PortWrite { port: 0x21, val: 0x04 });
    w.push(PortWrite { port: 0xA1, val: 0x02 });
    w.push(PortWrite { port: 0x21, val: 0x01 });
    w.push(PortWrite { port: 0xA1, val: 0x01 });
    w.push(PortWrite { port: 0x21, val: master_mask & !0x01u8 });
    w.push(PortWrite { port: 0xA1, val: slave_mask });
    assert(master_mask & !0x01u8 == master_mask & 0xFE) by (bit_vector);
    assert(w@ =~= spec_pic_remap(master_offset, slave_offset, master_mask, slave_mask));
    w
}

/// The last mask written to the master PIC leaves the timer line (IRQ 0)
/// enabled and every other line as it was.
pub proof fn lemma_pic_unmasks_timer(m: u8)
    ensures
        (m & 0xFE) & 1 == 0,
        forall|b: u8| 1 <= b < 8 ==> #[trigger] ((m & 0xFE) >> b) & 1 == (m >> b) & 1,
{
    assert((m & 0xFE) & 1 == 0) by (bit_vector);
    assert forall|b: u8| 1 <= b < 8 implies #[trigger] ((m & 0xFE) >> b) & 1 == (m >> b) & 1 by {
        assert(1 <= b < 8 ==> ((m & 0xFE) >> b) & 1 == (m >> b) & 1) by (bit_vector);
    }
}

/// Divisor of the 1.193182 MHz PIT input that gives about 100 Hz.
pub const PIT_DIVISOR: u16 = 11931;

/// Mode command (channel 0, low then high byte, rate generator), then the
/// divisor's low and high bytes.
pub open spec fn spec_pit_init() -> Seq<PortWrite> {
    seq![pw(0x43, 0x36), pw(0x40, (PIT_DIVISOR & 0xFF) as u8), pw(0x40, (PIT_DIVISOR >> 8u16) as u8)]
}

pub fn pit_init_100hz() -> (w: Vec<PortWrite>)
    ensures
        w@ == spec_pit_init(),
{
    let div: u16 = PIT_DIVISOR;
    let mut w: Vec<PortWrite> = Vec::new();
    w.push(PortWrite { port: 0x43, val: 0x36 });
    w.push(PortWrite { port: 0x40, val: (div & 0x00FF) as u8 });
    w.push(PortWrite { port: 0x40, val: (div >> 8) as u8 });
    assert(w@ =~= spec_pit_init());
    w
}

/// The two divisor bytes put the divisor back together, and the rate it
/// gives is 100 Hz to within one.
pub proof fn lemma_pit_divisor()
    ensures
        (spec_pit_init()[1].val as int) + (spec_pit_init()[2].val as int) * 256 == PIT_DIVISOR,
        1193182int / (PIT_DIVISOR as int) == 100,
{
    assert((11931u16 & 0xFF) as u8 == 0x9B) by (bit_vector);
    assert((11931u16 >> 8u16) as u8 == 0x2E) by (bit_vector);
}

/// The marker a fatal exception leaves for the boot log.
pub open spec fn spec_exception_marker(vector: u8) -> u32 {
    (0x5800 + vector) as u32
}

pub fn exception_marker(vector: u8) -> (m: u32)
    ensures
        m == spec_exception_marker(vector),
{
    0x5800 + vector as u32
}

/// Where the interrupted stack frame starts: past the fifteen saved
/// registers.
pub open spec fn spec_frame_rsp(saved_rsp: u64) -> u64 {
    saved_rsp.wrapping_add(120)
}

pub fn frame_rsp(saved_rsp: u64) -> (r: u64)
    ensures
        r == spec_frame_rsp(saved_rsp),
{
    saved_rsp.wrapping_add(120)
}

/// What the kernel saw when the exception came.
#[derive(Copy, Clone)]
pub struct FaultContext {
    pub vector: u8,
    pub err: u64,
    pub last_marker: u64,
    pub rip: u64,
    pub frame_rsp: u64,
    pub rflags: u64,
    pub cr2: Option<u64>,
}

/// The report lines: tag, vector, error code and last marker; the faulting
/// instruction, stack and flags; for a page fault, the faulting address.
pub open spec fn spec_exception_lines(tag: Seq<char>, c: FaultContext) -> Seq<Seq<u8>> {
    let l1 = fit(encode_utf8(tag) + encode_utf8(" v="@) + spec_dec(c.vector as nat) + encode_utf8(" e="@)
        + spec_hex(c.err as nat) + encode_utf8(" lm="@) + spec_hex(c.last_marker as nat), 96);
    let l2 = fit(encode_utf8("XD1 rip="@) + spec_hex(c.rip as nat) + encode_utf8(" rsp="@) + spec_hex(c.frame_rsp as nat)
        + encode_utf8(" rfl="@) + spec_hex(c.rflags as nat), 128);
    match c.cr2 {
        Some(a) => seq![l1, l2, fit(encode_utf8("XPF cr2="@) + spec_hex(a as nat), 48)],
        None => seq![l1, l2],
    }
}

pub fn exception_lines(tag: &str, c: FaultContext) -> (lines: Vec<Vec<u8>>)
    ensures
        lines@.len() == spec_exception_lines(tag@, c).len(),
        forall|i: int| 0 <= i < lines@.len() ==> #[trigger] lines@[i]@ == spec_exception_lines(tag@, c)[i],
{
    let mut lines: Vec<Vec<u8>> = Vec::new();
    let mut b: Vec<u8> = Vec::new();
    push_str(&mut b, tag);
    push_str(&mut b, " v=");
    push_dec(&mut b, c.vector as u64);
    push_str(&mut b, " e=");
    push_hex(&mut b, c.err);
    push_str(&mut b, " lm=");
    push_hex(&mut b, c.last_marker);
    assert(b@ =~= encode_utf8(tag@) + encode_utf8(" v="@) + spec_dec(c.vector as nat) + encode_utf8(" e="@)
        + spec_hex(c.err as nat) + encode_utf8(" lm="@) + spec_hex(c.last_marker as nat));
    lines.push(cut(b, 96));
    let mut b2: Vec<u8> = Vec::new();
    push_str(&mut b2, "XD1 rip=");
    push_hex(&mut b2, c.rip);
    push_str(&mut b2, " rsp=");
    push_hex(&mut b2, c.frame_rsp);
    push_str(&mut b2, " rfl=");
    push_hex(&mut b2, c.rflags);
    assert(b2@ =~= encode_utf8("XD1 rip="@) + spec_hex(c.rip as nat) + encode_utf8(" rsp="@) + spec_hex(c.frame_rsp as nat)
        + encode_utf8(" rfl="@) + spec_hex(c.rflags as nat));
    lines.push(cut(b2, 128));
    match c.cr2 {
        Some(a) => {
            let mut b3: Vec<u8> = Vec::new();
            push_str(&mut b3, "XPF cr2=");
            push_hex(&mut b3, a);
            assert(b3@ =~= encode_utf8("XPF cr2="@) + spec_hex(a as nat));
            lines.push(cut(b3, 48));
        },
        None => {},
    }
    lines
}

/// The first serial port.
pub const COM1: u16 = 0x3F8;

/// The writes that set the first serial port to 38400 baud, 8N1, FIFOs on:
/// interrupts off, divisor latch, divisor 3, line format, FIFO control,
/// modem control.
pub open spec fn spec_serial_init() -> Seq<PortWrite> {
    seq![
        pw(0x3F9, 0x00), pw(0x3FB, 0x80), pw(0x3F8, 0x03), pw(0x3F9, 0x00),
        pw(0x3FB, 0x03), pw(0x3FA, 0xC7), pw(0x3FC, 0x0B),
    ]
}

pub fn serial_init() -> (w: Vec<PortWrite>)
    ensures
        w@ == spec_serial_init(),
{
    let mut w: Vec<PortWrite> = Vec::new();
    w.push(PortWrite { port: COM1 + 1, val: 0x00 });
    w.push(PortWrite { port: COM1 + 3, val: 0x80 });
    w.push(PortWrite { port: COM1, val: 0x03 });
    w.push(PortWrite { port: COM1 + 1, val: 0x00 });
    w.push(PortWrite { port: COM1 + 3, val: 0x03 });
    w.push(PortWrite { port: COM1 + 2, val: 0xC7 });
    w.push(PortWrite { port: COM1 + 4, val: 0x0B });
    assert(w@ =~= spec_serial_init());
    w
}

/// Whether the line-status byte says the transmitter can take a byte.
pub open spec fn spec_tx_ready(status: u8) -> bool {
    status & 0x20 != 0
}

pub fn tx_ready(status: u8) -> (r: bool)
    ensures
        r == spec_tx_ready(status),
{
    status & 0x20 != 0
}

} // verus!
