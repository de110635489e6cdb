//! The boot handoff: what the bootloader passes to the kernel, the kernel's
//! checks of it, its first screen lines, and the runtime's initial state.
use vstd::prelude::*;
use crate::text::{spec_dec};
use crate::fmt::{fit, room, append_bytes, append_u64};
use crate::kernel_state::{
    KernelState, KernelView, TaskState, EventFrame, TxIngest, table_view, SLEEP_NONE, SRC_NONE, TASK_DISPATCH_BUDGET,
    event_frame_empty,
};
use crate::transvector::{Registry, Transvector};
use crate::transjector::{Bus, TransjectorEvent, empty_trace};

verus! {

/// The signature the kernel expects in the handoff: "V_VECTOS" read as a
/// little-endian word.
pub const BOOT_MAGIC: u64 = 0x534F544345565F56;

/// The linear framebuffer the firmware set up.
#[derive(Clone, Copy, PartialEq, Eq, Structural, Debug)]
pub struct Framebuffer {
    pub base: u64,
    pub size: u64,
    pub width: u32,
    pub height: u32,
    pub stride: u32,
    pub format: u32,
}

/// Where the firmware memory map lies and how it is laid out.
#[derive(Clone, Copy, PartialEq, Eq, Structural, Debug)]
pub struct MemoryMapInfo {
    pub map: u64,
    pub size: usize,
    pub desc_size: usize,
}

/// What the bootloader hands to the kernel.
#[derive(Clone, Copy, PartialEq, Eq, Structural, Debug)]
pub struct BootInfo {
    pub magic: u64,
    pub framebuffer: Framebuffer,
    pub memory_map: MemoryMapInfo,
    pub rsdp_addr: u64,
}

/// The largest framebuffer side the kernel accepts.
pub const FB_MAX_SIDE: u32 = 16384;

/// Why the handoff is refused, as the line the kernel prints before it
/// halts; `None` when it is accepted. The checks run in this order.
pub open spec fn spec_boot_check(info: Option<BootInfo>) -> Option<Seq<char>> {
    match info {
        None => Some("E01 bootinfo null"@),
        Some(b) => {
            let fb = b.framebuffer;
            if b.magic != BOOT_MAGIC {
                Some("E02 boot magic"@)
            } else if fb.base == 0 {
                Some("E03 fb base"@)
            } else if fb.stride == 0 {
                Some("E04 fb stride"@)
            } else if fb.width == 0 || fb.height == 0 {
                Some("E05 fb size"@)
            } else if fb.width > FB_MAX_SIDE || fb.height > FB_MAX_SIDE || fb.stride < fb.width {
                Some("E06 fb bounds"@)
            } else {
                None
            }
        },
    }
}

/// Checks the handoff; a refusal gives the line to print before halting.
pub fn check_bootinfo(info: Option<&BootInfo>) -> (r: Option<&'static str>)
    ensures
        match spec_boot_check(match info { Some(b) => Some(*b), None => None }) {
            Some(m) => r matches Some(s) && s@ == m,
            None => r is None,
        },
{
    let b = match info {
        None => return Some("E01 bootinfo null"),
        Some(b) => b,
    };
    let fb = b.framebuffer;
    if b.magic != BOOT_MAGIC {
        return Some("E02 boot magic");
    }
    if fb.base == 0 {
        return Some("E03 fb base");
    }
    if fb.stride == 0 {
        return Some("E04 fb stride");
    }
    if fb.width == 0 || fb.height == 0 {
        return Some("E05 fb size");
    }
    if fb.width > FB_MAX_SIDE || fb.height > FB_MAX_SIDE || fb.stride < fb.width {
        return Some("E06 fb bounds");
    }
    None
}

/// An accepted framebuffer is non-empty, has rows at least as wide as the
/// picture, and sides of at most 16384 pixels.
pub proof fn lemma_accepted_framebuffer(b: BootInfo)
    requires
        spec_boot_check(Some(b)) is None,
    ensures
        b.magic == BOOT_MAGIC,
        b.framebuffer.base != 0,
        0 < b.framebuffer.width <= b.framebuffer.stride,
        b.framebuffer.width <= FB_MAX_SIDE,
        0 < b.framebuffer.height <= FB_MAX_SIDE,
{
}

/// Entries in the memory map: none when the descriptor size is zero.
pub open spec fn spec_map_entries(m: MemoryMapInfo) -> nat {
    if m.desc_size == 0 { 0 } else { (m.size / m.desc_size) as nat }
}

pub fn memory_map_entries(m: &MemoryMapInfo) -> (n: usize)
    ensures
        n == spec_map_entries(*m),
{
    if m.desc_size == 0 { 0 } else { m.size / m.desc_size }
}

/// Capacity of the kernel's first screen lines.
pub const INFO_LINE_CAP: usize = 64;

/// `Framebuffer: <width> x <height>`, cut to the line's capacity.
pub open spec fn spec_fb_line(fb: Framebuffer) -> Seq<u8> {
    let a = fit("Framebuffer: "@.map_values(|c: char| c as u8), INFO_LINE_CAP as int);
    let b = a + fit(spec_dec(fb.width as nat), room(INFO_LINE_CAP, a.len()));
    let c = b + fit(" x "@.map_values(|c: char| c as u8), room(INFO_LINE_CAP, b.len()));
    c + fit(spec_dec(fb.height as nat), room(INFO_LINE_CAP, c.len()))
}

fn ascii(s: &str) -> (b: Vec<u8>)
    requires
        vstd::string::is_ascii(s),
    ensures
        b@ == s@.map_values(|c: char| c as u8),
{
    let mut out: Vec<u8> = Vec::new();
    out.extend_from_slice(s.as_bytes());
    proof {
        vstd::string::is_ascii_spec_bytes(s);
    }
    assert(out@ =~= s@.map_values(|c: char| c as u8));
    out
}

/// The framebuffer line the kernel shows at boot.
pub fn framebuffer_line(fb: &Framebuffer) -> (line: Vec<u8>)
    ensures
        line@ == spec_fb_line(*fb),
{
    proof {
        reveal_strlit("Framebuffer: ");
        reveal_strlit(" x ");
    }
    let mut line: Vec<u8> = Vec::new();
    let p1 = ascii("Framebuffer: ");
    append_bytes(&mut line, INFO_LINE_CAP, p1.as_slice());
    append_u64(&mut line, INFO_LINE_CAP, fb.width as u64);
    let p2 = ascii(" x ");
    append_bytes(&mut line, INFO_LINE_CAP, p2.as_slice());
    append_u64(&mut line, INFO_LINE_CAP, fb.height as u64);
    assert(line@ =~= spec_fb_line(*fb));
    line
}

/// `Memory map entries: <n>`, cut to the line's capacity.
pub open spec fn spec_map_line(m: MemoryMapInfo) -> Seq<u8> {
    let a = fit("Memory map entries: "@.map_values(|c: char| c as u8), INFO_LINE_CAP as int);
    a + fit(spec_dec(spec_map_entries(m)), room(INFO_LINE_CAP, a.len()))
}

/// The memory-map line the kernel shows at boot.
pub fn memory_map_line(m: &MemoryMapInfo) -> (line: Vec<u8>)
    ensures
        line@ == spec_map_line(*m),
{
    proof {
        reveal_strlit("Memory map entries: ");
    }
    let mut line: Vec<u8> = Vec::new();
    let p = ascii("Memory map entries: ");
    append_bytes(&mut line, INFO_LINE_CAP, p.as_slice());
    let n = memory_map_entries(m);
    append_u64(&mut line, INFO_LINE_CAP, n as u64);
    assert(line@ =~= spec_map_line(*m));
    line
}

/// The runtime's state when the kernel hands over to it: tick zero, three
/// tasks of which the first two are ready, full dispatch budgets, every
/// other table cleared, and empty queues, fabric, bus and log.
pub open spec fn boot_view() -> KernelView {
    KernelView {
        tick: 0,
        last_irq_tick: 0,
        missed: 0,
        max_dt: 0,
        current_task: 0,
        task_count: 3,
        tasks: seq![TaskState::Ready, TaskState::Ready, TaskState::Blocked, TaskState::Blocked,
            TaskState::Blocked, TaskState::Blocked, TaskState::Blocked, TaskState::Blocked],
        sleep_until: Seq::new(8, |i: int| SLEEP_NONE),
        wait_mask: Seq::new(8, |i: int| 0u32),
        pending_evt: Seq::new(8, |i: int| 0u32),
        last_wake: Seq::new(8, |i: int| 0u32),
        sub_mask: Seq::new(8, |i: int| 0u32),
        mb_evt: Seq::new(8, |i: int| 0u32),
        mb_cnt: Seq::new(8, |i: int| Seq::new(4, |j: int| 0u8)),
        mb_payload: Seq::new(8, |i: int| Seq::new(4, |j: int| 0u32)),
        mb_src: Seq::new(8, |i: int| Seq::new(4, |j: int| SRC_NONE)),
        mb_tick: Seq::new(8, |i: int| Seq::new(4, |j: int| 0u32)),
        ovf: Seq::new(8, |i: int| 0u32),
        handled_cnt: Seq::new(8, |i: int| Seq::new(4, |j: int| 0u16)),
        handled_ovf: Seq::new(8, |i: int| 0u16),
        dispatch_budget: Seq::new(8, |i: int| TASK_DISPATCH_BUDGET),
        dispatch_budget_last_log: 0,
        lat_max: Seq::new(4, |i: int| 0u16),
        lat_last: Seq::new(4, |i: int| 0u16),
        lat_viol: Seq::new(4, |i: int| 0u16),
        dl_last_log_tick: Seq::new(4, |i: int| 0u32),
        dl_win_viol: Seq::new(4, |i: int| 0u16),
        dl_win_max: Seq::new(4, |i: int| 0u16),
        dl_win_start_tick: Seq::new(4, |i: int| 0u32),
        evq: Seq::new(4, |c: int| Seq::<EventFrame>::empty()),
        evq_ovf: Seq::new(4, |i: int| 0u32),
        evq_starve: Seq::new(4, |i: int| 0u16),
        tx_used: Seq::new(8, |i: int| false),
        tx_enabled: Seq::new(8, |i: int| false),
        tx_tid: Seq::new(8, |i: int| 0u8),
        tx_raw_kind_mask: Seq::new(8, |i: int| 0u32),
        tx_interest_mask: Seq::new(8, |i: int| 0u32),
        tx_ingest: Seq::new(8, |i: int| None::<TxIngest>),
        tx_count: 0,
        woke: 0,
        logic_counter: 0,
        task2_counter: 0,
        softirq_pending: 0,
        fabric: Seq::new(16, |i: int| None::<Transvector>),
        bus_lanes: Seq::new(4, |i: int| Seq::<TransjectorEvent>::empty()),
        bus_next: 0,
        bus_trace_tick: 0,
        bus_trace_last: empty_trace(),
        log: Seq::empty(),
    }
}

pub fn boot_state() -> (s: KernelState)
    ensures
        s.wf(),
        s@ == boot_view(),
{
    let empty = event_frame_empty();
    let s = KernelState {
        tick: 0,
        last_irq_tick: 0,
        missed: 0,
        max_dt: 0,
        current_task: 0,
        task_count: 3,
        tasks: [
            TaskState::Ready,
            TaskState::Ready,
            TaskState::Blocked,
            TaskState::Blocked,
            TaskState::Blocked,
            TaskState::Blocked,
            TaskState::Blocked,
            TaskState::Blocked,
        ],
        sleep_until: [SLEEP_NONE; 8],
        wait_mask: [0; 8],
        pending_evt: [0; 8],
        last_wake: [0; 8],
        sub_mask: [0; 8],
        mb_evt: [0; 8],
        mb_cnt: [[0; 4]; 8],
        mb_payload: [[0; 4]; 8],
        mb_src: [[SRC_NONE; 4]; 8],
        mb_tick: [[0; 4]; 8],
        ovf: [0; 8],
        handled_cnt: [[0; 4]; 8],
        handled_ovf: [0; 8],
        dispatch_budget: [TASK_DISPATCH_BUDGET; 8],
        dispatch_budget_last_log: 0,
        lat_max: [0; 4],
        lat_last: [0; 4],
        lat_viol: [0; 4],
        dl_last_log_tick: [0; 4],
        dl_win_viol: [0; 4],
        dl_win_max: [0; 4],
        dl_win_start_tick: [0; 4],
        evq: [[empty; 16]; 4],
        evq_head: [0; 4],
        evq_tail: [0; 4],
        evq_len: [0; 4],
        evq_ovf: [0; 4],
        evq_starve: [0; 4],
        tx_used: [false; 8],
        tx_enabled: [false; 8],
        tx_tid: [0; 8],
        tx_raw_kind_mask: [0; 8],
        tx_interest_mask: [0; 8],
        tx_ingest: [None; 8],
        tx_count: 0,
        woke: 0,
        logic_counter: 0,
        task2_counter: 0,
        softirq_pending: 0,
        fabric: Registry::new(),
        bus: Bus::new(),
        log: Vec::new(),
    };
    let ghost b = boot_view();
    assert(s.tasks@ =~= b.tasks);
    assert(s.evq_len@ == Seq::new(4, |i: int| 0u16)) by {
        assert(s.evq_len@ =~= Seq::new(4, |i: int| 0u16));
    }
    assert(s@.evq =~~= b.evq);
    assert(table_view(s.mb_cnt) =~~= b.mb_cnt);
    assert(table_view(s.mb_payload) =~~= b.mb_payload);
    assert(table_view(s.mb_src) =~~= b.mb_src);
    assert(table_view(s.mb_tick) =~~= b.mb_tick);
    assert(table_view(s.handled_cnt) =~~= b.handled_cnt);
    assert(s.fabric.slots@ =~= b.fabric);
    assert(s@ =~~= b);
    s
}

/// How the firmware lays out a pixel.
#[derive(Clone, Copy, PartialEq, Eq, Structural, Debug)]
pub enum PixelLayout {
    Rgb,
    Bgr,
    Bitmask,
    BltOnly,
}

/// The format code the handoff carries for a pixel layout.
pub open spec fn spec_format_code(l: PixelLayout) -> u32 {
    match l {
        PixelLayout::Rgb => 0,
        PixelLayout::Bgr => 1,
        PixelLayout::Bitmask => 2,
        PixelLayout::BltOnly => 3,
    }
}

pub fn map_format(l: PixelLayout) -> (code: u32)
    ensures
        code == spec_format_code(l),
{
    match l {
        PixelLayout::Rgb => 0,
        PixelLayout::Bgr => 1,
        PixelLayout::Bitmask => 2,
        PixelLayout::BltOnly => 3,
    }
}

/// The framebuffer description the bootloader hands over for the firmware's
/// current mode (sides and stride are kept to their low 32 bits).
pub fn gop_framebuffer(base: u64, size: usize, width: usize, height: usize, stride: usize, layout: PixelLayout)
    -> (fb: Framebuffer)
    ensures
        fb == (Framebuffer {
            base,
            size: size as u64,
            width: width as u32,
            height: height as u32,
            stride: stride as u32,
            format: spec_format_code(layout),
        }),
{
    Framebuffer {
        base,
        size: size as u64,
        width: width as u32,
        height: height as u32,
        stride: stride as u32,
        format: map_format(layout),
    }
}

/// The memory-map description: `len` descriptors of `desc_size` bytes at
/// `map`; `None` when the total size does not fit in a machine word.
pub fn memory_map_info(map: u64, len: usize, desc_size: usize) -> (m: Option<MemoryMapInfo>)
    ensures
        len * desc_size <= usize::MAX ==> m == Some(MemoryMapInfo { map, size: (len * desc_size) as usize, desc_size }),
        len * desc_size > usize::MAX ==> m is None,
{
    match len.checked_mul(desc_size) {
        Some(size) => Some(MemoryMapInfo { map, size, desc_size }),
        None => None,
    }
}

/// A map described from `len` descriptors counts `len` entries again.
pub proof fn lemma_map_entries_roundtrip(map: u64, len: usize, desc_size: usize)
    requires
        desc_size > 0,
        len * desc_size <= usize::MAX,
    ensures
        spec_map_entries(MemoryMapInfo { map, size: (len * desc_size) as usize, desc_size }) == len,
{
    assert((len * desc_size) / (desc_size as int) == len) by (nonlinear_arith)
        requires desc_size > 0;
}

} // verus!
