//! The kernel's first lines: its entry marker, the outcome of the handoff
//! and, when it is accepted, the first screen.
use vstd::prelude::*;
use vstd::utf8::encode_utf8;
use crate::boot::{BootInfo, spec_boot_check, check_bootinfo, spec_fb_line, spec_map_line, framebuffer_line, memory_map_line};
use crate::demo::{OutLine, Sink, out_view, screen, serial, emit, emit_lit};

verus! {

/// The lines the kernel writes before the fabric demonstration, in order,
/// and whether it goes on; when it does not, it halts after them. The
/// screen is painted and cleared before its first line.
pub open spec fn spec_kernel_intro(info: Option<BootInfo>) -> (Seq<(Sink, Seq<u8>)>, bool) {
    let k00 = encode_utf8("K00 kernel entry"@);
    let k01 = encode_utf8("K01 bootinfo ok"@);
    match spec_boot_check(info) {
        Some(m) => (serial(k00) + serial(encode_utf8(m)), false),
        None => {
            let b = info->0;
            (serial(k00) + serial(k01) + screen(k00) + serial(k00) + screen(k01) + serial(k01)
                + serial(encode_utf8("K02 framebuffer writer"@)) + screen(encode_utf8("VectorOS Kernel v0"@))
                + screen(spec_fb_line(b.framebuffer)) + serial(encode_utf8("K03 framebuffer info"@))
                + screen(spec_map_line(b.memory_map)) + serial(encode_utf8("K04 memory map info"@)), true)
        },
    }
}

pub fn kernel_intro(info: Option<&BootInfo>) -> (r: (Vec<OutLine>, bool))
    ensures
        (out_view(r.0@), r.1) == spec_kernel_intro(match info { Some(b) => Some(*b), None => None }),
{
    let ghost i = match info { Some(b) => Some(*b), None => None::<BootInfo> };
    let mut out: Vec<OutLine> = Vec::new();
    emit_lit(&mut out, Sink::Serial, "K00 kernel entry");
    match check_bootinfo(info) {
        Some(msg) => {
            emit_lit(&mut out, Sink::Serial, msg);
            assert(out_view(out@) =~= spec_kernel_intro(i).0);
            return (out, false);
        },
        None => {},
    }
    let b = match info {
        Some(b) => b,
        None => {
            return (out, false);
        },
    };
    emit_lit(&mut out, Sink::Serial, "K01 bootinfo ok");
    emit_lit(&mut out, Sink::Screen, "K00 kernel entry");
    emit_lit(&mut out, Sink::Serial, "K00 kernel entry");
    emit_lit(&mut out, Sink::Screen, "K01 bootinfo ok");
    emit_lit(&mut out, Sink::Serial, "K01 bootinfo ok");
    emit_lit(&mut out, Sink::Serial, "K02 framebuffer writer");
    emit_lit(&mut out, Sink::Screen, "VectorOS Kernel v0");
    let fl = framebuffer_line(&b.framebuffer);
    emit(&mut out, Sink::Screen, fl);
    emit_lit(&mut out, Sink::Serial, "K03 framebuffer info");
    let ml = memory_map_line(&b.memory_map);
    emit(&mut out, Sink::Screen, ml);
    emit_lit(&mut out, Sink::Serial, "K04 memory map info");
    assert(out_view(out@) =~= spec_kernel_intro(i).0);
    (out, true)
}

} // verus!
