//! The boot-time fabric demonstration: registers two transvectors, drives
//! three events through the gated bus, merges and runs the fabric, and
//! reports each step as a line for the screen or the serial port.
use vstd::prelude::*;
use vstd::utf8::encode_utf8;
use crate::fmt::{fit, cut};
use crate::quad::{QuadReg, quad_bits, lemma_of_bits};
use crate::text::{spec_dec, spec_hex, push_str, push_dec, push_hex};
use crate::transvector::{
    Registry, Transvector, spec_register, spec_write, spec_read, spec_merge, spec_fabric, spec_phys_addr,
    first_with_id, inject, register, write_by_id, read_by_id, merge_by_id, fabric_step, RULE_COUNT,
};
use crate::transjector::{
    Bus, Transjector, TransjectorEvent, TraceRecord, StepResult, spec_gated, spec_pending, transject,
    bus_push, bus_pending, bus_step_gated, trace_last, lemma_gated_matches,
};

verus! {

/// Where a line of the demonstration goes.
#[derive(Copy, Clone, PartialEq, Eq, Structural)]
pub enum Sink {
    Screen,
    Serial,
}

/// One line of output.
pub struct OutLine {
    pub sink: Sink,
    pub text: Vec<u8>,
}

/// The lines as (sink, bytes) pairs.
pub open spec fn out_view(v: Seq<OutLine>) -> Seq<(Sink, Seq<u8>)> {
    v.map_values(|l: OutLine| (l.sink, l.text@))
}

/// The part of the fabric and bus that the demonstration reads and changes.
pub struct DemoWorld {
    pub slots: Seq<Option<Transvector>>,
    pub lanes: Seq<Seq<TransjectorEvent>>,
    pub next_lane: u8,
    pub tick: u32,
    pub last: TraceRecord,
}

pub open spec fn world(reg: Registry, bus: Bus) -> DemoWorld {
    DemoWorld {
        slots: reg.slots@,
        lanes: bus.lanes_view(),
        next_lane: bus.next_lane,
        tick: bus.trace_tick,
        last: bus.trace_last,
    }
}

/// The letter naming a register value: N, F, T or S.
pub open spec fn letter(bits: u8) -> u8 {
    let m = bits % 4;
    if m == 0 { 78 } else if m == 1 { 70 } else if m == 2 { 84 } else { 83 }
}

/// A line made of a literal prefix and a tail, cut to `cap` bytes.
pub open spec fn line(prefix: Seq<char>, tail: Seq<u8>, cap: int) -> Seq<u8> {
    fit(encode_utf8(prefix) + tail, cap)
}

pub open spec fn screen(text: Seq<u8>) -> Seq<(Sink, Seq<u8>)> {
    seq![(Sink::Screen, text)]
}

pub open spec fn serial(text: Seq<u8>) -> Seq<(Sink, Seq<u8>)> {
    seq![(Sink::Serial, text)]
}

/// "State: X"-style line for a register value.
pub open spec fn letter_line(prefix: Seq<char>, bits: u8) -> Seq<u8> {
    line(prefix, seq![letter(bits)], 32)
}

/// The trace line for a record.
pub open spec fn trace_text(tr: TraceRecord) -> Seq<u8> {
    let verdict = if tr.result == 0 { "APPLY"@ } else if tr.result == 1 { "BLOCK"@ } else { "EMPTY"@ };
    fit(
        encode_utf8("Trace t="@) + spec_dec(tr.tick as nat) + encode_utf8(" l="@) + spec_dec(tr.lane as nat)
            + encode_utf8(" out="@) + spec_dec(tr.out_id as nat) + encode_utf8(" in="@)
            + spec_dec(tr.in_id as nat) + encode_utf8(" "@) + seq![letter(tr.cur), letter(tr.incoming)]
            + encode_utf8(" -> "@) + encode_utf8(verdict),
        96,
    )
}

/// Lines for an optional transvector read: its state under `prefix`.
pub open spec fn read_lines(r: Option<Transvector>, prefix: Seq<char>) -> Seq<(Sink, Seq<u8>)> {
    match r {
        Some(t) => screen(letter_line(prefix, quad_bits(t.state))),
        None => Seq::empty(),
    }
}

/// Registration, the first write, the second registration and the second
/// write, with their lines.
pub open spec fn phase_intro(w: DemoWorld) -> (DemoWorld, Seq<(Sink, Seq<u8>)>) {
    let tv = Transvector { id: 1, state: QuadReg::of(2), phys_addr: spec_phys_addr(1) };
    let s1 = spec_register(w.slots, tv);
    let shown = screen(line("Transvector #"@, spec_dec(1), 32)) + screen(letter_line("State: "@, 2))
        + screen(line("Phys: 0x"@, spec_hex(spec_phys_addr(1) as nat), 32));
    let s2 = spec_write(s1, 1, QuadReg::of(3));
    let updated = if first_with_id(s1, 1, 0) != -1 {
        screen(encode_utf8("Updated state for ID 1:"@)) + screen(encode_utf8("State: S"@))
    } else {
        Seq::empty()
    };
    let tv2 = Transvector { id: 2, state: QuadReg::of(1), phys_addr: spec_phys_addr(2) };
    let s3 = spec_register(s2, tv2);
    let second = match spec_read(s3, 2) {
        Some(t) => screen(line("Transvector #"@, spec_dec(t.id as nat), 32)) + screen(
            letter_line("State: "@, quad_bits(t.state)),
        ),
        None => Seq::empty(),
    };
    let s4 = spec_write(s3, 1, QuadReg::of(2));
    (DemoWorld { slots: s4, ..w }, shown + updated + second)
}

/// The lanes after pushing `ev` on `lane` (unchanged when refused).
pub open spec fn push_lanes(lanes: Seq<Seq<TransjectorEvent>>, lane: u8, ev: TransjectorEvent) -> Seq<Seq<TransjectorEvent>> {
    if lane < 4 && lanes[lane as int].len() < 8 {
        lanes.update(lane as int, lanes[lane as int].push(ev))
    } else {
        lanes
    }
}

/// The three events pushed on lane 0, all aimed at transvector 1.
pub open spec fn demo_event(k: int) -> TransjectorEvent {
    let (id, st) = if k == 0 { (9u64, 3u8) } else if k == 1 { (10u64, 0u8) } else { (11u64, 2u8) };
    TransjectorEvent { out_id: 1, t: Transjector { id, lane: 0, state: QuadReg::of(st) } }
}

pub open spec fn phase_push(w: DemoWorld) -> (DemoWorld, Seq<(Sink, Seq<u8>)>) {
    let l = push_lanes(push_lanes(push_lanes(w.lanes, 0, demo_event(0)), 0, demo_event(1)), 0, demo_event(2));
    (
        DemoWorld { lanes: l, ..w },
        serial(encode_utf8("K05 bus push done"@)) + screen(line("Bus pending: "@, spec_dec(spec_pending(l)), 32)),
    )
}

/// One gated step on the world, with its result.
pub open spec fn world_step(w: DemoWorld) -> (DemoWorld, StepResult) {
    let (l, n, t, tr, s, r) = spec_gated(w.lanes, w.next_lane, w.tick, w.slots);
    (DemoWorld { slots: s, lanes: l, next_lane: n, tick: t, last: tr }, r)
}

/// The lines reporting one gated step, from the world after it.
pub open spec fn step_lines(w: DemoWorld, r: StepResult) -> Seq<(Sink, Seq<u8>)> {
    let head = match r {
        StepResult::Applied => "Bus step: applied"@,
        StepResult::Blocked => "Bus step: blocked"@,
        StepResult::Empty => "Bus step: empty"@,
    };
    screen(encode_utf8(head)) + screen(trace_text(w.last)) + read_lines(spec_read(w.slots, 1), "State #1: "@)
}

/// `k` gated steps and their lines.
pub open spec fn phase_steps(w: DemoWorld, k: nat) -> (DemoWorld, Seq<(Sink, Seq<u8>)>)
    decreases k,
{
    if k == 0 {
        (w, Seq::empty())
    } else {
        let (w1, ls) = phase_steps(w, (k - 1) as nat);
        let (w2, r) = world_step(w1);
        (w2, ls + step_lines(w2, r))
    }
}

/// The merge report, one fabric pass and the states read back.
pub open spec fn phase_fabric(w: DemoWorld) -> (DemoWorld, Seq<(Sink, Seq<u8>)>) {
    let merged = match spec_merge(w.slots, 1, 2) {
        Some(m) => screen(encode_utf8("Merge(1,2):"@)) + screen(letter_line("State: "@, quad_bits(m))),
        None => Seq::empty(),
    };
    let (s2, n) = spec_fabric(w.slots, RULE_COUNT as nat);
    let rest = screen(line("Fabric applied: "@, spec_dec(n), 32)) + read_lines(spec_read(s2, 1), "State #1: "@)
        + read_lines(spec_read(s2, 2), "State #2: "@) + serial(encode_utf8("K07 fabric done"@));
    (DemoWorld { slots: s2, ..w }, merged + rest)
}

/// The whole demonstration: the final world and every line, in order.
pub open spec fn spec_demo(w0: DemoWorld) -> (DemoWorld, Seq<(Sink, Seq<u8>)>) {
    let (w1, a) = phase_intro(w0);
    let (w2, b) = phase_push(w1);
    let (w3, c) = phase_steps(w2, 3);
    let (w4, d) = phase_fabric(w3);
    (w4, a + b + c + serial(encode_utf8("K06 bus steps done"@)) + d)
}

fn state_letter(bits: u8) -> (r: u8)
    ensures
        r == letter(bits),
{
    let m = bits % 4;
    if m == 0 { 78 } else if m == 1 { 70 } else if m == 2 { 84 } else { 83 }
}

fn lit(s: &str) -> (r: Vec<u8>)
    ensures
        r@ == encode_utf8(s@),
{
    let mut v: Vec<u8> = Vec::new();
    push_str(&mut v, s);
    assert(v@ =~= encode_utf8(s@));
    v
}

pub(crate) fn emit(out: &mut Vec<OutLine>, sink: Sink, text: Vec<u8>)
    ensures
        out_view(final(out)@) == out_view(old(out)@).push((sink, text@)),
{
    out.push(OutLine { sink, text });
    assert(out_view(out@) =~= out_view(old(out)@).push((sink, text@)));
}

pub(crate) fn emit_lit(out: &mut Vec<OutLine>, sink: Sink, s: &str)
    ensures
        out_view(final(out)@) == out_view(old(out)@).push((sink, encode_utf8(s@))),
{
    let t = lit(s);
    emit(out, sink, t);
}

fn emit_num(out: &mut Vec<OutLine>, prefix: &str, n: u64)
    ensures
        out_view(final(out)@) == out_view(old(out)@).push((Sink::Screen, line(prefix@, spec_dec(n as nat), 32))),
{
    let mut v = lit(prefix);
    push_dec(&mut v, n);
    let t = cut(v, 32);
    emit(out, Sink::Screen, t);
}

fn emit_letter(out: &mut Vec<OutLine>, prefix: &str, bits: u8)
    ensures
        out_view(final(out)@) == out_view(old(out)@).push((Sink::Screen, letter_line(prefix@, bits))),
{
    let mut v = lit(prefix);
    v.push(state_letter(bits));
    assert(v@ =~= encode_utf8(prefix@) + seq![letter(bits)]);
    let t = cut(v, 32);
    emit(out, Sink::Screen, t);
}

fn emit_read(out: &mut Vec<OutLine>, r: Option<Transvector>, prefix: &str)
    ensures
        out_view(final(out)@) == out_view(old(out)@) + read_lines(r, prefix@),
{
    match r {
        Some(t) => {
            emit_letter(out, prefix, t.state.bits());
        },
        None => {
            assert(out_view(out@) =~= out_view(out@) + Seq::<(Sink, Seq<u8>)>::empty());
        },
    }
}

fn trace_bytes(tr: TraceRecord) -> (r: Vec<u8>)
    ensures
        r@ == trace_text(tr),
{
    let mut v = lit("Trace t=");
    push_dec(&mut v, tr.tick as u64);
    push_str(&mut v, " l=");
    push_dec(&mut v, tr.lane as u64);
    push_str(&mut v, " out=");
    push_dec(&mut v, tr.out_id);
    push_str(&mut v, " in=");
    push_dec(&mut v, tr.in_id);
    push_str(&mut v, " ");
    v.push(state_letter(tr.cur));
    v.push(state_letter(tr.incoming));
    push_str(&mut v, " -> ");
    if tr.result == 0 {
        push_str(&mut v, "APPLY");
    } else if tr.result == 1 {
        push_str(&mut v, "BLOCK");
    } else {
        push_str(&mut v, "EMPTY");
    }
    let ghost verdict = if tr.result == 0 { "APPLY"@ } else if tr.result == 1 { "BLOCK"@ } else { "EMPTY"@ };
    assert(v@ =~= encode_utf8("Trace t="@) + spec_dec(tr.tick as nat) + encode_utf8(" l="@) + spec_dec(tr.lane as nat)
        + encode_utf8(" out="@) + spec_dec(tr.out_id as nat) + encode_utf8(" in="@)
        + spec_dec(tr.in_id as nat) + encode_utf8(" "@) + seq![letter(tr.cur), letter(tr.incoming)]
        + encode_utf8(" -> "@) + encode_utf8(verdict));
    cut(v, 96)
}

fn intro(reg: &mut Registry, bus: &Bus, out: &mut Vec<OutLine>)
    ensures
        world(*final(reg), *bus) == phase_intro(world(*old(reg), *bus)).0,
        out_view(final(out)@) == out_view(old(out)@) + phase_intro(world(*old(reg), *bus)).1,
{
    let ghost w0 = world(*reg, *bus);
    let ghost o0 = out_view(out@);
    let tv = inject(1, 1);
    proof { lemma_of_bits(2); }
    let _ = register(reg, tv);
    emit_num(out, "Transvector #", tv.id);
    emit_letter(out, "State: ", tv.state.bits());
    let mut v = lit("Phys: 0x");
    push_hex(&mut v, tv.phys_addr);
    let t = cut(v, 32);
    emit(out, Sink::Screen, t);
    let ghost o1 = out_view(out@);
    let updated = write_by_id(reg, 1, QuadReg::s());
    if updated {
        emit_lit(out, Sink::Screen, "Updated state for ID 1:");
        emit_lit(out, Sink::Screen, "State: S");
    }
    let ghost o2 = out_view(out@);
    let tv2 = inject(2, 2);
    let _ = register(reg, tv2);
    let r2 = read_by_id(reg, 2);
    match r2 {
        Some(t2) => {
            emit_num(out, "Transvector #", t2.id);
            emit_letter(out, "State: ", t2.state.bits());
        },
        None => {},
    }
    let _ = write_by_id(reg, 1, QuadReg::t());
    proof {
        let p = phase_intro(w0);
        assert(world(*reg, *bus) =~= p.0);
        assert(out_view(out@) =~= o0 + p.1);
    }
}

fn push_events(bus: &mut Bus, reg: &Registry, out: &mut Vec<OutLine>)
    requires
        old(bus).wf(),
    ensures
        final(bus).wf(),
        world(*reg, *final(bus)) == phase_push(world(*reg, *old(bus))).0,
        out_view(final(out)@) == out_view(old(out)@) + phase_push(world(*reg, *old(bus))).1,
{
    let ghost w0 = world(*reg, *bus);
    let ghost o0 = out_view(out@);
    let t9 = transject(9, 0, 3);
    let t10 = transject(10, 0, 0);
    let t11 = transject(11, 0, 1);
    assert(TransjectorEvent { out_id: 1, t: t9 } == demo_event(0));
    assert(TransjectorEvent { out_id: 1, t: t10 } == demo_event(1));
    assert(TransjectorEvent { out_id: 1, t: t11 } == demo_event(2));
    let _ = bus_push(bus, 0, TransjectorEvent { out_id: 1, t: t9 });
    let _ = bus_push(bus, 0, TransjectorEvent { out_id: 1, t: t10 });
    let _ = bus_push(bus, 0, TransjectorEvent { out_id: 1, t: t11 });
    emit_lit(out, Sink::Serial, "K05 bus push done");
    let n = bus_pending(bus);
    emit_num(out, "Bus pending: ", n as u64);
    proof {
        let p = phase_push(w0);
        assert(world(*reg, *bus) =~= p.0);
        assert(out_view(out@) =~= o0 + p.1);
    }
}

fn one_step(bus: &mut Bus, reg: &mut Registry, out: &mut Vec<OutLine>)
    requires
        old(bus).wf(),
    ensures
        final(bus).wf(),
        world(*final(reg), *final(bus)) == world_step(world(*old(reg), *old(bus))).0,
        out_view(final(out)@) == out_view(old(out)@) + step_lines(
            world_step(world(*old(reg), *old(bus))).0,
            world_step(world(*old(reg), *old(bus))).1,
        ),
{
    let ghost w0 = world(*reg, *bus);
    let ghost o0 = out_view(out@);
    let r = bus_step_gated(bus, reg);
    proof {
        lemma_gated_matches(
            w0.lanes, w0.next_lane, w0.tick, w0.slots,
            bus.lanes_view(), bus.next_lane, bus.trace_tick, bus.trace_last, reg.slots@, r,
        );
    }
    match r {
        StepResult::Applied => emit_lit(out, Sink::Screen, "Bus step: applied"),
        StepResult::Blocked => emit_lit(out, Sink::Screen, "Bus step: blocked"),
        StepResult::Empty => emit_lit(out, Sink::Screen, "Bus step: empty"),
    }
    let tr = trace_last(bus);
    let tb = trace_bytes(tr);
    emit(out, Sink::Screen, tb);
    let now = read_by_id(reg, 1);
    emit_read(out, now, "State #1: ");
    proof {
        let (w1, r1) = world_step(w0);
        assert(world(*reg, *bus) =~= w1);
        assert(r1 == r);
        assert(out_view(out@) =~= o0 + step_lines(w1, r1));
    }
}

fn steps(bus: &mut Bus, reg: &mut Registry, out: &mut Vec<OutLine>)
    requires
        old(bus).wf(),
    ensures
        final(bus).wf(),
        world(*final(reg), *final(bus)) == phase_steps(world(*old(reg), *old(bus)), 3).0,
        out_view(final(out)@) == out_view(old(out)@) + phase_steps(world(*old(reg), *old(bus)), 3).1,
{
    let ghost w0 = world(*reg, *bus);
    let ghost o0 = out_view(out@);
    let mut i: usize = 0;
    while i < 3
        invariant
            i <= 3,
            bus.wf(),
            world(*reg, *bus) == phase_steps(w0, i as nat).0,
            out_view(out@) == o0 + phase_steps(w0, i as nat).1,
        decreases 3 - i,
    {
        let ghost before = out_view(out@);
        one_step(bus, reg, out);
        i += 1;
        proof {
            let (w1, ls) = phase_steps(w0, (i - 1) as nat);
            let (w2, r) = world_step(w1);
            assert(phase_steps(w0, i as nat) == (w2, ls + step_lines(w2, r)));
            assert(out_view(out@) =~= o0 + (ls + step_lines(w2, r)));
        }
    }
}

fn fabric_report(reg: &mut Registry, bus: &Bus, out: &mut Vec<OutLine>)
    ensures
        world(*final(reg), *bus) == phase_fabric(world(*old(reg), *bus)).0,
        out_view(final(out)@) == out_view(old(out)@) + phase_fabric(world(*old(reg), *bus)).1,
{
    let ghost w0 = world(*reg, *bus);
    let ghost o0 = out_view(out@);
    let m = merge_by_id(reg, 1, 2);
    match m {
        Some(q) => {
            emit_lit(out, Sink::Screen, "Merge(1,2):");
            emit_letter(out, "State: ", q.bits());
        },
        None => {},
    }
    let ghost o1 = out_view(out@);
    let n = fabric_step(reg);
    emit_num(out, "Fabric applied: ", n as u64);
    let r1 = read_by_id(reg, 1);
    emit_read(out, r1, "State #1: ");
    let r2 = read_by_id(reg, 2);
    emit_read(out, r2, "State #2: ");
    emit_lit(out, Sink::Serial, "K07 fabric done");
    proof {
        let p = phase_fabric(w0);
        assert(world(*reg, *bus) =~= p.0);
        assert(out_view(out@) =~= o0 + p.1);
    }
}

/// Runs the demonstration on the fabric and the bus and returns its lines,
/// in the order in which they are written.
pub fn run(reg: &mut Registry, bus: &mut Bus) -> (lines: Vec<OutLine>)
    requires
        old(bus).wf(),
    ensures
        final(bus).wf(),
        world(*final(reg), *final(bus)) == spec_demo(world(*old(reg), *old(bus))).0,
        out_view(lines@) == spec_demo(world(*old(reg), *old(bus))).1,
{
    let ghost w0 = world(*reg, *bus);
    let mut out: Vec<OutLine> = Vec::new();
    intro(reg, bus, &mut out);
    push_events(bus, reg, &mut out);
    steps(bus, reg, &mut out);
    emit_lit(&mut out, Sink::Serial, "K06 bus steps done");
    fabric_report(reg, bus, &mut out);
    proof {
        let (w1, a) = phase_intro(w0);
        let (w2, b) = phase_push(w1);
        let (w3, c) = phase_steps(w2, 3);
        let (w4, d) = phase_fabric(w3);
        assert(out_view(out@) =~= a + b + c + serial(encode_utf8("K06 bus steps done"@)) + d);
    }
    out
}

} // verus!
