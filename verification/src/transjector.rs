//! Transjectors: the lanes that carry quad-state writes to the fabric, the
//! gated bus step, payload packing, and the raw-to-semantic event path.
use vstd::prelude::*;
use crate::quad::{QuadReg, quad_bits};
use crate::runtime_log::LogRecord;
use crate::kernel_state::{
    log_push,
    KernelState, KernelView, RawEvent, VectorEvent, TxIngest, MAX_TX, EVT_BUS, EVT_FAB, EVT_LOG, EVT_TIMER,
    RAW_INTERNAL, RAW_IRQ, RAW_MMIO, RAW_SOFTIRQ, RAWC_INTERNAL_LOG_FLUSH, RAWC_INTERNAL_PANIC,
    RAWC_IRQ_GRP_BUS, RAWC_IRQ_GRP_FAB, RAWC_IRQ_GRP_TIMER, RAWC_MMIO_BUS_RX, RAWC_MMIO_BUS_TX,
    RAWC_MMIO_FAB_ALERT, RAWC_SOFTIRQ_BUS, RAWC_SOFTIRQ_FABRIC, RAWC_SOFTIRQ_LOG, RAWC_SOFTIRQ_TIMER,
};
use crate::softirq::{SOFTIRQ_BUS, SOFTIRQ_FABRIC, SOFTIRQ_LOG, SOFTIRQ_SCHED};
use crate::transvector::{
    Registry, Transvector, spec_read, spec_write, first_with_id, read_by_id, write_by_id,
    quad_of_raw, spec_state_of_raw,
};

verus! {

pub const LANE_COUNT: usize = 4;
pub const LANE_CAP: usize = 8;

#[derive(Copy, Clone)]
pub struct Transjector {
    pub id: u64,
    pub lane: u8,
    pub state: QuadReg,
}

#[derive(Copy, Clone)]
pub struct TransjectorEvent {
    pub out_id: u64,
    pub t: Transjector,
}

/// A bounded FIFO of pending transjector events (a ring of eight slots).
#[derive(Copy, Clone)]
pub struct Lane {
    pub buf: [Option<TransjectorEvent>; 8],
    pub head: u8,
    pub tail: u8,
}

#[derive(Copy, Clone)]
pub struct TraceRecord {
    pub tick: u32,
    pub lane: u8,
    pub out_id: u64,
    pub in_id: u64,
    pub cur: u8,
    pub incoming: u8,
    pub result: u8,
}

#[derive(Copy, Clone, PartialEq, Eq, Structural)]
pub enum StepResult {
    Applied,
    Blocked,
    Empty,
}

/// The transjector bus: four lanes served round-robin, and the record of
/// the last gated step.
pub struct Bus {
    pub lanes: [Lane; 4],
    pub next_lane: u8,
    pub trace_tick: u32,
    pub trace_last: TraceRecord,
}

/// Number of events held by a lane.
pub open spec fn lane_len(l: Lane) -> nat {
    if l.head == l.tail {
        if l.buf@[l.head as int] is Some { 8 } else { 0 }
    } else {
        ((l.tail as int - l.head as int + 8) % 8) as nat
    }
}

/// Well-formed lane: the events occupy the slots from `head` onwards, the
/// rest are empty, and `tail` is the slot after the last event.
pub open spec fn lane_wf(l: Lane) -> bool {
    &&& l.head < 8
    &&& l.tail < 8
    &&& l.tail as int == (l.head as int + lane_len(l)) % 8
    &&& forall|k: int| 0 <= k < 8 ==> ((#[trigger] l.buf@[(l.head as int + k) % 8]) is Some <==> k < lane_len(l))
}

/// The events of a lane, oldest first.
pub open spec fn lane_view(l: Lane) -> Seq<TransjectorEvent> {
    Seq::new(lane_len(l), |k: int| l.buf@[(l.head as int + k) % 8]->0)
}

pub open spec fn empty_trace() -> TraceRecord {
    TraceRecord { tick: 0, lane: 0, out_id: 0, in_id: 0, cur: 0, incoming: 0, result: 2 }
}

impl Bus {
    pub open spec fn wf(&self) -> bool {
        &&& self.next_lane < 4
        &&& forall|i: int| 0 <= i < 4 ==> lane_wf(#[trigger] self.lanes@[i])
    }

    /// The events waiting on each lane.
    pub open spec fn lanes_view(&self) -> Seq<Seq<TransjectorEvent>> {
        Seq::new(4, |i: int| lane_view(self.lanes@[i]))
    }

    pub fn new() -> (b: Self)
        ensures
            b.wf(),
            b.lanes_view() == Seq::new(4, |i: int| Seq::<TransjectorEvent>::empty()),
            b.next_lane == 0,
            b.trace_tick == 0,
            b.trace_last == empty_trace(),
    {
        let l = Lane { buf: [None; 8], head: 0, tail: 0 };
        let b = Bus {
            lanes: [l; 4],
            next_lane: 0,
            trace_tick: 0,
            trace_last: TraceRecord { tick: 0, lane: 0, out_id: 0, in_id: 0, cur: 0, incoming: 0, result: 2 },
        };
        assert(forall|k: int| 0 <= k < 8 ==> (#[trigger] l.buf@[(l.head as int + k) % 8]) is None);
        assert(l.buf@[0] is None);
        assert(lane_view(l) =~= Seq::<TransjectorEvent>::empty());
        assert(forall|i: int| 0 <= i < 4 ==> b.lanes@[i] == l);
        assert(b.lanes_view() =~= Seq::new(4, |i: int| Seq::<TransjectorEvent>::empty()));
        b
    }
}

pub fn transject(id: u64, lane: u8, raw: u64) -> (t: Transjector)
    ensures
        t.id == id,
        t.lane == lane,
        quad_bits(t.state) == spec_state_of_raw(raw),
        t.state == QuadReg::of(spec_state_of_raw(raw)),
{
    Transjector { id, lane, state: quad_of_raw(raw) }
}

/// Writes the transjector's state to the transvector `out_id`.
pub fn apply(reg: &mut Registry, out_id: u64, t: Transjector) -> (ok: bool)
    ensures
        ok == (first_with_id(old(reg).slots@, out_id, 0) != -1),
        final(reg).slots@ == spec_write(old(reg).slots@, out_id, t.state),
{
    write_by_id(reg, out_id, t.state)
}

/// Masking with 3 or 7 keeps the remainder modulo 4 or 8.
pub proof fn lemma_mask_u8(x: u8)
    ensures
        x & 3 == x % 4,
        x & 7 == x % 8,
{
    assert(x & 3 == x % 4) by (bit_vector);
    assert(x & 7 == x % 8) by (bit_vector);
}

/// Masking with 3 or 7 keeps the remainder modulo 4 or 8.
pub proof fn lemma_mask_usize(x: usize)
    ensures
        x & 3 == x % 4,
        x & 7 == x % 8,
{
    assert(x & 3 == x % 4) by (bit_vector);
    assert(x & 7 == x % 8) by (bit_vector);
}

fn lane_is_empty(l: &Lane) -> (r: bool)
    requires
        lane_wf(*l),
    ensures
        r == (lane_len(*l) == 0),
{
    l.head == l.tail && l.buf[l.head as usize].is_none()
}

fn lane_is_full(l: &Lane) -> (r: bool)
    requires
        lane_wf(*l),
    ensures
        r == (lane_len(*l) == 8),
{
    l.head == l.tail && l.buf[l.head as usize].is_some()
}

proof fn lemma_lane_push(l: Lane, l2: Lane, ev: TransjectorEvent)
    requires
        lane_wf(l),
        lane_len(l) < 8,
        l2.head == l.head,
        l2.tail as int == (l.tail as int + 1) % 8,
        l2.buf@ == l.buf@.update(l.tail as int, Some(ev)),
    ensures
        lane_wf(l2),
        lane_view(l2) == lane_view(l).push(ev),
{
    let n = lane_len(l);
    assert(lane_len(l2) == n + 1) by {
        if l2.head == l2.tail {
            assert(n == 7);
            assert(l2.buf@[l2.head as int] is Some) by {
                assert(l.buf@[(l.head as int + 0) % 8] is Some);
            }
        }
    }
    assert forall|k: int| 0 <= k < 8 implies ((#[trigger] l2.buf@[(l2.head as int + k) % 8]) is Some <==> k < lane_len(l2)) by {
        if (l.head as int + k) % 8 == l.tail as int {
            assert(k == n);
        } else {
            assert(l.buf@[(l.head as int + k) % 8] is Some <==> k < n);
        }
    }
    assert(lane_view(l2) =~= lane_view(l).push(ev)) by {
        assert forall|k: int| 0 <= k < n implies lane_view(l2)[k] == lane_view(l)[k] by {
            assert((l.head as int + k) % 8 != l.tail as int);
        }
    }
}

proof fn lemma_lane_pop(l: Lane, l2: Lane)
    requires
        lane_wf(l),
        lane_len(l) > 0,
        l2.tail == l.tail,
        l2.head as int == (l.head as int + 1) % 8,
        l2.buf@ == l.buf@.update(l.head as int, None),
    ensures
        lane_wf(l2),
        lane_view(l2) == lane_view(l).drop_first(),
        l.buf@[l.head as int] == Some(lane_view(l)[0]),
{
    let n = lane_len(l);
    assert(l.buf@[(l.head as int + 0) % 8] is Some);
    assert(lane_len(l2) == n - 1) by {
        if l2.head == l2.tail {
            assert(n == 1);
            assert(l2.buf@[l2.head as int] is None) by {
                assert(l.buf@[(l.head as int + 1) % 8] is None);
            }
        } else {
            assert(l.head != l.tail || n == 8);
        }
    }
    assert forall|k: int| 0 <= k < 8 implies ((#[trigger] l2.buf@[(l2.head as int + k) % 8]) is Some <==> k < lane_len(l2)) by {
        let p = (l2.head as int + k) % 8;
        if p == l.head as int {
            assert(k == 7);
        } else {
            assert(p == (l.head as int + (k + 1)) % 8);
            if k + 1 < 8 {
                assert(l.buf@[(l.head as int + (k + 1)) % 8] is Some <==> k + 1 < n);
            }
        }
    }
    assert(lane_view(l2) =~= lane_view(l).drop_first()) by {
        assert forall|k: int| 0 <= k < n - 1 implies lane_view(l2)[k] == lane_view(l)[k + 1] by {
            assert((l2.head as int + k) % 8 == (l.head as int + (k + 1)) % 8);
        }
    }
}

/// Appends `ev` to lane `lane`; refused when the lane id is out of range
/// or the lane is full.
pub fn bus_push(bus: &mut Bus, lane: u8, ev: TransjectorEvent) -> (ok: bool)
    requires
        old(bus).wf(),
    ensures
        final(bus).wf(),
        ok == (lane < 4 && old(bus).lanes_view()[lane as int].len() < 8),
        ok ==> final(bus).lanes_view() == old(bus).lanes_view().update(lane as int, old(bus).lanes_view()[lane as int].push(ev)),
        !ok ==> final(bus).lanes_view() == old(bus).lanes_view(),
        final(bus).next_lane == old(bus).next_lane,
        final(bus).trace_tick == old(bus).trace_tick,
        final(bus).trace_last == old(bus).trace_last,
{
    if lane >= 4 {
        return false;
    }
    let li = lane as usize;
    let l = bus.lanes[li];
    if lane_is_full(&l) {
        return false;
    }
    let mut l2 = l;
    l2.buf[l.tail as usize] = Some(ev);
    let t1 = l.tail + 1;
    proof { lemma_mask_u8(t1); }
    l2.tail = t1 & 7;
    proof { lemma_lane_push(l, l2, ev); }
    bus.lanes[li] = l2;
    assert(final(bus).lanes_view() =~= old(bus).lanes_view().update(lane as int, old(bus).lanes_view()[lane as int].push(ev)));
    true
}

fn lane_pop(bus: &mut Bus, idx: usize) -> (r: Option<TransjectorEvent>)
    requires
        old(bus).wf(),
        idx < 4,
    ensures
        final(bus).wf(),
        old(bus).lanes_view()[idx as int].len() == 0 ==> r is None && final(bus).lanes_view() == old(bus).lanes_view(),
        old(bus).lanes_view()[idx as int].len() > 0 ==> r == Some(old(bus).lanes_view()[idx as int][0])
            && final(bus).lanes_view() == old(bus).lanes_view().update(idx as int, old(bus).lanes_view()[idx as int].drop_first()),
        final(bus).next_lane == old(bus).next_lane,
        final(bus).trace_tick == old(bus).trace_tick,
        final(bus).trace_last == old(bus).trace_last,
{
    let l = bus.lanes[idx];
    if lane_is_empty(&l) {
        return None;
    }
    let mut l2 = l;
    let out = l.buf[l.head as usize];
    l2.buf[l.head as usize] = None;
    let h1 = l.head + 1;
    proof { lemma_mask_u8(h1); }
    l2.head = h1 & 7;
    proof { lemma_lane_pop(l, l2); }
    bus.lanes[idx] = l2;
    assert(final(bus).lanes_view() =~= old(bus).lanes_view().update(idx as int, old(bus).lanes_view()[idx as int].drop_first()));
    out
}

/// The lane reached `j` steps after `start` in round-robin order.
pub open spec fn rr_lane(lanes: Seq<Seq<TransjectorEvent>>, start: int, j: int) -> Seq<TransjectorEvent> {
    lanes[(start + j) % 4]
}

/// Offset (0..3) of the first non-empty lane when scanning round-robin from
/// `start`, or 4 when every lane is empty.
pub open spec fn rr_offset(lanes: Seq<Seq<TransjectorEvent>>, start: int, off: nat) -> nat
    decreases 4 - off,
{
    if off >= 4 {
        4
    } else if rr_lane(lanes, start, off as int).len() > 0 {
        off
    } else {
        rr_offset(lanes, start, off + 1)
    }
}

proof fn lemma_rr_offset(lanes: Seq<Seq<TransjectorEvent>>, start: int, off: nat)
    requires
        off <= 4,
    ensures
        off <= rr_offset(lanes, start, off) <= 4,
        rr_offset(lanes, start, off) < 4 ==> rr_lane(lanes, start, rr_offset(lanes, start, off) as int).len() > 0,
        forall|j: int| off <= j < rr_offset(lanes, start, off) ==> (#[trigger] rr_lane(lanes, start, j)).len() == 0,
    decreases 4 - off,
{
    if off < 4 {
        lemma_rr_offset(lanes, start, off + 1);
    }
}

/// The bus after a round-robin pop and the popped (lane, event), if any.
pub open spec fn spec_pop_rr(lanes: Seq<Seq<TransjectorEvent>>, next_lane: u8)
    -> (Seq<Seq<TransjectorEvent>>, u8, Option<(u8, TransjectorEvent)>)
{
    let off = rr_offset(lanes, next_lane as int, 0);
    if off == 4 {
        (lanes, ((next_lane + 1) % 4) as u8, None)
    } else {
        let idx = (next_lane + off) % 4;
        (lanes.update(idx, lanes[idx].drop_first()), ((idx + 1) % 4) as u8, Some((idx as u8, lanes[idx][0])))
    }
}

fn pop_next_event_rr(bus: &mut Bus) -> (r: Option<(u8, TransjectorEvent)>)
    requires
        old(bus).wf(),
    ensures
        final(bus).wf(),
        final(bus).lanes_view() == spec_pop_rr(old(bus).lanes_view(), old(bus).next_lane).0,
        final(bus).next_lane == spec_pop_rr(old(bus).lanes_view(), old(bus).next_lane).1,
        r == spec_pop_rr(old(bus).lanes_view(), old(bus).next_lane).2,
        final(bus).trace_tick == old(bus).trace_tick,
        final(bus).trace_last == old(bus).trace_last,
{
    let start = bus.next_lane as usize;
    let mut off: usize = 0;
    proof { lemma_rr_offset(bus.lanes_view(), start as int, 0); }
    while off < 4
        invariant
            off <= 4,
            start == old(bus).next_lane,
            start < 4,
            bus.lanes_view() == old(bus).lanes_view(),
            bus.next_lane == old(bus).next_lane,
            bus.trace_tick == old(bus).trace_tick,
            bus.trace_last == old(bus).trace_last,
            bus.wf(),
            forall|j: int| 0 <= j < off ==> (#[trigger] rr_lane(bus.lanes_view(), start as int, j)).len() == 0,
            rr_offset(bus.lanes_view(), start as int, 0) == rr_offset(bus.lanes_view(), start as int, off as nat),
        decreases 4 - off,
    {
        let so = start + off;
        proof { lemma_mask_usize(so); }
        let idx = so & 3;
        let popped = lane_pop(bus, idx);
        if let Some(ev) = popped {
            assert(rr_offset(old(bus).lanes_view(), start as int, off as nat) == off);
            let i1 = idx + 1;
            proof { lemma_mask_usize(i1); }
            bus.next_lane = (i1 & 3) as u8;
            return Some((idx as u8, ev));
        }
        off += 1;
    }
    let nl1 = bus.next_lane + 1;
    proof { lemma_mask_u8(nl1); }
    bus.next_lane = nl1 & 3;
    None
}

/// Pops the next event round-robin and applies it unconditionally.
pub fn bus_step(bus: &mut Bus, reg: &mut Registry) -> (r: Option<TransjectorEvent>)
    requires
        old(bus).wf(),
    ensures
        final(bus).wf(),
        final(bus).lanes_view() == spec_pop_rr(old(bus).lanes_view(), old(bus).next_lane).0,
        final(bus).next_lane == spec_pop_rr(old(bus).lanes_view(), old(bus).next_lane).1,
        match spec_pop_rr(old(bus).lanes_view(), old(bus).next_lane).2 {
            Some((_, ev)) => r == Some(ev) && final(reg).slots@ == spec_write(old(reg).slots@, ev.out_id, ev.t.state),
            None => r is None && final(reg).slots@ == old(reg).slots@,
        },
        final(bus).trace_tick == old(bus).trace_tick,
        final(bus).trace_last == old(bus).trace_last,
{
    if let Some((_, ev)) = pop_next_event_rr(bus) {
        let _ = apply(reg, ev.out_id, ev.t);
        return Some(ev);
    }
    None
}

/// Whether a transition from the current quad value to the incoming one is
/// one that the transition rule accepts.
pub open spec fn spec_allow(cur: u8, incoming: u8) -> bool {
    if cur == 0 {
        true
    } else if cur == 1 {
        incoming == 0 || incoming == 2
    } else if cur == 2 {
        incoming == 0 || incoming == 1
    } else {
        incoming == 3
    }
}

pub fn allow(cur: u8, incoming: u8) -> (r: bool)
    requires
        cur < 4,
        incoming < 4,
    ensures
        r == spec_allow(cur, incoming),
{
    if cur == 0 {
        true
    } else if cur == 1 {
        incoming == 0 || incoming == 2
    } else if cur == 2 {
        incoming == 0 || incoming == 1
    } else {
        incoming == 3
    }
}

/// The quad value currently held by transvector `id` (N when missing).
pub open spec fn spec_cur_bits(slots: Seq<Option<Transvector>>, id: u64) -> u8 {
    match spec_read(slots, id) {
        Some(tv) => quad_bits(tv.state),
        None => 0,
    }
}

fn write_trace(bus: &mut Bus, lane: u8, out_id: u64, in_id: u64, cur: u8, incoming: u8, result: u8)
    ensures
        final(bus).lanes == old(bus).lanes,
        final(bus).next_lane == old(bus).next_lane,
        final(bus).trace_tick == old(bus).trace_tick.wrapping_add(1),
        final(bus).trace_last == (TraceRecord {
            tick: old(bus).trace_tick.wrapping_add(1), lane, out_id, in_id, cur, incoming, result }),
{
    bus.trace_tick = bus.trace_tick.wrapping_add(1);
    bus.trace_last = TraceRecord { tick: bus.trace_tick, lane, out_id, in_id, cur, incoming, result };
}

/// One gated bus step: pop the next event round-robin; apply it only when
/// the transition rule accepts the change from the target's current value; record
/// the outcome in the trace.
pub fn bus_step_gated(bus: &mut Bus, reg: &mut Registry) -> (r: StepResult)
    requires
        old(bus).wf(),
    ensures
        final(bus).wf(),
        final(bus).lanes_view() == spec_pop_rr(old(bus).lanes_view(), old(bus).next_lane).0,
        final(bus).next_lane == spec_pop_rr(old(bus).lanes_view(), old(bus).next_lane).1,
        final(bus).trace_tick == old(bus).trace_tick.wrapping_add(1),
        match spec_pop_rr(old(bus).lanes_view(), old(bus).next_lane).2 {
            None => {
                &&& r == StepResult::Empty
                &&& final(reg).slots@ == old(reg).slots@
                &&& final(bus).trace_last == (TraceRecord { tick: final(bus).trace_tick, ..empty_trace() })
            },
            Some((lane, ev)) => {
                let cur = spec_cur_bits(old(reg).slots@, ev.out_id);
                let inc = quad_bits(ev.t.state);
                &&& spec_allow(cur, inc) ==> r == StepResult::Applied
                    && final(reg).slots@ == spec_write(old(reg).slots@, ev.out_id, ev.t.state)
                &&& !spec_allow(cur, inc) ==> r == StepResult::Blocked && final(reg).slots@ == old(reg).slots@
                &&& final(bus).trace_last == (TraceRecord {
                    tick: final(bus).trace_tick, lane, out_id: ev.out_id, in_id: ev.t.id, cur, incoming: inc,
                    result: if spec_allow(cur, inc) { 0 } else { 1 } })
            },
        },
{
    let popped = pop_next_event_rr(bus);
    match popped {
        None => {
            write_trace(bus, 0, 0, 0, 0, 0, 2);
            StepResult::Empty
        },
        Some((lane, ev)) => {
            let cur_bits = match read_by_id(reg, ev.out_id) {
                Some(tv) => tv.state.bits(),
                None => QuadReg::n().bits(),
            };
            let incoming_bits = ev.t.state.bits();
            if allow(cur_bits, incoming_bits) {
                let _ = apply(reg, ev.out_id, ev.t);
                write_trace(bus, lane, ev.out_id, ev.t.id, cur_bits, incoming_bits, 0);
                StepResult::Applied
            } else {
                write_trace(bus, lane, ev.out_id, ev.t.id, cur_bits, incoming_bits, 1);
                StepResult::Blocked
            }
        },
    }
}

/// The gated step as a function of the bus and registry views: new lanes,
/// next lane, trace tick, trace record, registry slots and step result.
pub open spec fn spec_gated(
    lanes: Seq<Seq<TransjectorEvent>>, next_lane: u8, trace_tick: u32, slots: Seq<Option<Transvector>>,
) -> (Seq<Seq<TransjectorEvent>>, u8, u32, TraceRecord, Seq<Option<Transvector>>, StepResult) {
    let (l2, n2, popped) = spec_pop_rr(lanes, next_lane);
    let t = trace_tick.wrapping_add(1);
    match popped {
        None => (l2, n2, t, TraceRecord { tick: t, ..empty_trace() }, slots, StepResult::Empty),
        Some((lane, ev)) => {
            let cur = spec_cur_bits(slots, ev.out_id);
            let inc = quad_bits(ev.t.state);
            if spec_allow(cur, inc) {
                (l2, n2, t, TraceRecord { tick: t, lane, out_id: ev.out_id, in_id: ev.t.id, cur, incoming: inc, result: 0 },
                    spec_write(slots, ev.out_id, ev.t.state), StepResult::Applied)
            } else {
                (l2, n2, t, TraceRecord { tick: t, lane, out_id: ev.out_id, in_id: ev.t.id, cur, incoming: inc, result: 1 },
                    slots, StepResult::Blocked)
            }
        },
    }
}

/// `bus_step_gated` restated through `spec_gated`.
pub proof fn lemma_gated_matches(
    b0: Seq<Seq<TransjectorEvent>>, n0: u8, t0: u32, s0: Seq<Option<Transvector>>,
    b1: Seq<Seq<TransjectorEvent>>, n1: u8, t1: u32, tr1: TraceRecord, s1: Seq<Option<Transvector>>, r: StepResult,
)
    requires
        b1 == spec_pop_rr(b0, n0).0,
        n1 == spec_pop_rr(b0, n0).1,
        t1 == t0.wrapping_add(1),
        match spec_pop_rr(b0, n0).2 {
            None => {
                &&& r == StepResult::Empty
                &&& s1 == s0
                &&& tr1 == (TraceRecord { tick: t1, ..empty_trace() })
            },
            Some((lane, ev)) => {
                let cur = spec_cur_bits(s0, ev.out_id);
                let inc = quad_bits(ev.t.state);
                &&& spec_allow(cur, inc) ==> r == StepResult::Applied && s1 == spec_write(s0, ev.out_id, ev.t.state)
                &&& !spec_allow(cur, inc) ==> r == StepResult::Blocked && s1 == s0
                &&& tr1 == (TraceRecord {
                    tick: t1, lane, out_id: ev.out_id, in_id: ev.t.id, cur, incoming: inc,
                    result: if spec_allow(cur, inc) { 0 } else { 1 } })
            },
        },
    ensures
        (b1, n1, t1, tr1, s1, r) == spec_gated(b0, n0, t0, s0),
{
}

pub fn trace_last(bus: &Bus) -> (r: TraceRecord)
    ensures
        r == bus.trace_last,
{
    bus.trace_last
}

/// Total number of events waiting on all lanes.
pub open spec fn spec_pending(lanes: Seq<Seq<TransjectorEvent>>) -> nat {
    lanes[0].len() + lanes[1].len() + lanes[2].len() + lanes[3].len()
}

pub fn bus_pending(bus: &Bus) -> (n: u32)
    requires
        bus.wf(),
    ensures
        n == spec_pending(bus.lanes_view()),
{
    let mut n: u32 = 0;
    let mut li: usize = 0;
    while li < 4
        invariant
            li <= 4,
            bus.wf(),
            n == (if li == 0 { 0 } else if li == 1 { bus.lanes_view()[0].len() }
                else if li == 2 { bus.lanes_view()[0].len() + bus.lanes_view()[1].len() }
                else if li == 3 { bus.lanes_view()[0].len() + bus.lanes_view()[1].len() + bus.lanes_view()[2].len() }
                else { spec_pending(bus.lanes_view()) }),
        decreases 4 - li,
    {
        let lane = bus.lanes[li];
        let mut bi: usize = 0;
        let ghost base = n;
        assert(lane_wf(lane));
        assert(lane_view(lane) == bus.lanes_view()[li as int]);
        while bi < 8
            invariant
                bi <= 8,
                lane_wf(lane),
                base <= 24,
                n == base + (if bi < lane_len(lane) { bi as nat } else { lane_len(lane) }),
            decreases 8 - bi,
        {
            let h = lane.head as usize;
            let hb = h + bi;
            proof { lemma_mask_usize(hb); }
            let p = hb & 7;
            if lane.buf[p].is_some() {
                n += 1;
            }
            bi += 1;
        }
        li += 1;
    }
    n
}

// ---------------------------------------------------------------------
// Payload packing: ptype(0..7) | chan(8..15) | id(16..23) | sev(24..27) | flags(28..31)
// ---------------------------------------------------------------------

pub const PTYPE_BUS: u8 = 1;
pub const PTYPE_FAB: u8 = 2;
pub const PTYPE_LOG: u8 = 3;
pub const PTYPE_TIMER: u8 = 4;
pub const TIO_TIMER: u8 = 0;
pub const TIO_BUS_SYS: u8 = 1;
pub const TIO_BUS_RX: u8 = 2;
pub const TIO_BUS_TX: u8 = 3;
pub const TIO_FAB_CTRL: u8 = 4;
pub const TIO_FAB_ALERT: u8 = 5;
pub const TIO_LOG_TELEM: u8 = 6;
pub const TIO_LOG_PANIC: u8 = 7;

/// The packed payload as a number: one byte each for type, channel and id,
/// then four bits each of severity and flags.
pub open spec fn spec_pack(ptype: u8, chan: u8, id: u8, sev: u8, flags: u8) -> u32 {
    (ptype as int + chan as int * 0x100 + id as int * 0x1_0000 + (sev % 16) as int * 0x100_0000
        + (flags % 16) as int * 0x1000_0000) as u32
}

pub fn pack_payload(ptype: u8, chan: u8, id: u8, sev: u8, flags: u8) -> (r: u32)
    ensures
        r == spec_pack(ptype, chan, id, sev, flags),
{
    let p = ptype as u32;
    let c = chan as u32;
    let i = id as u32;
    let sv = (sev & 0x0F) as u32;
    let f = (flags & 0x0F) as u32;
    assert(sev & 0x0F == sev % 16) by (bit_vector);
    assert(flags & 0x0F == flags % 16) by (bit_vector);
    let r = p | (c << 8) | (i << 16) | (sv << 24) | (f << 28);
    assert(r == p + c * 0x100 + i * 0x1_0000 + sv * 0x100_0000 + f * 0x1000_0000) by (bit_vector)
        requires
            p < 256, c < 256, i < 256, sv < 16, f < 16,
            r == p | (c << 8) | (i << 16) | (sv << 24) | (f << 28);
    r
}

/// Channel field of a payload.
pub open spec fn spec_chan(payload: u32) -> u8 {
    (payload / 0x100 % 0x100) as u8
}

/// Replaces the channel field, keeping every other bit.
pub fn payload_set_chan(payload: u32, chan: u8) -> (r: u32)
    ensures
        spec_chan(r) == chan,
        r % 0x100 == payload % 0x100,
        r / 0x1_0000 == payload / 0x1_0000,
{
    let c = chan as u32;
    let r = (payload & !(0xFFu32 << 8)) | (c << 8);
    assert(r / 0x100 % 0x100 == c && r % 0x100 == payload % 0x100 && r / 0x1_0000 == payload / 0x1_0000) by (bit_vector)
        requires
            c < 256,
            r == (payload & !(0xFFu32 << 8)) | (c << 8);
    r
}

pub fn payload_get_chan(payload: u32) -> (r: u8)
    ensures
        r == spec_chan(payload),
{
    let r = (payload >> 8) & 0xFF;
    assert(r == payload / 0x100 % 0x100) by (bit_vector)
        requires r == (payload >> 8) & 0xFF;
    r as u8
}

/// Setting a payload's channel to the channel it already has changes nothing.
pub proof fn lemma_set_same_chan(payload: u32, r: u32)
    requires
        spec_chan(r) == spec_chan(payload),
        r % 0x100 == payload % 0x100,
        r / 0x1_0000 == payload / 0x1_0000,
    ensures
        r == payload,
{
    assert(r == payload) by (bit_vector)
        requires
            r / 0x100 % 0x100 == payload / 0x100 % 0x100,
            r % 0x100 == payload % 0x100,
            r / 0x1_0000 == payload / 0x1_0000;
}

/// A packed payload's channel field is the channel packed into it.
pub proof fn lemma_pack_chan(ptype: u8, chan: u8, id: u8, sev: u8, flags: u8)
    ensures
        spec_chan(spec_pack(ptype, chan, id, sev, flags)) == chan,
{
    let p = ptype as u32;
    let c = chan as u32;
    let i = id as u32;
    let sv = (sev % 16) as u32;
    let f = (flags % 16) as u32;
    let r = spec_pack(ptype, chan, id, sev, flags);
    assert(r == p + c * 0x100 + i * 0x1_0000 + sv * 0x100_0000 + f * 0x1000_0000);
    assert((p + c * 0x100 + i * 0x1_0000 + sv * 0x100_0000 + f * 0x1000_0000) / 0x100 % 0x100 == c) by (bit_vector)
        requires p < 256, c < 256, i < 256, sv < 16, f < 16;
}

/// Bit of a raw event kind in a registration's kind mask (kinds 1..31).
pub open spec fn spec_raw_kind_bit(kind: u8) -> u32 {
    if kind == 0 || kind > 31 { 0 } else { 1u32 << ((kind - 1) as u32) }
}

pub fn raw_kind_bit(kind: u8) -> (r: u32)
    ensures
        r == spec_raw_kind_bit(kind),
{
    if kind == 0 || kind > 31 {
        0
    } else {
        1u32 << ((kind - 1) as u32)
    }
}

/// The raw event that a software-interrupt bit stands for.
pub open spec fn spec_softirq_code(bit: u32) -> Option<u16> {
    if bit == SOFTIRQ_BUS { Some(RAWC_SOFTIRQ_BUS) }
    else if bit == SOFTIRQ_FABRIC { Some(RAWC_SOFTIRQ_FABRIC) }
    else if bit == SOFTIRQ_LOG { Some(RAWC_SOFTIRQ_LOG) }
    else if bit == SOFTIRQ_SCHED { Some(RAWC_SOFTIRQ_TIMER) }
    else { None }
}

pub fn make_softirq_raw(src: u8, softirq_mask_bit: u32) -> (r: Option<RawEvent>)
    ensures
        match spec_softirq_code(softirq_mask_bit) {
            Some(code) => r == Some(RawEvent { src, kind: RAW_SOFTIRQ, code, arg: 0 }),
            None => r is None,
        },
{
    let code = if softirq_mask_bit == SOFTIRQ_BUS {
        RAWC_SOFTIRQ_BUS
    } else if softirq_mask_bit == SOFTIRQ_FABRIC {
        RAWC_SOFTIRQ_FABRIC
    } else if softirq_mask_bit == SOFTIRQ_LOG {
        RAWC_SOFTIRQ_LOG
    } else if softirq_mask_bit == SOFTIRQ_SCHED {
        RAWC_SOFTIRQ_TIMER
    } else {
        return None;
    };
    Some(RawEvent { src, kind: RAW_SOFTIRQ, code, arg: 0 })
}

/// The semantic event each ingest routine makes of a raw event, if any.
pub open spec fn spec_ingest(which: TxIngest, raw: RawEvent) -> Option<VectorEvent> {
    let id = (raw.arg % 0x100) as u8;
    let flags = (raw.arg / 0x1000_0000) as u8;
    match which {
        TxIngest::Timer => {
            if (raw.kind == RAW_SOFTIRQ && raw.code == RAWC_SOFTIRQ_TIMER) || (raw.kind == RAW_IRQ && raw.code == RAWC_IRQ_GRP_TIMER) {
                Some(VectorEvent { evt_mask: EVT_TIMER, src_id: raw.src, payload: spec_pack(PTYPE_TIMER, TIO_TIMER, 0, 1, 0) })
            } else { None }
        },
        TxIngest::Fabric => {
            if raw.kind == RAW_MMIO && raw.code == RAWC_MMIO_FAB_ALERT {
                Some(VectorEvent { evt_mask: EVT_FAB, src_id: raw.src, payload: spec_pack(PTYPE_FAB, TIO_FAB_ALERT, id, 4, flags) })
            } else if (raw.kind == RAW_SOFTIRQ && raw.code == RAWC_SOFTIRQ_FABRIC) || (raw.kind == RAW_IRQ && raw.code == RAWC_IRQ_GRP_FAB) {
                Some(VectorEvent { evt_mask: EVT_FAB, src_id: raw.src, payload: spec_pack(PTYPE_FAB, TIO_FAB_CTRL, id, 1, flags) })
            } else { None }
        },
        TxIngest::Bus => {
            let chan: Option<u8> = if (raw.kind == RAW_SOFTIRQ && raw.code == RAWC_SOFTIRQ_BUS) || (raw.kind == RAW_IRQ && raw.code == RAWC_IRQ_GRP_BUS) {
                Some(TIO_BUS_SYS)
            } else if raw.kind == RAW_MMIO && raw.code == RAWC_MMIO_BUS_RX {
                Some(TIO_BUS_RX)
            } else if raw.kind == RAW_MMIO && raw.code == RAWC_MMIO_BUS_TX {
                Some(TIO_BUS_TX)
            } else { None };
            match chan {
                Some(c) => Some(VectorEvent { evt_mask: EVT_BUS, src_id: raw.src, payload: spec_pack(PTYPE_BUS, c, id, 1, flags) }),
                None => None,
            }
        },
        TxIngest::Log => {
            if (raw.kind == RAW_SOFTIRQ && raw.code == RAWC_SOFTIRQ_LOG) || (raw.kind == RAW_INTERNAL && raw.code == RAWC_INTERNAL_LOG_FLUSH) {
                Some(VectorEvent { evt_mask: EVT_LOG, src_id: raw.src, payload: spec_pack(PTYPE_LOG, TIO_LOG_TELEM, id, 1, flags) })
            } else if raw.kind == RAW_INTERNAL && raw.code == RAWC_INTERNAL_PANIC {
                Some(VectorEvent { evt_mask: EVT_LOG, src_id: raw.src, payload: spec_pack(PTYPE_LOG, TIO_LOG_PANIC, id, 4, flags) })
            } else { None }
        },
    }
}

/// Packs and then (re)sets the channel field, as every ingest routine does.
fn packed_with_chan(ptype: u8, chan: u8, id: u8, sev: u8, flags: u8) -> (r: u32)
    ensures
        r == spec_pack(ptype, chan, id, sev, flags),
{
    let p = pack_payload(ptype, chan, id, sev, flags);
    let r = payload_set_chan(p, chan);
    proof {
        lemma_pack_chan(ptype, chan, id, sev, flags);
        lemma_set_same_chan(p, r);
    }
    r
}

fn arg_id(arg: u32) -> (r: u8)
    ensures
        r == (arg % 0x100) as u8,
{
    let a = arg & 0xFF;
    assert(a == arg % 0x100) by (bit_vector) requires a == arg & 0xFF;
    a as u8
}

fn arg_flags(arg: u32) -> (r: u8)
    ensures
        r == (arg / 0x1000_0000) as u8,
{
    let f = arg >> 28;
    assert(f == arg / 0x1000_0000) by (bit_vector) requires f == arg >> 28;
    f as u8
}

fn tx_ingest_timer(raw: RawEvent) -> (r: Option<VectorEvent>)
    ensures
        r == spec_ingest(TxIngest::Timer, raw),
{
    let ok = (raw.kind == RAW_SOFTIRQ && raw.code == RAWC_SOFTIRQ_TIMER)
        || (raw.kind == RAW_IRQ && raw.code == RAWC_IRQ_GRP_TIMER);
    if !ok {
        return None;
    }
    let payload = packed_with_chan(PTYPE_TIMER, TIO_TIMER, 0, 1, 0);
    Some(VectorEvent { evt_mask: EVT_TIMER, src_id: raw.src, payload })
}

fn tx_ingest_fabric(raw: RawEvent) -> (r: Option<VectorEvent>)
    ensures
        r == spec_ingest(TxIngest::Fabric, raw),
{
    let (chan, sev) = if raw.kind == RAW_MMIO && raw.code == RAWC_MMIO_FAB_ALERT {
        (TIO_FAB_ALERT, 4u8)
    } else if (raw.kind == RAW_SOFTIRQ && raw.code == RAWC_SOFTIRQ_FABRIC)
        || (raw.kind == RAW_IRQ && raw.code == RAWC_IRQ_GRP_FAB)
    {
        (TIO_FAB_CTRL, 1u8)
    } else {
        return None;
    };
    let payload = packed_with_chan(PTYPE_FAB, chan, arg_id(raw.arg), sev, arg_flags(raw.arg));
    Some(VectorEvent { evt_mask: EVT_FAB, src_id: raw.src, payload })
}

fn tx_ingest_bus(raw: RawEvent) -> (r: Option<VectorEvent>)
    ensures
        r == spec_ingest(TxIngest::Bus, raw),
{
    let chan = if raw.kind == RAW_SOFTIRQ && raw.code == RAWC_SOFTIRQ_BUS {
        TIO_BUS_SYS
    } else if raw.kind == RAW_IRQ && raw.code == RAWC_IRQ_GRP_BUS {
        TIO_BUS_SYS
    } else if raw.kind == RAW_MMIO && raw.code == RAWC_MMIO_BUS_RX {
        TIO_BUS_RX
    } else if raw.kind == RAW_MMIO && raw.code == RAWC_MMIO_BUS_TX {
        TIO_BUS_TX
    } else {
        return None;
    };
    let payload = packed_with_chan(PTYPE_BUS, chan, arg_id(raw.arg), 1, arg_flags(raw.arg));
    Some(VectorEvent { evt_mask: EVT_BUS, src_id: raw.src, payload })
}

fn tx_ingest_log(raw: RawEvent) -> (r: Option<VectorEvent>)
    ensures
        r == spec_ingest(TxIngest::Log, raw),
{
    let (chan, sev) = if raw.kind == RAW_SOFTIRQ && raw.code == RAWC_SOFTIRQ_LOG {
        (TIO_LOG_TELEM, 1u8)
    } else if raw.kind == RAW_INTERNAL && raw.code == RAWC_INTERNAL_LOG_FLUSH {
        (TIO_LOG_TELEM, 1u8)
    } else if raw.kind == RAW_INTERNAL && raw.code == RAWC_INTERNAL_PANIC {
        (TIO_LOG_PANIC, 4u8)
    } else {
        return None;
    };
    let payload = packed_with_chan(PTYPE_LOG, chan, arg_id(raw.arg), sev, arg_flags(raw.arg));
    Some(VectorEvent { evt_mask: EVT_LOG, src_id: raw.src, payload })
}

fn run_ingest(which: TxIngest, raw: RawEvent) -> (r: Option<VectorEvent>)
    ensures
        r == spec_ingest(which, raw),
{
    match which {
        TxIngest::Timer => tx_ingest_timer(raw),
        TxIngest::Fabric => tx_ingest_fabric(raw),
        TxIngest::Bus => tx_ingest_bus(raw),
        TxIngest::Log => tx_ingest_log(raw),
    }
}

// ---------------------------------------------------------------------
// Transjector registrations on the kernel state
// ---------------------------------------------------------------------

pub open spec fn spec_tx_register(
    v: KernelView, slot: int, tid: u8, raw_kind_mask: u32, interest_mask: u32, ingest: TxIngest,
) -> KernelView {
    if slot < 0 || slot >= MAX_TX {
        v
    } else {
        KernelView {
            tx_used: v.tx_used.update(slot, true),
            tx_enabled: v.tx_enabled.update(slot, true),
            tx_tid: v.tx_tid.update(slot, tid),
            tx_raw_kind_mask: v.tx_raw_kind_mask.update(slot, raw_kind_mask),
            tx_interest_mask: v.tx_interest_mask.update(slot, interest_mask),
            tx_ingest: v.tx_ingest.update(slot, Some(ingest)),
            tx_count: if slot >= v.tx_count { (slot + 1) as u8 } else { v.tx_count },
            log: v.log.push(LogRecord::TxReg { tid, slot: slot as u8, interest: interest_mask, rawk: raw_kind_mask }),
            ..v
        }
    }
}

pub fn tx_register(
    state: &mut KernelState, slot: usize, tid: u8, raw_kind_mask: u32, interest_mask: u32, ingest_fn: TxIngest,
) -> (ok: bool)
    requires
        old(state).wf(),
    ensures
        final(state).wf(),
        ok == (slot < MAX_TX),
        final(state)@ == spec_tx_register(old(state)@, slot as int, tid, raw_kind_mask, interest_mask, ingest_fn),
{
    if slot >= MAX_TX {
        return false;
    }
    state.tx_used[slot] = true;
    state.tx_enabled[slot] = true;
    state.tx_tid[slot] = tid;
    state.tx_raw_kind_mask[slot] = raw_kind_mask;
    state.tx_interest_mask[slot] = interest_mask;
    state.tx_ingest[slot] = Some(ingest_fn);
    if (slot as u8) >= state.tx_count {
        state.tx_count = slot as u8 + 1;
    }
    log_push(state, LogRecord::TxReg { tid, slot: slot as u8, interest: interest_mask, rawk: raw_kind_mask });
    true
}

/// Index of the first registration before `n` that is in use for `tid`, or -1.
pub open spec fn spec_find_tid(v: KernelView, tid: u8, i: nat) -> int
    decreases v.tx_count - i,
{
    if i >= v.tx_count {
        -1
    } else if v.tx_used[i as int] && v.tx_tid[i as int] == tid {
        i as int
    } else {
        spec_find_tid(v, tid, i + 1)
    }
}

proof fn lemma_find_tid(v: KernelView, tid: u8, i: nat)
    ensures
        spec_find_tid(v, tid, i) == -1 || (i <= spec_find_tid(v, tid, i) < v.tx_count),
        spec_find_tid(v, tid, i) != -1 ==> v.tx_used[spec_find_tid(v, tid, i)] && v.tx_tid[spec_find_tid(v, tid, i)] == tid,
    decreases v.tx_count - i,
{
    if i < v.tx_count {
        lemma_find_tid(v, tid, i + 1);
    }
}

pub open spec fn spec_tx_set_enabled(v: KernelView, tid: u8, enabled: bool) -> KernelView {
    let r = spec_find_tid(v, tid, 0);
    if r == -1 { v } else { KernelView { tx_enabled: v.tx_enabled.update(r, enabled), ..v } }
}

pub fn tx_set_enabled(state: &mut KernelState, tid: u8, enabled: bool) -> (ok: bool)
    requires
        old(state).wf(),
    ensures
        final(state).wf(),
        ok == (spec_find_tid(old(state)@, tid, 0) != -1),
        final(state)@ == spec_tx_set_enabled(old(state)@, tid, enabled),
{
    let mut i: usize = 0;
    while i < state.tx_count as usize
        invariant
            state.wf(),
            *state == *old(state),
            old(state).wf(),
            spec_find_tid(state@, tid, 0) == spec_find_tid(state@, tid, i as nat),
        decreases state.tx_count as usize - i,
    {
        if state.tx_used[i] && state.tx_tid[i] == tid {
            state.tx_enabled[i] = enabled;
            proof { assert(state@.evq =~= old(state)@.evq); }
            return true;
        }
        i += 1;
    }
    false
}

pub open spec fn spec_tx_init_defaults(v: KernelView) -> KernelView {
    if v.tx_count != 0 {
        v
    } else {
        let v1 = spec_tx_register(v, 0, 1, spec_raw_kind_bit(RAW_INTERNAL) | spec_raw_kind_bit(RAW_IRQ), EVT_TIMER, TxIngest::Timer);
        let v2 = spec_tx_register(v1, 1, 2, spec_raw_kind_bit(RAW_SOFTIRQ) | spec_raw_kind_bit(RAW_IRQ) | spec_raw_kind_bit(RAW_MMIO),
            EVT_FAB, TxIngest::Fabric);
        let v3 = spec_tx_register(v2, 2, 3, spec_raw_kind_bit(RAW_SOFTIRQ) | spec_raw_kind_bit(RAW_IRQ) | spec_raw_kind_bit(RAW_MMIO),
            EVT_BUS, TxIngest::Bus);
        spec_tx_register(v3, 3, 4, spec_raw_kind_bit(RAW_INTERNAL) | spec_raw_kind_bit(RAW_SOFTIRQ), EVT_LOG, TxIngest::Log)
    }
}

/// Registers the four default transjectors (timer, fabric, bus, log) in
/// slots 0..3, unless some transjector is already registered.
pub fn tx_init_defaults(state: &mut KernelState)
    requires
        old(state).wf(),
    ensures
        final(state).wf(),
        final(state)@ == spec_tx_init_defaults(old(state)@),
{
    if state.tx_count != 0 {
        return;
    }
    let _ = tx_register(state, 0, 1, raw_kind_bit(RAW_INTERNAL) | raw_kind_bit(RAW_IRQ), EVT_TIMER, TxIngest::Timer);
    let _ = tx_register(state, 1, 2, raw_kind_bit(RAW_SOFTIRQ) | raw_kind_bit(RAW_IRQ) | raw_kind_bit(RAW_MMIO),
        EVT_FAB, TxIngest::Fabric);
    let _ = tx_register(state, 2, 3, raw_kind_bit(RAW_SOFTIRQ) | raw_kind_bit(RAW_IRQ) | raw_kind_bit(RAW_MMIO),
        EVT_BUS, TxIngest::Bus);
    let _ = tx_register(state, 3, 4, raw_kind_bit(RAW_INTERNAL) | raw_kind_bit(RAW_SOFTIRQ), EVT_LOG, TxIngest::Log);
}

/// The first registration at or after `i` that is in use, enabled, accepts
/// the raw kind and whose ingest routine produces an event, with that event.
pub open spec fn spec_tx_scan(v: KernelView, raw: RawEvent, i: nat) -> Option<(u8, VectorEvent)>
    decreases v.tx_count - i,
{
    if i >= v.tx_count {
        None
    } else {
        let hit = if v.tx_used[i as int] && v.tx_enabled[i as int]
            && (v.tx_raw_kind_mask[i as int] & spec_raw_kind_bit(raw.kind)) != 0 {
            match v.tx_ingest[i as int] {
                Some(f) => spec_ingest(f, raw),
                None => None,
            }
        } else { None };
        match hit {
            Some(out) => Some((v.tx_tid[i as int], out)),
            None => spec_tx_scan(v, raw, i + 1),
        }
    }
}

/// What the transjector layer makes of a raw event: nothing for an
/// unknown kind, else the first matching registration's output.
pub open spec fn spec_tx_step(v: KernelView, raw: RawEvent) -> Option<(u8, VectorEvent)> {
    if spec_raw_kind_bit(raw.kind) == 0 { None } else { spec_tx_scan(v, raw, 0) }
}

pub fn tx_step(state: &mut KernelState, raw: RawEvent) -> (r: Option<(u8, VectorEvent)>)
    requires
        old(state).wf(),
    ensures
        *final(state) == *old(state),
        r == spec_tx_step(old(state)@, raw),
{
    let rb = raw_kind_bit(raw.kind);
    if rb == 0 {
        return None;
    }
    let mut i: usize = 0;
    while i < state.tx_count as usize
        invariant
            old(state).wf(),
            *state == *old(state),
            spec_tx_scan(state@, raw, 0) == spec_tx_scan(state@, raw, i as nat),
            rb == spec_raw_kind_bit(raw.kind),
            rb != 0,
        decreases state.tx_count as usize - i,
    {
        if state.tx_used[i] && state.tx_enabled[i] && (state.tx_raw_kind_mask[i] & rb) != 0 {
            if let Some(f) = state.tx_ingest[i] {
                if let Some(out) = run_ingest(f, raw) {
                    assert(state@.tx_ingest[i as int] == Some(f));
                    assert(spec_tx_scan(state@, raw, i as nat) == Some((state@.tx_tid[i as int], out)));
                    return Some((state.tx_tid[i], out));
                }
            }
        }
        i += 1;
    }
    None
}

} // verus!
