//! The deterministic runtime: task state machine, signals and waits,
//! per-class event queues, routing to mailboxes, budgeted dispatch with
//! latency/deadline accounting, adaptive budgets and the scheduler.
use vstd::prelude::*;
use crate::softirq::{self, SOFTIRQ_BUS, SOFTIRQ_FABRIC, SOFTIRQ_LOG};
use crate::runtime_log::LogRecord;
use crate::kernel_state::log_push;
use crate::transjector::{
    bus_step_gated, make_softirq_raw, tx_set_enabled, tx_step, spec_tx_step, spec_softirq_code,
    spec_tx_set_enabled, spec_gated, lemma_gated_matches, spec_tx_init_defaults, tx_init_defaults,
};
use crate::transvector::{fabric_step, spec_fabric, RULE_COUNT};
use crate::kernel_state::{
    KernelState, KernelView, TaskId, TaskState, EventFrame, RawEvent, VectorEvent, TxIngest,
    table_view, queue_view, spec_slot_deadline, evq_drain_quota, event_frame_empty,
    MAX_TASKS, SLEEP_NONE, EVT_TIMER, EVT_BUS, EVT_FAB, EVT_LOG, EVT_ALL, EVT_SLOTS,
    SLOT_TIMER, SLOT_BUS, SLOT_FAB, SLOT_LOG, SRC_SOFTIRQ, SRC_TASK, EC_CRIT, EC_HIGH, EC_NORM,
    EC_LOW, EC_COUNT, EVQ_CAP_CLASS, EVQ_DRAIN_BUDGET, EVQ_STARVE_WARN_TICKS, EVQ_DRAIN_QUOTA_PER_CLASS,
    TASK_DISPATCH_BUDGET, TASK_DISPATCH_MAX_SLOTS_PER_TICK, TASK_DISPATCH_BUDGET_MIN,
    TASK_DISPATCH_BUDGET_MAX, CRIT_DISPATCH_BUDGET, CRIT_DISPATCH_MAX_SLOTS_PER_TICK, DL_TIMER,
    DL_FAB, DL_BUS, DL_LOG, DL_LOG_THROTTLE_TICKS, DL_LOG_WINDOW_TICKS, DL_LOG_MIN_PERIOD_TICKS,
    RAW_SOFTIRQ, RAW_MMIO, RAW_INTERNAL, RAWC_INTERNAL_LOG_FLUSH, RAWC_INTERNAL_PANIC,
    RAWC_MMIO_BUS_RX, RAWC_MMIO_BUS_TX, RAWC_MMIO_FAB_ALERT, RAWC_SOFTIRQ_FABRIC, RAWC_SOFTIRQ_LOG,
};

verus! {


pub open spec fn zeros_u8() -> Seq<u8> { seq![0u8, 0u8, 0u8, 0u8] }
pub open spec fn zeros_u32() -> Seq<u32> { seq![0u32, 0u32, 0u32, 0u32] }

// ---------------------------------------------------------------------
// Task state machine
// ---------------------------------------------------------------------

/// A state change; an actual change leaves a record.
pub open spec fn spec_set_state(v: KernelView, id: u8, new: TaskState) -> KernelView {
    if id >= v.task_count || v.tasks[id as int] == new {
        v
    } else {
        KernelView {
            tasks: v.tasks.update(id as int, new),
            log: v.log.push(LogRecord::TaskState { id, new }),
            ..v
        }
    }
}

pub open spec fn spec_sleep(v: KernelView, id: u8, ticks: u64) -> KernelView {
    if id >= v.task_count || ticks == 0 {
        v
    } else {
        let until = v.tick.wrapping_add(ticks);
        let v1 = KernelView {
            wait_mask: v.wait_mask.update(id as int, 0),
            sleep_until: v.sleep_until.update(id as int, until),
            ..v
        };
        let v2 = spec_set_state(v1, id, TaskState::Blocked);
        KernelView { log: v2.log.push(LogRecord::Sleep { id, until }), ..v2 }
    }
}

/// Waking a task because `matched` events it waited for are pending; the
/// records are the state change, the wait hit when a wait was satisfied at
/// once (`wait_hit`), and the wake with the pending mask left.
pub open spec fn spec_wake_by_match(v: KernelView, id: u8, matched: u32, wait_hit: bool) -> KernelView {
    let left = v.pending_evt[id as int] & !matched;
    let v1 = KernelView {
        pending_evt: v.pending_evt.update(id as int, left),
        wait_mask: v.wait_mask.update(id as int, 0),
        last_wake: v.last_wake.update(id as int, matched),
        woke: v.woke.wrapping_add(1),
        ..v
    };
    let v2 = spec_set_state(v1, id, TaskState::Ready);
    let v3 = if wait_hit { KernelView { log: v2.log.push(LogRecord::WaitHit { id, mask: matched }), ..v2 } } else { v2 };
    KernelView { log: v3.log.push(LogRecord::WaitWake { id, matched, pending_after: left }), ..v3 }
}

pub open spec fn spec_wait(v: KernelView, id: u8, mask: u32) -> KernelView {
    if id >= v.task_count || mask == 0 {
        v
    } else {
        let v1 = KernelView {
            sleep_until: v.sleep_until.update(id as int, SLEEP_NONE),
            wait_mask: v.wait_mask.update(id as int, mask),
            log: v.log.push(LogRecord::Wait { id, mask }),
            ..v
        };
        let matched = v.pending_evt[id as int] & mask;
        if matched != 0 {
            spec_wake_by_match(v1, id, matched, true)
        } else {
            spec_set_state(v1, id, TaskState::Blocked)
        }
    }
}

pub open spec fn spec_subscribe(v: KernelView, id: u8, mask: u32) -> KernelView {
    if id >= v.task_count || mask == 0 {
        v
    } else {
        let after = v.sub_mask[id as int] | mask;
        KernelView {
            sub_mask: v.sub_mask.update(id as int, after),
            log: v.log.push(LogRecord::Sub { id, mask, sub_after: after }),
            ..v
        }
    }
}

pub open spec fn spec_unsubscribe(v: KernelView, id: u8, mask: u32) -> KernelView {
    if id >= v.task_count || mask == 0 {
        v
    } else {
        let after = v.sub_mask[id as int] & !mask;
        KernelView {
            sub_mask: v.sub_mask.update(id as int, after),
            log: v.log.push(LogRecord::Unsub { id, mask, sub_after: after }),
            ..v
        }
    }
}

pub open spec fn spec_signal(v: KernelView, id: u8, mask: u32) -> KernelView {
    if id >= v.task_count || mask == 0 {
        v
    } else {
        let p = v.pending_evt[id as int] | mask;
        let v1 = KernelView {
            pending_evt: v.pending_evt.update(id as int, p),
            log: v.log.push(LogRecord::Signal { id, evt: mask, pending_after: p }),
            ..v
        };
        let w = v.wait_mask[id as int];
        if v.tasks[id as int] == TaskState::Blocked && w != 0 && (p & w) != 0 {
            spec_wake_by_match(v1, id, p & w, false)
        } else {
            v1
        }
    }
}

pub fn task_set_state(state: &mut KernelState, id: TaskId, new: TaskState)
    requires
        old(state).wf(),
    ensures
        final(state).wf(),
        final(state)@ == spec_set_state(old(state)@, id, new),
{
    if id >= state.task_count {
        return;
    }
    let idx = id as usize;
    let old_state = state.tasks[idx];
    if old_state == new {
        assert(state.tasks@.update(idx as int, new) =~= state.tasks@);
        return;
    }
    state.tasks[idx] = new;
    log_push(state, LogRecord::TaskState { id, new });
}

pub fn task_sleep(state: &mut KernelState, id: TaskId, ticks: u64)
    requires
        old(state).wf(),
    ensures
        final(state).wf(),
        final(state)@ == spec_sleep(old(state)@, id, ticks),
{
    if id >= state.task_count || ticks == 0 {
        return;
    }
    let idx = id as usize;
    let until = state.tick.wrapping_add(ticks);
    state.wait_mask[idx] = 0;
    state.sleep_until[idx] = until;
    task_set_state(state, id, TaskState::Blocked);
    log_push(state, LogRecord::Sleep { id, until });
}

fn wake_task_by_match(state: &mut KernelState, id: TaskId, matched: u32, wait_hit: bool)
    requires
        old(state).wf(),
        id < old(state).task_count,
    ensures
        final(state).wf(),
        final(state)@ == spec_wake_by_match(old(state)@, id, matched, wait_hit),
{
    let idx = id as usize;
    state.pending_evt[idx] = state.pending_evt[idx] & !matched;
    state.wait_mask[idx] = 0;
    state.last_wake[idx] = matched;
    state.woke = state.woke.wrapping_add(1);
    task_set_state(state, id, TaskState::Ready);
    if wait_hit {
        log_push(state, LogRecord::WaitHit { id, mask: matched });
    }
    log_push(state, LogRecord::WaitWake { id, matched, pending_after: state.pending_evt[idx] });
}

pub fn task_wait(state: &mut KernelState, id: TaskId, mask: u32)
    requires
        old(state).wf(),
    ensures
        final(state).wf(),
        final(state)@ == spec_wait(old(state)@, id, mask),
{
    if id >= state.task_count || mask == 0 {
        return;
    }
    let idx = id as usize;
    log_push(state, LogRecord::Wait { id, mask });
    state.sleep_until[idx] = SLEEP_NONE;
    state.wait_mask[idx] = mask;
    let matched = state.pending_evt[idx] & mask;
    if matched != 0 {
        wake_task_by_match(state, id, matched, true);
        return;
    }
    task_set_state(state, id, TaskState::Blocked);
}

pub fn task_wait_any(state: &mut KernelState, id: TaskId)
    requires
        old(state).wf(),
    ensures
        final(state).wf(),
        final(state)@ == spec_wait(old(state)@, id, EVT_ALL),
{
    task_wait(state, id, EVT_ALL);
}

pub fn task_subscribe(state: &mut KernelState, id: TaskId, mask: u32)
    requires
        old(state).wf(),
    ensures
        final(state).wf(),
        final(state)@ == spec_subscribe(old(state)@, id, mask),
{
    if id >= state.task_count || mask == 0 {
        return;
    }
    let idx = id as usize;
    state.sub_mask[idx] = state.sub_mask[idx] | mask;
    log_push(state, LogRecord::Sub { id, mask, sub_after: state.sub_mask[idx] });
}

pub fn task_unsubscribe(state: &mut KernelState, id: TaskId, mask: u32)
    requires
        old(state).wf(),
    ensures
        final(state).wf(),
        final(state)@ == spec_unsubscribe(old(state)@, id, mask),
{
    if id >= state.task_count || mask == 0 {
        return;
    }
    let idx = id as usize;
    state.sub_mask[idx] = state.sub_mask[idx] & !mask;
    log_push(state, LogRecord::Unsub { id, mask, sub_after: state.sub_mask[idx] });
}

pub fn task_signal(state: &mut KernelState, id: TaskId, mask: u32)
    requires
        old(state).wf(),
    ensures
        final(state).wf(),
        final(state)@ == spec_signal(old(state)@, id, mask),
{
    if id >= state.task_count || mask == 0 {
        return;
    }
    let idx = id as usize;
    state.pending_evt[idx] = state.pending_evt[idx] | mask;
    log_push(state, LogRecord::Signal { id, evt: mask, pending_after: state.pending_evt[idx] });
    if state.tasks[idx] == TaskState::Blocked
        && state.wait_mask[idx] != 0
        && (state.pending_evt[idx] & state.wait_mask[idx]) != 0
    {
        let matched = state.pending_evt[idx] & state.wait_mask[idx];
        wake_task_by_match(state, id, matched, false);
    }
}

pub fn task_poll(state: &KernelState, id: TaskId, mask: u32) -> (r: u32)
    requires
        state.wf(),
    ensures
        r == (if id >= state.task_count || mask == 0 { 0 } else { state.pending_evt@[id as int] & mask }),
{
    if id >= state.task_count || mask == 0 {
        return 0;
    }
    state.pending_evt[id as usize] & mask
}

pub fn task_take_wake(state: &mut KernelState, id: TaskId) -> (m: u32)
    requires
        old(state).wf(),
    ensures
        final(state).wf(),
        id >= old(state).task_count ==> m == 0 && final(state)@ == old(state)@,
        id < old(state).task_count ==> m == old(state)@.last_wake[id as int] && final(state)@ == (KernelView {
            last_wake: old(state)@.last_wake.update(id as int, 0), ..old(state)@ }),
{
    if id >= state.task_count {
        return 0;
    }
    let idx = id as usize;
    let m = state.last_wake[idx];
    state.last_wake[idx] = 0;
    m
}

/// The state after a task's mailbox has been emptied.
pub open spec fn spec_clear_mail(v: KernelView, id: int) -> KernelView {
    KernelView {
        mb_evt: v.mb_evt.update(id, 0),
        mb_cnt: v.mb_cnt.update(id, zeros_u8()),
        ovf: v.ovf.update(id, 0),
        mb_src: v.mb_src.update(id, zeros_u8()),
        mb_payload: v.mb_payload.update(id, zeros_u32()),
        mb_tick: v.mb_tick.update(id, zeros_u32()),
        ..v
    }
}

/// Takes a task's whole mailbox: event mask, per-slot counts, overflow
/// mask, and per-slot last source, payload and delivery tick.
pub fn task_take_mail_ex(state: &mut KernelState, id: TaskId) -> (r: (u32, [u8; 4], u32, [u8; 4], [u32; 4], [u32; 4]))
    requires
        old(state).wf(),
    ensures
        final(state).wf(),
        id >= old(state).task_count ==> final(state)@ == old(state)@ && r.0 == 0 && r.1@ == zeros_u8()
            && r.2 == 0 && r.3@ == zeros_u8() && r.4@ == zeros_u32() && r.5@ == zeros_u32(),
        id < old(state).task_count ==> {
            let v = old(state)@;
            let i = id as int;
            &&& final(state)@ == spec_clear_mail(v, i)
            &&& r.0 == v.mb_evt[i]
            &&& r.1@ == v.mb_cnt[i]
            &&& r.2 == v.ovf[i]
            &&& r.3@ == v.mb_src[i]
            &&& r.4@ == v.mb_payload[i]
            &&& r.5@ == v.mb_tick[i]
        },
{
    if id >= state.task_count {
        let r = (0, [0u8; 4], 0, [0u8; 4], [0u32; 4], [0u32; 4]);
        assert(r.1@ =~= zeros_u8());
        assert(r.3@ =~= zeros_u8());
        assert(r.4@ =~= zeros_u32());
        assert(r.5@ =~= zeros_u32());
        return r;
    }
    let idx = id as usize;
    let mask = state.mb_evt[idx];
    let counts = state.mb_cnt[idx];
    let ovf = state.ovf[idx];
    let src = state.mb_src[idx];
    let payload = state.mb_payload[idx];
    let tick = state.mb_tick[idx];
    state.mb_evt[idx] = 0;
    state.mb_cnt[idx] = [0u8; 4];
    state.ovf[idx] = 0;
    state.mb_src[idx] = [0u8; 4];
    state.mb_payload[idx] = [0u32; 4];
    state.mb_tick[idx] = [0u32; 4];
    proof {
        assert(state.mb_cnt@[idx as int]@ =~= zeros_u8());
        assert(state.mb_src@[idx as int]@ =~= zeros_u8());
        assert(state.mb_payload@[idx as int]@ =~= zeros_u32());
        assert(state.mb_tick@[idx as int]@ =~= zeros_u32());
        assert(table_view(state.mb_cnt) =~= table_view(old(state).mb_cnt).update(idx as int, zeros_u8()));
        assert(table_view(state.mb_src) =~= table_view(old(state).mb_src).update(idx as int, zeros_u8()));
        assert(table_view(state.mb_payload) =~= table_view(old(state).mb_payload).update(idx as int, zeros_u32()));
        assert(table_view(state.mb_tick) =~= table_view(old(state).mb_tick).update(idx as int, zeros_u32()));
        assert(state@.evq =~= old(state)@.evq);
    }
    (mask, counts, ovf, src, payload, tick)
}

pub fn task_take_mail(state: &mut KernelState, id: TaskId) -> (r: (u32, [u8; 4], u32))
    requires
        old(state).wf(),
    ensures
        final(state).wf(),
        id >= old(state).task_count ==> final(state)@ == old(state)@ && r.0 == 0 && r.1@ == zeros_u8() && r.2 == 0,
        id < old(state).task_count ==> {
            let v = old(state)@;
            let i = id as int;
            &&& final(state)@ == spec_clear_mail(v, i)
            &&& r.0 == v.mb_evt[i]
            &&& r.1@ == v.mb_cnt[i]
            &&& r.2 == v.ovf[i]
        },
{
    let (m, c, o, _, _, _) = task_take_mail_ex(state, id);
    (m, c, o)
}

// ---------------------------------------------------------------------
// Event queues (one bounded FIFO per class)
// ---------------------------------------------------------------------

/// The state after offering `frame` to queue `class`: appended when there
/// is room, counted as an overflow when the queue is full.
pub open spec fn spec_evq_push(v: KernelView, class: int, frame: EventFrame) -> KernelView {
    if class < 0 || class >= EC_COUNT {
        v
    } else if v.evq[class].len() >= EVQ_CAP_CLASS {
        let count = v.evq_ovf[class].wrapping_add(1);
        KernelView {
            evq_ovf: v.evq_ovf.update(class, count),
            log: v.log.push(LogRecord::EvqOverflow { class: class as u8, count }),
            ..v
        }
    } else {
        KernelView {
            evq: v.evq.update(class, v.evq[class].push(frame)),
            log: v.log.push(LogRecord::EvqPush {
                class: class as u8, evt: frame.evt_mask, src: frame.src_id, payload: frame.payload,
                tick: frame.tick, len: (v.evq[class].len() + 1) as u16,
            }),
            ..v
        }
    }
}

/// The frame stamped with the current tick.
pub open spec fn spec_make_frame(v: KernelView, evt_mask: u32, src_id: u8, payload: u32) -> EventFrame {
    EventFrame { evt_mask, src_id, tick: v.tick as u32, payload }
}

fn make_frame(state: &KernelState, evt_mask: u32, src_id: u8, payload: u32) -> (f: EventFrame)
    ensures
        f == spec_make_frame(state@, evt_mask, src_id, payload),
{
    EventFrame { evt_mask, src_id, tick: state.tick as u32, payload }
}

fn evq_push(state: &mut KernelState, class: usize, frame: EventFrame)
    requires
        old(state).wf(),
    ensures
        final(state).wf(),
        final(state)@ == spec_evq_push(old(state)@, class as int, frame),
{
    if class >= EC_COUNT {
        return;
    }
    if state.evq_len[class] as usize >= EVQ_CAP_CLASS {
        state.evq_ovf[class] = state.evq_ovf[class].wrapping_add(1);
        log_push(state, LogRecord::EvqOverflow { class: class as u8, count: state.evq_ovf[class] });
        proof {
            assert(state@.evq =~= old(state)@.evq) by {
                assert forall|c: int| 0 <= c < 4 implies queue_view(state, c) =~= queue_view(old(state), c) by {}
            }
        }
        return;
    }
    let tail = state.evq_tail[class] as usize;
    state.evq[class][tail] = frame;
    state.evq_tail[class] = ((tail + 1) % EVQ_CAP_CLASS) as u16;
    state.evq_len[class] = state.evq_len[class] + 1;
    log_push(state, LogRecord::EvqPush {
        class: class as u8, evt: frame.evt_mask, src: frame.src_id, payload: frame.payload, tick: frame.tick,
        len: state.evq_len[class],
    });
    proof {
        let c = class as int;
        let o = old(state);
        assert(queue_view(state, c) =~= queue_view(o, c).push(frame)) by {
            assert forall|k: int| 0 <= k < o.evq_len@[c] implies
                #[trigger] queue_view(state, c)[k] == queue_view(o, c)[k] by {
                assert((o.evq_head@[c] as int + k) % 16 != tail as int);
            }
        }
        assert(state@.evq =~= o@.evq.update(c, o@.evq[c].push(frame))) by {
            assert forall|d: int| 0 <= d < 4 && d != c implies queue_view(state, d) =~= queue_view(o, d) by {}
        }
    }
}

/// The state after removing the oldest frame of queue `class`, and that
/// frame (none when the queue is empty).
pub open spec fn spec_evq_pop(v: KernelView, class: int) -> (KernelView, Option<EventFrame>) {
    if class < 0 || class >= EC_COUNT || v.evq[class].len() == 0 {
        (v, None)
    } else {
        (KernelView { evq: v.evq.update(class, v.evq[class].drop_first()), ..v }, Some(v.evq[class][0]))
    }
}

fn evq_pop(state: &mut KernelState, class: usize) -> (r: Option<EventFrame>)
    requires
        old(state).wf(),
    ensures
        final(state).wf(),
        final(state)@ == spec_evq_pop(old(state)@, class as int).0,
        r == spec_evq_pop(old(state)@, class as int).1,
{
    if class >= EC_COUNT || state.evq_len[class] == 0 {
        return None;
    }
    let head = state.evq_head[class] as usize;
    let frame = state.evq[class][head];
    state.evq_head[class] = ((head + 1) % EVQ_CAP_CLASS) as u16;
    state.evq_len[class] = state.evq_len[class] - 1;
    proof {
        let c = class as int;
        let o = old(state);
        assert(queue_view(o, c)[0] == frame);
        assert(queue_view(state, c) =~= queue_view(o, c).drop_first()) by {
            assert forall|k: int| 0 <= k < state.evq_len@[c] implies
                #[trigger] queue_view(state, c)[k] == queue_view(o, c)[k + 1] by {
                assert((state.evq_head@[c] as int + k) % 16 == (o.evq_head@[c] as int + (k + 1)) % 16);
            }
        }
        assert(state@.evq =~= o@.evq.update(c, o@.evq[c].drop_first())) by {
            assert forall|d: int| 0 <= d < 4 && d != c implies queue_view(state, d) =~= queue_view(o, d) by {}
        }
    }
    Some(frame)
}

/// Publishing splits the event mask by class (TIMER to CRIT, FAB to HIGH,
/// BUS to NORM, LOG to LOW) and offers one frame per non-empty fragment.
pub open spec fn spec_publish(v: KernelView, evt_mask: u32, src_id: u8, payload: u32) -> KernelView {
    if evt_mask == 0 {
        v
    } else {
        let crit = evt_mask & EVT_TIMER;
        let high = evt_mask & EVT_FAB;
        let norm = evt_mask & EVT_BUS;
        let low = evt_mask & EVT_LOG;
        let v0 = KernelView { log: v.log.push(LogRecord::Publish { evt: evt_mask, src: src_id, payload }), ..v };
        let v1 = if crit != 0 { spec_evq_push(v0, EC_CRIT as int, spec_make_frame(v, crit, src_id, payload)) } else { v0 };
        let v2 = if high != 0 { spec_evq_push(v1, EC_HIGH as int, spec_make_frame(v, high, src_id, payload)) } else { v1 };
        let v3 = if norm != 0 { spec_evq_push(v2, EC_NORM as int, spec_make_frame(v, norm, src_id, payload)) } else { v2 };
        if low != 0 { spec_evq_push(v3, EC_LOW as int, spec_make_frame(v, low, src_id, payload)) } else { v3 }
    }
}

/// Offers the fragment `part` of a published mask to queue `class`,
/// stamped with the current tick; an empty fragment offers nothing.
fn offer(state: &mut KernelState, class: usize, part: u32, src_id: u8, payload: u32)
    requires
        old(state).wf(),
        class < EC_COUNT,
    ensures
        final(state).wf(),
        final(state)@ == (if part != 0 {
            spec_evq_push(old(state)@, class as int, spec_make_frame(old(state)@, part, src_id, payload))
        } else {
            old(state)@
        }),
{
    if part != 0 {
        let f = make_frame(state, part, src_id, payload);
        evq_push(state, class, f);
    }
}

pub fn publish_event_ex(state: &mut KernelState, evt_mask: u32, src_id: u8, payload_u32: u32)
    requires
        old(state).wf(),
    ensures
        final(state).wf(),
        final(state)@ == spec_publish(old(state)@, evt_mask, src_id, payload_u32),
{
    if evt_mask == 0 {
        return;
    }
    log_push(state, LogRecord::Publish { evt: evt_mask, src: src_id, payload: payload_u32 });
    offer(state, EC_CRIT, evt_mask & EVT_TIMER, src_id, payload_u32);
    offer(state, EC_HIGH, evt_mask & EVT_FAB, src_id, payload_u32);
    offer(state, EC_NORM, evt_mask & EVT_BUS, src_id, payload_u32);
    offer(state, EC_LOW, evt_mask & EVT_LOG, src_id, payload_u32);
}

pub fn publish_event(state: &mut KernelState, evt: u32)
    requires
        old(state).wf(),
    ensures
        final(state).wf(),
        final(state)@ == spec_publish(old(state)@, evt, SRC_SOFTIRQ, 0),
{
    publish_event_ex(state, evt, SRC_SOFTIRQ, 0);
}

// ---------------------------------------------------------------------
// Mailboxes and routing
// ---------------------------------------------------------------------

/// The state after one delivery of `evt` into mailbox slot `slot` of task
/// `i` (when `evt` is part of `deliver_mask`): the slot's counter saturates
/// at 255, and a delivery onto a saturated counter marks `evt` in the
/// task's overflow mask; the slot keeps the last source, payload and tick.
pub open spec fn spec_add_mail_slot(
    v: KernelView, i: int, deliver_mask: u32, evt: u32, slot: int, src: u8, payload: u32, tick: u32,
) -> KernelView {
    if deliver_mask & evt == 0 {
        v
    } else {
        let before = v.mb_cnt[i][slot];
        KernelView {
            mb_cnt: v.mb_cnt.update(i, v.mb_cnt[i].update(slot, if before < 255 { (before + 1) as u8 } else { 255u8 })),
            ovf: if before == 255 { v.ovf.update(i, v.ovf[i] | evt) } else { v.ovf },
            log: if before == 255 && v.ovf[i] & evt == 0 { v.log.push(LogRecord::Overflow { id: i as u8, evt }) } else { v.log },
            mb_src: v.mb_src.update(i, v.mb_src[i].update(slot, src)),
            mb_payload: v.mb_payload.update(i, v.mb_payload[i].update(slot, payload)),
            mb_tick: v.mb_tick.update(i, v.mb_tick[i].update(slot, tick)),
            ..v
        }
    }
}

/// Delivery of `deliver_mask` to task `i`'s mailbox.
pub open spec fn spec_mailbox_push(v: KernelView, i: int, deliver_mask: u32, src: u8, payload: u32, tick: u32) -> KernelView {
    let v0 = KernelView { mb_evt: v.mb_evt.update(i, v.mb_evt[i] | deliver_mask), ..v };
    let v1 = spec_add_mail_slot(v0, i, deliver_mask, EVT_BUS, SLOT_BUS as int, src, payload, tick);
    let v2 = spec_add_mail_slot(v1, i, deliver_mask, EVT_FAB, SLOT_FAB as int, src, payload, tick);
    let v3 = spec_add_mail_slot(v2, i, deliver_mask, EVT_LOG, SLOT_LOG as int, src, payload, tick);
    let v4 = spec_add_mail_slot(v3, i, deliver_mask, EVT_TIMER, SLOT_TIMER as int, src, payload, tick);
    KernelView {
        log: v4.log.push(LogRecord::Mailbox {
            id: i as u8, deliver_mask,
            bus: v4.mb_cnt[i][SLOT_BUS as int], fab: v4.mb_cnt[i][SLOT_FAB as int], logc: v4.mb_cnt[i][SLOT_LOG as int],
            bsrc: v4.mb_src[i][SLOT_BUS as int], bpay: v4.mb_payload[i][SLOT_BUS as int],
            fsrc: v4.mb_src[i][SLOT_FAB as int], fpay: v4.mb_payload[i][SLOT_FAB as int],
            lsrc: v4.mb_src[i][SLOT_LOG as int], lpay: v4.mb_payload[i][SLOT_LOG as int],
        }),
        ..v4
    }
}

fn add_mail_slot(
    state: &mut KernelState, idx: usize, deliver_mask: u32, evt: u32, slot: usize, src: u8, payload: u32, tick: u32,
) -> (r: (u8, u8, u32))
    requires
        old(state).wf(),
        idx < MAX_TASKS,
        slot < EVT_SLOTS,
    ensures
        final(state).wf(),
        final(state)@ == spec_add_mail_slot(old(state)@, idx as int, deliver_mask, evt, slot as int, src, payload, tick),
        r == (final(state)@.mb_cnt[idx as int][slot as int], final(state)@.mb_src[idx as int][slot as int],
            final(state)@.mb_payload[idx as int][slot as int]),
{
    if (deliver_mask & evt) == 0 {
        return (state.mb_cnt[idx][slot], state.mb_src[idx][slot], state.mb_payload[idx][slot]);
    }
    let add: u16 = 1;
    let before = state.mb_cnt[idx][slot];
    let remain = 255u16 - before as u16;
    let applied = if remain < add { remain } else { add };
    state.mb_cnt[idx][slot] = (before as u16 + applied) as u8;
    if add > remain {
        if (state.ovf[idx] & evt) == 0 {
            log_push(state, LogRecord::Overflow { id: idx as TaskId, evt });
        }
        state.ovf[idx] = state.ovf[idx] | evt;
    }
    state.mb_src[idx][slot] = src;
    state.mb_payload[idx][slot] = payload;
    state.mb_tick[idx][slot] = tick;
    proof {
        let o = old(state);
        let i = idx as int;
        let sl = slot as int;
        assert(table_view(state.mb_cnt) =~= table_view(o.mb_cnt).update(i, o.mb_cnt@[i]@.update(sl, state.mb_cnt@[i]@[sl])));
        assert(table_view(state.mb_src) =~= table_view(o.mb_src).update(i, o.mb_src@[i]@.update(sl, src)));
        assert(table_view(state.mb_payload) =~= table_view(o.mb_payload).update(i, o.mb_payload@[i]@.update(sl, payload)));
        assert(table_view(state.mb_tick) =~= table_view(o.mb_tick).update(i, o.mb_tick@[i]@.update(sl, tick)));
        assert(state@.evq =~= o@.evq);
    }
    (state.mb_cnt[idx][slot], state.mb_src[idx][slot], state.mb_payload[idx][slot])
}

fn mailbox_push(state: &mut KernelState, id: TaskId, deliver_mask: u32, src: u8, payload: u32, tick: u32)
    requires
        old(state).wf(),
        id < MAX_TASKS,
    ensures
        final(state).wf(),
        final(state)@ == spec_mailbox_push(old(state)@, id as int, deliver_mask, src, payload, tick),
{
    let idx = id as usize;
    state.mb_evt[idx] = state.mb_evt[idx] | deliver_mask;
    let (bus, bsrc, bpay) = add_mail_slot(state, idx, deliver_mask, EVT_BUS, SLOT_BUS, src, payload, tick);
    let (fab, fsrc, fpay) = add_mail_slot(state, idx, deliver_mask, EVT_FAB, SLOT_FAB, src, payload, tick);
    let (logc, lsrc, lpay) = add_mail_slot(state, idx, deliver_mask, EVT_LOG, SLOT_LOG, src, payload, tick);
    let _ = add_mail_slot(state, idx, deliver_mask, EVT_TIMER, SLOT_TIMER, src, payload, tick);
    log_push(state, LogRecord::Mailbox {
        id, deliver_mask, bus, fab, logc, bsrc, bpay, fsrc, fpay, lsrc, lpay,
    });
}

/// Number of tasks the router and the wake-up pass look at.
pub open spec fn spec_task_scan(v: KernelView) -> int {
    if v.task_count < MAX_TASKS { v.task_count as int } else { MAX_TASKS as int }
}

/// Whether some task before `n` is subscribed to part of the frame.
pub open spec fn spec_delivered_before(v: KernelView, frame: EventFrame, n: nat) -> bool
    decreases n,
{
    if n == 0 {
        false
    } else {
        spec_delivered_before(v, frame, (n - 1) as nat) || frame.evt_mask & v.sub_mask[n - 1] != 0
    }
}

/// Routing of `frame`, taken from queue `class`, to the first `n` tasks:
/// each task whose subscription intersects the frame's mask gets that
/// intersection in its mailbox and as a signal; the first such delivery is
/// reported.
pub open spec fn spec_route(v: KernelView, frame: EventFrame, class: int, n: nat) -> KernelView
    decreases n,
{
    if n == 0 {
        v
    } else {
        let v1 = spec_route(v, frame, class, (n - 1) as nat);
        let i = n - 1;
        let d = frame.evt_mask & v1.sub_mask[i];
        if d != 0 {
            let v2 = spec_signal(spec_mailbox_push(v1, i, d, frame.src_id, frame.payload, frame.tick), i as u8, d);
            if spec_delivered_before(v, frame, (n - 1) as nat) {
                v2
            } else {
                KernelView {
                    log: v2.log.push(LogRecord::Route {
                        class: class as u8, id: i as u8, deliver: d, src: frame.src_id, payload: frame.payload,
                    }),
                    ..v2
                }
            }
        } else {
            v1
        }
    }
}

/// Handling of a frame taken from queue `class`: the take is reported
/// with the queue's length after it, then the frame is routed.
pub open spec fn spec_process_frame(v: KernelView, class: int, frame: EventFrame) -> KernelView {
    let v0 = if 0 <= class < EC_COUNT {
        KernelView {
            log: v.log.push(LogRecord::EvqPop {
                class: class as u8, evt: frame.evt_mask, src: frame.src_id, payload: frame.payload, tick: frame.tick,
                len_after: v.evq[class].len() as u16,
            }),
            ..v
        }
    } else {
        v
    };
    spec_route(v0, frame, class, spec_task_scan(v) as nat)
}

fn process_frame(state: &mut KernelState, class: usize, frame: EventFrame)
    requires
        old(state).wf(),
    ensures
        final(state).wf(),
        final(state)@ == spec_process_frame(old(state)@, class as int, frame),
{
    if class < EC_COUNT {
        log_push(state, LogRecord::EvqPop {
            class: class as u8, evt: frame.evt_mask, src: frame.src_id, payload: frame.payload, tick: frame.tick,
            len_after: state.evq_len[class],
        });
    }
    let ghost v0 = state@;
    let count: usize = if (state.task_count as usize) < MAX_TASKS { state.task_count as usize } else { MAX_TASKS };
    let mut i: usize = 0;
    let mut route_logged = false;
    while i < count
        invariant
            i <= count,
            count == spec_task_scan(old(state)@),
            state.wf(),
            state@ == spec_route(v0, frame, class as int, i as nat),
            state.task_count == old(state).task_count,
            route_logged == spec_delivered_before(v0, frame, i as nat),
            v0.sub_mask == old(state)@.sub_mask,
        decreases count - i,
    {
        proof { lemma_route_frame(v0, frame, class as int, i as nat); }
        let deliver = frame.evt_mask & state.sub_mask[i];
        if deliver != 0 {
            mailbox_push(state, i as TaskId, deliver, frame.src_id, frame.payload, frame.tick);
            task_signal(state, i as TaskId, deliver);
            if !route_logged {
                log_push(state, LogRecord::Route {
                    class: class as u8, id: i as TaskId, deliver, src: frame.src_id, payload: frame.payload,
                });
                route_logged = true;
            }
        }
        i += 1;
    }
}

/// Routing leaves the event queues, the subscriptions, the task count and
/// the tick alone.
pub proof fn lemma_route_frame(v: KernelView, frame: EventFrame, class: int, n: nat)
    ensures
        spec_route(v, frame, class, n).evq == v.evq,
        spec_route(v, frame, class, n).task_count == v.task_count,
        spec_route(v, frame, class, n).tick == v.tick,
        spec_route(v, frame, class, n).evq_starve == v.evq_starve,
        spec_route(v, frame, class, n).sub_mask == v.sub_mask,
    decreases n,
{
    if n > 0 {
        lemma_route_frame(v, frame, class, (n - 1) as nat);
    }
}

// ---------------------------------------------------------------------
// Router: quota pass, priority pass, starvation monitor
// ---------------------------------------------------------------------

/// Pop the oldest frame of class `c` (if any) and route it.
pub open spec fn spec_serve(v: KernelView, c: int) -> KernelView {
    let (v1, f) = spec_evq_pop(v, c);
    match f {
        Some(fr) => spec_process_frame(v1, c, fr),
        None => v1,
    }
}

/// Serve class `c` `k` times.
pub open spec fn spec_serve_n(v: KernelView, c: int, k: nat) -> KernelView
    decreases k,
{
    if k == 0 { v } else { spec_serve(spec_serve_n(v, c, (k - 1) as nat), c) }
}

pub open spec fn min3(a: int, b: int, c: int) -> int {
    if a <= b && a <= c { a } else if b <= c { b } else { c }
}

/// The quota pass over classes `0..n`: each class is served up to its
/// quota, within the remaining budget and the frames it holds. Yields the
/// state, the budget left and the frames drained per class.
pub open spec fn spec_quota_pass(v: KernelView, n: nat) -> (KernelView, int, Seq<u16>)
    decreases n,
{
    if n == 0 {
        (v, EVQ_DRAIN_BUDGET as int, seq![0u16, 0u16, 0u16, 0u16])
    } else {
        let (v1, b1, d1) = spec_quota_pass(v, (n - 1) as nat);
        let c = n - 1;
        let k = min3(EVQ_DRAIN_QUOTA_PER_CLASS as int, b1, v1.evq[c].len() as int);
        (spec_serve_n(v1, c, k as nat), b1 - k, d1.update(c, k as u16))
    }
}

/// The most urgent class holding a frame at or after `c` (4 when none).
pub open spec fn spec_first_nonempty(evq: Seq<Seq<EventFrame>>, c: nat) -> nat
    decreases 4 - c,
{
    if c >= 4 { 4 } else if evq[c as int].len() > 0 { c } else { spec_first_nonempty(evq, c + 1) }
}

/// The priority pass: while budget remains, serve the most urgent
/// non-empty class.
pub open spec fn spec_priority_pass(v: KernelView, budget: nat, drained: Seq<u16>) -> (KernelView, Seq<u16>)
    decreases budget,
{
    if budget == 0 {
        (v, drained)
    } else {
        let c = spec_first_nonempty(v.evq, 0);
        if c == 4 {
            (v, drained)
        } else {
            spec_priority_pass(spec_serve(v, c as int), (budget - 1) as nat, drained.update(c as int, drained[c as int].wrapping_add(1)))
        }
    }
}

/// The starvation counters after a tick: a class that held frames but had
/// none drained counts one more starved tick (saturating); every other
/// class is reset.
pub open spec fn new_starve(v: KernelView, drained: Seq<u16>, c: int) -> u16 {
    if v.evq[c].len() > 0 && drained[c] == 0 {
        if v.evq_starve[c] < 0xFFFF { (v.evq_starve[c] + 1) as u16 } else { 0xFFFFu16 }
    } else {
        0u16
    }
}

/// A starving class is reported each time its count reaches a multiple of
/// the warning period.
pub open spec fn starve_record(v: KernelView, drained: Seq<u16>, c: int) -> Seq<LogRecord> {
    let t = new_starve(v, drained, c);
    if v.evq[c].len() > 0 && drained[c] == 0 && t >= EVQ_STARVE_WARN_TICKS && t % EVQ_STARVE_WARN_TICKS == 0 {
        seq![LogRecord::EvqStarve { class: c as u8, ticks: t, len: v.evq[c].len() as u16 }]
    } else {
        Seq::empty()
    }
}

/// The starvation reports of classes `0..n`, in class order.
pub open spec fn starve_records(v: KernelView, drained: Seq<u16>, n: nat) -> Seq<LogRecord>
    decreases n,
{
    if n == 0 { Seq::empty() } else { starve_records(v, drained, (n - 1) as nat) + starve_record(v, drained, n - 1) }
}

pub open spec fn spec_starvation(v: KernelView, drained: Seq<u16>) -> KernelView {
    KernelView {
        evq_starve: Seq::new(4, |c: int| new_starve(v, drained, c)),
        log: v.log + starve_records(v, drained, 4),
        ..v
    }
}

/// One router step: quota pass, priority pass, starvation update.
pub open spec fn spec_router(v: KernelView) -> KernelView {
    let (v1, b1, d1) = spec_quota_pass(v, 4);
    let (v2, d2) = spec_priority_pass(v1, b1 as nat, d1);
    spec_starvation(v2, d2)
}

proof fn lemma_serve(v: KernelView, c: int)
    requires
        0 <= c < 4,
    ensures
        spec_serve(v, c).evq == (if v.evq[c].len() > 0 { v.evq.update(c, v.evq[c].drop_first()) } else { v.evq }),
        spec_serve(v, c).task_count == v.task_count,
        spec_serve(v, c).evq_starve == v.evq_starve,
{
    let (v1, f) = spec_evq_pop(v, c);
    if let Some(fr) = f {
        let v0 = if 0 <= c < EC_COUNT {
            KernelView {
                log: v1.log.push(LogRecord::EvqPop {
                    class: c as u8, evt: fr.evt_mask, src: fr.src_id, payload: fr.payload, tick: fr.tick,
                    len_after: v1.evq[c].len() as u16,
                }),
                ..v1
            }
        } else {
            v1
        };
        lemma_route_frame(v0, fr, c, spec_task_scan(v1) as nat);
    }
}

proof fn lemma_serve_n(v: KernelView, c: int, k: nat)
    requires
        0 <= c < 4,
        k <= v.evq[c].len(),
        v.evq.len() == 4,
    ensures
        spec_serve_n(v, c, k).evq.len() == 4,
        spec_serve_n(v, c, k).evq[c].len() == v.evq[c].len() - k,
        forall|d: int| 0 <= d < 4 && d != c ==> spec_serve_n(v, c, k).evq[d] == v.evq[d],
        spec_serve_n(v, c, k).task_count == v.task_count,
        spec_serve_n(v, c, k).evq_starve == v.evq_starve,
    decreases k,
{
    if k > 0 {
        lemma_serve_n(v, c, (k - 1) as nat);
        lemma_serve(spec_serve_n(v, c, (k - 1) as nat), c);
    }
}

fn update_starvation(state: &mut KernelState, drained: &[u16; 4])
    requires
        old(state).wf(),
    ensures
        final(state).wf(),
        final(state)@ == spec_starvation(old(state)@, drained@),
{
    let mut class: usize = 0;
    while class < EC_COUNT
        invariant
            class <= EC_COUNT,
            state.wf(),
            state@ == (KernelView { evq_starve: state@.evq_starve, log: state@.log, ..old(state)@ }),
            state@.log == old(state)@.log + starve_records(old(state)@, drained@, class as nat),
            forall|c: int| class <= c < 4 ==> state@.evq_starve[c] == old(state)@.evq_starve[c],
            forall|c: int| 0 <= c < class ==> state@.evq_starve[c] == spec_starvation(old(state)@, drained@).evq_starve[c],
            state@.evq_starve.len() == 4,
        decreases EC_COUNT - class,
    {
        let ghost before = state@;
        if state.evq_len[class] > 0 && drained[class] == 0 {
            state.evq_starve[class] = state.evq_starve[class].saturating_add(1);
            let t = state.evq_starve[class];
            if t >= EVQ_STARVE_WARN_TICKS && t % EVQ_STARVE_WARN_TICKS == 0 {
                log_push(state, LogRecord::EvqStarve { class: class as u8, ticks: t, len: state.evq_len[class] });
            }
        } else {
            state.evq_starve[class] = 0;
        }
        proof {
            assert(state@.evq =~= before.evq) by {
                assert forall|c: int| 0 <= c < 4 implies queue_view(state, c) =~= before.evq[c] by {}
            }
            assert(state@.log =~= old(state)@.log + starve_records(old(state)@, drained@, (class + 1) as nat));
        }
        class += 1;
    }
    assert(state@.evq_starve =~= spec_starvation(old(state)@, drained@).evq_starve);
}

proof fn lemma_quota_shape(v: KernelView, n: nat)
    requires
        v.evq.len() == 4,
        n <= 4,
    ensures
        spec_quota_pass(v, n).0.evq.len() == 4,
        0 <= spec_quota_pass(v, n).1 <= EVQ_DRAIN_BUDGET,
        spec_quota_pass(v, n).2.len() == 4,
        forall|c: int| 0 <= c < 4 ==> spec_quota_pass(v, n).2[c] <= EVQ_DRAIN_QUOTA_PER_CLASS,
        forall|c: int| n <= c < 4 ==> spec_quota_pass(v, n).2[c] == 0,
        spec_quota_pass(v, n).0.task_count == v.task_count,
    decreases n,
{
    if n > 0 {
        lemma_quota_shape(v, (n - 1) as nat);
        let (v1, b1, d1) = spec_quota_pass(v, (n - 1) as nat);
        let c = n - 1;
        let k = min3(EVQ_DRAIN_QUOTA_PER_CLASS as int, b1, v1.evq[c].len() as int);
        lemma_serve_n(v1, c, k as nat);
    }
}

proof fn lemma_first_nonempty(evq: Seq<Seq<EventFrame>>, c: nat)
    requires
        evq.len() == 4,
        c <= 4,
    ensures
        c <= spec_first_nonempty(evq, c) <= 4,
        spec_first_nonempty(evq, c) < 4 ==> evq[spec_first_nonempty(evq, c) as int].len() > 0,
        forall|d: int| c <= d < spec_first_nonempty(evq, c) ==> (#[trigger] evq[d]).len() == 0,
    decreases 4 - c,
{
    if c < 4 {
        lemma_first_nonempty(evq, c + 1);
    }
}

/// Serves the most urgent class holding a frame; `false` when every
/// queue is empty.
fn serve_most_urgent(state: &mut KernelState, drained: &mut [u16; 4]) -> (picked: bool)
    requires
        old(state).wf(),
    ensures
        final(state).wf(),
        ({
            let fc = spec_first_nonempty(old(state)@.evq, 0);
            &&& picked == (fc < 4)
            &&& fc == 4 ==> final(state)@ == old(state)@ && final(drained)@ == old(drained)@
            &&& fc < 4 ==> final(state)@ == spec_serve(old(state)@, fc as int)
                && final(drained)@ == old(drained)@.update(fc as int, old(drained)@[fc as int].wrapping_add(1))
        }),
{
    let ghost vb = state@;
    proof { lemma_first_nonempty(vb.evq, 0); }
    let mut c: usize = 0;
    while c < EC_COUNT
        invariant
            c <= EC_COUNT,
            state.wf(),
            state@ == vb,
            vb == old(state)@,
            vb.evq.len() == 4,
            *drained == *old(drained),
            spec_first_nonempty(vb.evq, 0) == spec_first_nonempty(vb.evq, c as nat),
        decreases EC_COUNT - c,
    {
        proof { lemma_first_nonempty(vb.evq, c as nat); }
        let popped = evq_pop(state, c);
        if let Some(frame) = popped {
            process_frame(state, c, frame);
            drained[c] = drained[c].wrapping_add(1);
            return true;
        }
        c += 1;
    }
    false
}

/// The frames held by all four class queues.
pub open spec fn queued_total(evq: Seq<Seq<EventFrame>>) -> int {
    (evq[0].len() + evq[1].len() + evq[2].len() + evq[3].len()) as int
}

/// `a` is what is left of `b` after frames were taken from its front.
pub open spec fn front_taken(a: Seq<EventFrame>, b: Seq<EventFrame>) -> bool {
    a.len() <= b.len() && a == b.skip(b.len() - a.len())
}

proof fn lemma_front_taken_trans(a: Seq<EventFrame>, b: Seq<EventFrame>, c: Seq<EventFrame>)
    requires
        front_taken(a, b),
        front_taken(b, c),
    ensures
        front_taken(a, c),
{
    assert(a =~= c.skip(c.len() - a.len()));
}

proof fn lemma_serve_n_front(v: KernelView, c: int, k: nat)
    requires
        0 <= c < 4,
        k <= v.evq[c].len(),
        v.evq.len() == 4,
    ensures
        spec_serve_n(v, c, k).evq[c] == v.evq[c].skip(k as int),
    decreases k,
{
    lemma_serve_n(v, c, k);
    if k > 0 {
        lemma_serve_n_front(v, c, (k - 1) as nat);
        lemma_serve_n(v, c, (k - 1) as nat);
        lemma_serve(spec_serve_n(v, c, (k - 1) as nat), c);
        assert(v.evq[c].skip((k - 1) as int).drop_first() =~= v.evq[c].skip(k as int));
    }
}

proof fn lemma_quota_pass_front(v: KernelView, n: nat)
    requires
        v.evq.len() == 4,
        n <= 4,
    ensures
        spec_quota_pass(v, n).0.evq.len() == 4,
        forall|c: int| 0 <= c < 4 ==> front_taken(#[trigger] spec_quota_pass(v, n).0.evq[c], v.evq[c]),
        queued_total(v.evq) - queued_total(spec_quota_pass(v, n).0.evq) == EVQ_DRAIN_BUDGET - spec_quota_pass(v, n).1,
        spec_quota_pass(v, n).1 >= 0,
    decreases n,
{
    if n == 0 {
        assert forall|c: int| 0 <= c < 4 implies front_taken(#[trigger] spec_quota_pass(v, n).0.evq[c], v.evq[c]) by {
            assert(v.evq[c].skip(0) =~= v.evq[c]);
        }
    } else {
        lemma_quota_pass_front(v, (n - 1) as nat);
        lemma_quota_shape(v, (n - 1) as nat);
        let (v1, b1, d1) = spec_quota_pass(v, (n - 1) as nat);
        let c = n - 1;
        let k = min3(EVQ_DRAIN_QUOTA_PER_CLASS as int, b1, v1.evq[c].len() as int);
        lemma_serve_n(v1, c, k as nat);
        lemma_serve_n_front(v1, c, k as nat);
        let v2 = spec_serve_n(v1, c, k as nat);
        assert forall|d: int| 0 <= d < 4 implies front_taken(#[trigger] v2.evq[d], v.evq[d]) by {
            if d == c {
                assert(front_taken(v2.evq[d], v1.evq[d])) by {
                    assert(v1.evq[d].len() - v2.evq[d].len() == k);
                }
                lemma_front_taken_trans(v2.evq[d], v1.evq[d], v.evq[d]);
            } else {
                assert(v2.evq[d] == v1.evq[d]);
            }
        }
        assert(queued_total(v1.evq) - queued_total(v2.evq) == k) by {
            if c == 0 {} else if c == 1 {} else if c == 2 {} else {}
        }
    }
}

proof fn lemma_priority_pass_front(v: KernelView, budget: nat, d: Seq<u16>)
    requires
        v.evq.len() == 4,
    ensures
        spec_priority_pass(v, budget, d).0.evq.len() == 4,
        forall|c: int| 0 <= c < 4 ==> front_taken(#[trigger] spec_priority_pass(v, budget, d).0.evq[c], v.evq[c]),
        queued_total(v.evq) - queued_total(spec_priority_pass(v, budget, d).0.evq) <= budget,
    decreases budget,
{
    if budget == 0 || spec_first_nonempty(v.evq, 0) == 4 {
        assert forall|c: int| 0 <= c < 4 implies front_taken(#[trigger] spec_priority_pass(v, budget, d).0.evq[c], v.evq[c]) by {
            assert(v.evq[c].skip(0) =~= v.evq[c]);
        }
    } else {
        let c = spec_first_nonempty(v.evq, 0);
        lemma_first_nonempty(v.evq, 0);
        lemma_serve(v, c as int);
        let v1 = spec_serve(v, c as int);
        let d1 = d.update(c as int, d[c as int].wrapping_add(1));
        lemma_priority_pass_front(v1, (budget - 1) as nat, d1);
        let r = spec_priority_pass(v1, (budget - 1) as nat, d1).0;
        assert forall|e: int| 0 <= e < 4 implies front_taken(#[trigger] r.evq[e], v.evq[e]) by {
            if e == c as int {
                assert(front_taken(v1.evq[e], v.evq[e])) by {
                    assert(v.evq[e].drop_first() =~= v.evq[e].skip(1));
                }
            } else {
                assert(v1.evq[e] == v.evq[e]);
                assert(v.evq[e].skip(0) =~= v.evq[e]);
            }
            lemma_front_taken_trans(r.evq[e], v1.evq[e], v.evq[e]);
        }
        assert(queued_total(v.evq) - queued_total(v1.evq) == 1) by {
            if c == 0 {} else if c == 1 {} else if c == 2 {} else {}
        }
    }
}

/// Bounded, first-in-first-out draining: one router step takes at most
/// `EVQ_DRAIN_BUDGET` frames off the class queues, and takes each from the
/// front of its queue.
pub proof fn lemma_router_drains_within_budget(v: KernelView)
    requires
        v.evq.len() == 4,
    ensures
        spec_router(v).evq.len() == 4,
        forall|c: int| 0 <= c < 4 ==> front_taken(#[trigger] spec_router(v).evq[c], v.evq[c]),
        queued_total(v.evq) - queued_total(spec_router(v).evq) <= EVQ_DRAIN_BUDGET,
{
    lemma_quota_pass_front(v, 4);
    let (v1, b1, d1) = spec_quota_pass(v, 4);
    lemma_priority_pass_front(v1, b1 as nat, d1);
    let (v2, d2) = spec_priority_pass(v1, b1 as nat, d1);
    assert(spec_router(v).evq == v2.evq);
    assert forall|c: int| 0 <= c < 4 implies front_taken(#[trigger] spec_router(v).evq[c], v.evq[c]) by {
        lemma_front_taken_trans(v2.evq[c], v1.evq[c], v.evq[c]);
    }
}

fn event_router_step(state: &mut KernelState)
    requires
        old(state).wf(),
    ensures
        final(state).wf(),
        final(state)@ == spec_router(old(state)@),
{
    let mut budget: u16 = EVQ_DRAIN_BUDGET;
    let mut drained: [u16; 4] = [0u16; 4];
    assert(drained@ =~= seq![0u16, 0u16, 0u16, 0u16]);

    let mut class: usize = 0;
    while class < EC_COUNT
        invariant
            class <= EC_COUNT,
            state.wf(),
            old(state)@.evq.len() == 4,
            state@ == spec_quota_pass(old(state)@, class as nat).0,
            budget as int == spec_quota_pass(old(state)@, class as nat).1,
            drained@ == spec_quota_pass(old(state)@, class as nat).2,
        decreases EC_COUNT - class,
    {
        let ghost vstart = state@;
        let ghost bstart = budget;
        let ghost dstart = drained@;
        let mut q: u16 = 0;
        proof {
            lemma_quota_shape(old(state)@, class as nat);
            assert(drained@ =~= dstart.update(class as int, 0));
        }
        while q < evq_drain_quota(class) && budget > 0
            invariant
                class < EC_COUNT,
                state.wf(),
                vstart.evq.len() == 4,
                q <= EVQ_DRAIN_QUOTA_PER_CLASS,
                q <= vstart.evq[class as int].len(),
                budget == bstart - q,
                state@ == spec_serve_n(vstart, class as int, q as nat),
                drained@ == dstart.update(class as int, q),
                dstart.len() == 4,
                dstart[class as int] == 0,
            ensures
                state@ == spec_serve_n(vstart, class as int, q as nat),
                q as int == min3(EVQ_DRAIN_QUOTA_PER_CLASS as int, bstart as int, vstart.evq[class as int].len() as int),
                budget == bstart - q,
                drained@ == dstart.update(class as int, q),
                state.wf(),
            decreases EVQ_DRAIN_QUOTA_PER_CLASS - q,
        {
            proof { lemma_serve_n(vstart, class as int, q as nat); }
            let popped = evq_pop(state, class);
            match popped {
                None => {
                    break;
                },
                Some(frame) => {
                    process_frame(state, class, frame);
                    drained[class] = drained[class] + 1;
                    budget = budget - 1;
                    q = q + 1;
                    proof {
                        assert(drained@ =~= dstart.update(class as int, q));
                    }
                },
            }
        }
        class += 1;
    }

    let ghost v1 = state@;
    let ghost d1 = drained@;
    let ghost b1 = budget;
    while budget > 0
        invariant
            state.wf(),
            state@.evq.len() == 4,
            spec_priority_pass(state@, budget as nat, drained@) == spec_priority_pass(v1, b1 as nat, d1),
        ensures
            state.wf(),
            (state@, drained@) == spec_priority_pass(v1, b1 as nat, d1),
        decreases budget,
    {
        let ghost vb = state@;
        let ghost db = drained@;
        proof { lemma_first_nonempty(vb.evq, 0); }
        let picked = serve_most_urgent(state, &mut drained);
        if !picked {
            break;
        }
        proof { lemma_serve(vb, spec_first_nonempty(vb.evq, 0) as int); }
        budget = budget - 1;
    }

    update_starvation(state, &drained);
}

// ---------------------------------------------------------------------
// Wake-up pass and scheduler
// ---------------------------------------------------------------------

/// The wake-up decision for task `i`: a blocked waiter whose awaited events
/// are pending is woken by match; a blocked sleeper whose deadline tick has
/// been reached becomes ready.
pub open spec fn spec_wake_one(v: KernelView, i: int) -> KernelView {
    if v.tasks[i] == TaskState::Blocked {
        if v.wait_mask[i] != 0 {
            let matched = v.pending_evt[i] & v.wait_mask[i];
            if matched != 0 { spec_wake_by_match(v, i as u8, matched, false) } else { v }
        } else {
            let until = v.sleep_until[i];
            if until != SLEEP_NONE && v.tick >= until {
                let v1 = KernelView { sleep_until: v.sleep_until.update(i, SLEEP_NONE), ..v };
                let v2 = spec_set_state(v1, i as u8, TaskState::Ready);
                KernelView { woke: v2.woke.wrapping_add(1), log: v2.log.push(LogRecord::Wake { id: i as u8 }), ..v2 }
            } else {
                v
            }
        }
    } else {
        v
    }
}

pub open spec fn spec_wakeup(v: KernelView, n: nat) -> KernelView
    decreases n,
{
    if n == 0 { v } else { spec_wake_one(spec_wakeup(v, (n - 1) as nat), n - 1) }
}

proof fn lemma_wakeup_frame(v: KernelView, n: nat)
    ensures
        spec_wakeup(v, n).task_count == v.task_count,
        spec_wakeup(v, n).tick == v.tick,
    decreases n,
{
    if n > 0 {
        lemma_wakeup_frame(v, (n - 1) as nat);
    }
}

fn wakeup_step(state: &mut KernelState)
    requires
        old(state).wf(),
    ensures
        final(state).wf(),
        final(state)@ == spec_wakeup(old(state)@, spec_task_scan(old(state)@) as nat),
{
    let count: usize = if (state.task_count as usize) < MAX_TASKS { state.task_count as usize } else { MAX_TASKS };
    let mut i: usize = 0;
    while i < count
        invariant
            i <= count,
            count == spec_task_scan(old(state)@),
            state.wf(),
            state@ == spec_wakeup(old(state)@, i as nat),
            state.task_count == old(state).task_count,
        decreases count - i,
    {
        proof { lemma_wakeup_frame(old(state)@, i as nat); }
        if state.tasks[i] == TaskState::Blocked {
            if state.wait_mask[i] != 0 {
                let matched = state.pending_evt[i] & state.wait_mask[i];
                if matched != 0 {
                    wake_task_by_match(state, i as TaskId, matched, false);
                }
            } else {
                let until = state.sleep_until[i];
                if until != SLEEP_NONE && state.tick >= until {
                    let ghost v0 = state@;
                    state.sleep_until[i] = SLEEP_NONE;
                    let ghost v1 = state@;
                    assert(v1 == KernelView { sleep_until: v0.sleep_until.update(i as int, SLEEP_NONE), ..v0 });
                    task_set_state(state, i as TaskId, TaskState::Ready);
                    let ghost v2 = state@;
                    state.woke = state.woke.wrapping_add(1);
                    assert(state@ == KernelView { woke: v2.woke.wrapping_add(1), ..v2 });
                    log_push(state, LogRecord::Wake { id: i as TaskId });
                }
            }
        }
        i += 1;
    }
}

/// The first `j` in `1..=count` (counting from `from`) such that the task
/// `(cur + j) % count` is ready, or `count + 1` when none is.
pub open spec fn spec_next_ready(v: KernelView, cur: int, count: int, j: int) -> int
    decreases count + 1 - j,
{
    if j > count || count <= 0 {
        count + 1
    } else if v.tasks[(cur + j) % count] == TaskState::Ready {
        j
    } else {
        spec_next_ready(v, cur, count, j + 1)
    }
}

/// Round-robin scheduling: the next ready task after the current one
/// becomes current; nothing changes when no task is ready or the task
/// count is out of range.
pub open spec fn spec_schedule(v: KernelView) -> KernelView {
    let count = v.task_count as int;
    if count == 0 || count > MAX_TASKS {
        v
    } else {
        let j = spec_next_ready(v, v.current_task as int, count, 1);
        if j <= count {
            KernelView { current_task: ((v.current_task as int + j) % count) as u8, ..v }
        } else {
            v
        }
    }
}

proof fn lemma_next_ready(v: KernelView, cur: int, count: int, j: int)
    requires
        0 < count,
        1 <= j <= count + 1,
    ensures
        j <= spec_next_ready(v, cur, count, j) <= count + 1,
        spec_next_ready(v, cur, count, j) <= count ==> v.tasks[(cur + spec_next_ready(v, cur, count, j)) % count] == TaskState::Ready,
    decreases count + 1 - j,
{
    if j <= count && v.tasks[(cur + j) % count] != TaskState::Ready {
        lemma_next_ready(v, cur, count, j + 1);
    }
}

fn scheduler_step(state: &mut KernelState)
    requires
        old(state).wf(),
    ensures
        final(state).wf(),
        final(state)@ == spec_schedule(old(state)@),
{
    if state.task_count == 0 || state.task_count as usize > MAX_TASKS {
        return;
    }
    let count = state.task_count as usize;
    let mut next = state.current_task as usize;
    let mut scanned: usize = 0;
    let ghost cur = state.current_task as int;
    while scanned < count
        invariant
            0 < count <= MAX_TASKS,
            count == old(state).task_count,
            scanned <= count,
            *state == *old(state),
            old(state).wf(),
            cur == old(state).current_task as int,
            scanned == 0 ==> next == cur,
            scanned > 0 ==> next as int == (cur + scanned) % (count as int),
            spec_next_ready(old(state)@, cur, count as int, 1) == spec_next_ready(old(state)@, cur, count as int, scanned as int + 1),
        decreases count - scanned,
    {
        assert((next as int + 1) % (count as int) == (cur + scanned + 1) % (count as int)) by {
            if scanned > 0 {
                assert(((cur + scanned) % (count as int) + 1) % (count as int) == (cur + scanned + 1) % (count as int)) by (nonlinear_arith)
                    requires count > 0, cur >= 0, scanned >= 0;
            }
        }
        next = (next + 1) % count;
        if state.tasks[next] == TaskState::Ready {
            state.current_task = next as TaskId;
            return;
        }
        scanned += 1;
    }
}

// ---------------------------------------------------------------------
// Latency, deadlines and budgeted dispatch
// ---------------------------------------------------------------------

pub open spec fn spec_slot_to_evt(slot: int) -> u32 {
    if slot == SLOT_TIMER { EVT_TIMER } else if slot == SLOT_FAB { EVT_FAB } else if slot == SLOT_BUS { EVT_BUS } else { EVT_LOG }
}

fn slot_to_evt(slot: usize) -> (r: u32)
    ensures
        r == spec_slot_to_evt(slot as int),
{
    if slot == SLOT_TIMER {
        EVT_TIMER
    } else if slot == SLOT_FAB {
        EVT_FAB
    } else if slot == SLOT_BUS {
        EVT_BUS
    } else {
        EVT_LOG
    }
}

fn slot_deadline(slot: usize) -> (r: u16)
    ensures
        r == spec_slot_deadline(slot as int),
{
    if slot == SLOT_TIMER {
        DL_TIMER
    } else if slot == SLOT_BUS {
        DL_BUS
    } else if slot == SLOT_FAB {
        DL_FAB
    } else {
        DL_LOG
    }
}

/// Latency of a delivery stamped `mb_tick`, observed at `now_tick`:
/// zero when the stamp is in the future, saturating at `u16::MAX`.
pub open spec fn spec_slot_latency(now_tick: u64, mb_tick: u32) -> u16 {
    let lat: int = if now_tick >= mb_tick { now_tick - mb_tick } else { 0 };
    if lat > 0xFFFF { 0xFFFF } else { lat as u16 }
}

fn slot_latency(now_tick: u64, mb_tick: u32) -> (r: u16)
    ensures
        r == spec_slot_latency(now_tick, mb_tick),
{
    let lat = if now_tick >= mb_tick as u64 { now_tick - mb_tick as u64 } else { 0 };
    if lat > 0xFFFF {
        0xFFFF
    } else {
        lat as u16
    }
}

pub open spec fn sat_inc16(x: u16) -> u16 {
    if x < 0xFFFF { (x + 1) as u16 } else { 0xFFFF }
}

/// Deadline accounting for one observed latency on `slot`. Every
/// violation is counted; TIMER and FAB violations refresh the throttled
/// log stamp; BUS and LOG violations feed a window (count, maximum, start)
/// that is summarised and reset once it spans the window length. Refreshing
/// a stamp reports the violation of task `id`; a summary is reported when
/// the window held violations.
pub open spec fn spec_deadline(v: KernelView, id: u8, slot: int, lat: u16) -> KernelView {
    let dl = spec_slot_deadline(slot);
    if lat <= dl {
        v
    } else {
        let v1 = KernelView { lat_viol: v.lat_viol.update(slot, sat_inc16(v.lat_viol[slot])), ..v };
        let now = v.tick as u32;
        if slot == SLOT_TIMER || slot == SLOT_FAB {
            if now.wrapping_sub(v1.dl_last_log_tick[slot]) >= DL_LOG_THROTTLE_TICKS {
                KernelView {
                    dl_last_log_tick: v1.dl_last_log_tick.update(slot, now),
                    log: v1.log.push(LogRecord::DeadlineViolation { slot: slot as usize, lat, dl, id }),
                    ..v1
                }
            } else {
                v1
            }
        } else {
            let v2 = if v1.dl_win_start_tick[slot] == 0 {
                KernelView { dl_win_start_tick: v1.dl_win_start_tick.update(slot, now), ..v1 }
            } else { v1 };
            let v3 = KernelView { dl_win_viol: v2.dl_win_viol.update(slot, sat_inc16(v2.dl_win_viol[slot])), ..v2 };
            let v4 = if lat > v3.dl_win_max[slot] {
                KernelView { dl_win_max: v3.dl_win_max.update(slot, lat), ..v3 }
            } else { v3 };
            let v5 = if v4.dl_win_viol[slot] == 1 && now.wrapping_sub(v4.dl_last_log_tick[slot]) >= DL_LOG_MIN_PERIOD_TICKS {
                KernelView {
                    dl_last_log_tick: v4.dl_last_log_tick.update(slot, now),
                    log: v4.log.push(LogRecord::DeadlineViolation { slot: slot as usize, lat, dl, id }),
                    ..v4
                }
            } else { v4 };
            let t0 = v5.dl_win_start_tick[slot];
            if now.wrapping_sub(t0) >= DL_LOG_WINDOW_TICKS {
                KernelView {
                    dl_win_viol: v5.dl_win_viol.update(slot, 0),
                    dl_win_max: v5.dl_win_max.update(slot, 0),
                    dl_win_start_tick: v5.dl_win_start_tick.update(slot, now),
                    log: if v5.dl_win_viol[slot] > 0 {
                        v5.log.push(LogRecord::DeadlineSummary {
                            slot: slot as usize, win_viol: v5.dl_win_viol[slot], win_max: v5.dl_win_max[slot], dl, t0, t1: now,
                        })
                    } else {
                        v5.log
                    },
                    ..v5
                }
            } else {
                v5
            }
        }
    }
}

fn maybe_log_deadline_violation(state: &mut KernelState, id: TaskId, slot: usize, lat: u16)
    requires
        old(state).wf(),
        slot < EVT_SLOTS,
    ensures
        final(state).wf(),
        final(state)@ == spec_deadline(old(state)@, id, slot as int, lat),
{
    let dl = slot_deadline(slot);
    if lat <= dl {
        return;
    }
    state.lat_viol[slot] = state.lat_viol[slot].saturating_add(1);

    let now = state.tick as u32;
    if slot == SLOT_TIMER || slot == SLOT_FAB {
        let last = state.dl_last_log_tick[slot];
        if now.wrapping_sub(last) >= DL_LOG_THROTTLE_TICKS {
            state.dl_last_log_tick[slot] = now;
            log_push(state, LogRecord::DeadlineViolation { slot, lat, dl, id });
        }
        return;
    }

    if state.dl_win_start_tick[slot] == 0 {
        state.dl_win_start_tick[slot] = now;
    }
    state.dl_win_viol[slot] = state.dl_win_viol[slot].saturating_add(1);
    if lat > state.dl_win_max[slot] {
        state.dl_win_max[slot] = lat;
    }

    if state.dl_win_viol[slot] == 1 {
        let last = state.dl_last_log_tick[slot];
        if now.wrapping_sub(last) >= DL_LOG_MIN_PERIOD_TICKS {
            state.dl_last_log_tick[slot] = now;
            log_push(state, LogRecord::DeadlineViolation { slot, lat, dl, id });
        }
    }

    let t0 = state.dl_win_start_tick[slot];
    if now.wrapping_sub(t0) >= DL_LOG_WINDOW_TICKS {
        if state.dl_win_viol[slot] > 0 {
            log_push(state, LogRecord::DeadlineSummary {
                slot, win_viol: state.dl_win_viol[slot], win_max: state.dl_win_max[slot], dl, t0, t1: now,
            });
        }
        state.dl_win_viol[slot] = 0;
        state.dl_win_max[slot] = 0;
        state.dl_win_start_tick[slot] = now;
    }
}

pub open spec fn sat_add16(x: u16, y: u16) -> u16 {
    if x + y > 0xFFFF { 0xFFFF } else { (x + y) as u16 }
}

/// Latency bookkeeping for a dispatch on `slot` with observed `lat`:
/// last latency, running maximum, then deadline accounting.
pub open spec fn spec_record_latency(v: KernelView, id: u8, slot: int, lat: u16) -> KernelView {
    let v1 = KernelView { lat_last: v.lat_last.update(slot, lat), ..v };
    let v2 = if lat > v1.lat_max[slot] { KernelView { lat_max: v1.lat_max.update(slot, lat), ..v1 } } else { v1 };
    spec_deadline(v2, id, slot, lat)
}

/// One fast-lane service of task `i`'s TIMER slot: takes up to the crit
/// budget from the counter, accounts it and reports it, and clears the
/// slot once empty.
pub open spec fn spec_crit_step(v: KernelView, i: int) -> (KernelView, u8) {
    let cnt = v.mb_cnt[i][SLOT_TIMER as int];
    let take: u8 = if cnt < CRIT_DISPATCH_BUDGET { cnt } else { CRIT_DISPATCH_BUDGET };
    let left = (cnt - take) as u8;
    let v1 = KernelView {
        mb_cnt: v.mb_cnt.update(i, v.mb_cnt[i].update(SLOT_TIMER as int, left)),
        handled_cnt: v.handled_cnt.update(i, v.handled_cnt[i].update(SLOT_TIMER as int,
            sat_add16(v.handled_cnt[i][SLOT_TIMER as int], take as u16))),
        ..v
    };
    let lat = spec_slot_latency(v.tick, v.mb_tick[i][SLOT_TIMER as int]);
    let v2a = spec_record_latency(v1, i as u8, SLOT_TIMER as int, lat);
    let v2 = KernelView { log: v2a.log.push(LogRecord::CritDispatch { id: i as u8, n_done: take, lat }), ..v2a };
    let v3 = if left == 0 {
        KernelView {
            mb_evt: v2.mb_evt.update(i, v2.mb_evt[i] & !EVT_TIMER),
            mb_src: v2.mb_src.update(i, v2.mb_src[i].update(SLOT_TIMER as int, 0)),
            mb_payload: v2.mb_payload.update(i, v2.mb_payload[i].update(SLOT_TIMER as int, 0)),
            mb_tick: v2.mb_tick.update(i, v2.mb_tick[i].update(SLOT_TIMER as int, 0)),
            ..v2
        }
    } else { v2 };
    (v3, take)
}

/// The CRIT fast lane for task `id`: nothing unless the task exists and
/// has TIMER mail; otherwise one bounded service step.
pub open spec fn spec_dispatch_crit(v: KernelView, id: u8) -> (KernelView, u8) {
    if id >= v.task_count || v.mb_cnt[id as int][SLOT_TIMER as int] == 0 {
        (v, 0)
    } else {
        spec_crit_step(v, id as int)
    }
}

proof fn lemma_deadline_frame(v: KernelView, id: u8, slot: int, lat: u16)
    ensures
        spec_deadline(v, id, slot, lat).mb_cnt == v.mb_cnt,
        spec_deadline(v, id, slot, lat).mb_tick == v.mb_tick,
        spec_deadline(v, id, slot, lat).tick == v.tick,
        spec_deadline(v, id, slot, lat).task_count == v.task_count,
{
}

#[verifier::rlimit(40)]
fn record_latency(state: &mut KernelState, id: TaskId, slot: usize, lat: u16)
    requires
        old(state).wf(),
        slot < EVT_SLOTS,
    ensures
        final(state).wf(),
        final(state)@ == spec_record_latency(old(state)@, id, slot as int, lat),
{
    state.lat_last[slot] = lat;
    if lat > state.lat_max[slot] {
        state.lat_max[slot] = lat;
    }
    maybe_log_deadline_violation(state, id, slot, lat);
}

fn task_dispatch_crit(state: &mut KernelState, id: TaskId) -> (done: u8)
    requires
        old(state).wf(),
    ensures
        final(state).wf(),
        (final(state)@, done) == spec_dispatch_crit(old(state)@, id),
{
    if id >= state.task_count {
        return 0;
    }
    let idx = id as usize;
    if state.mb_cnt[idx][SLOT_TIMER] == 0 {
        return 0;
    }

    let mut slots_used: u8 = 0;
    let mut done: u8 = 0;
    while slots_used < CRIT_DISPATCH_MAX_SLOTS_PER_TICK && done < CRIT_DISPATCH_BUDGET
        invariant
            idx == id,
            idx < MAX_TASKS,
            state.wf(),
            old(state).mb_cnt@[idx as int]@[SLOT_TIMER as int] > 0,
            slots_used <= 1,
            slots_used == 0 ==> state@ == old(state)@ && done == 0,
            slots_used == 1 ==> (state@, done) == spec_crit_step(old(state)@, idx as int),
        ensures
            state.wf(),
            (state@, done) == spec_crit_step(old(state)@, idx as int),
        decreases 1 - slots_used,
    {
        let cnt = state.mb_cnt[idx][SLOT_TIMER];
        if cnt == 0 {
            break;
        }
        let room = CRIT_DISPATCH_BUDGET - done;
        let take = if cnt < room { cnt } else { room };
        let ghost v0 = state@;
        state.mb_cnt[idx][SLOT_TIMER] = cnt - take;
        done = done + take;
        slots_used = slots_used + 1;
        state.handled_cnt[idx][SLOT_TIMER] = state.handled_cnt[idx][SLOT_TIMER].saturating_add(take as u16);
        proof {
            assert(table_view(state.mb_cnt) =~= v0.mb_cnt.update(idx as int, v0.mb_cnt[idx as int].update(SLOT_TIMER as int, (cnt - take) as u8)));
            assert(table_view(state.handled_cnt) =~= v0.handled_cnt.update(idx as int, v0.handled_cnt[idx as int].update(SLOT_TIMER as int,
                sat_add16(v0.handled_cnt[idx as int][SLOT_TIMER as int], take as u16))));
        }
        let lat = slot_latency(state.tick, state.mb_tick[idx][SLOT_TIMER]);
        let ghost v1 = state@;
        record_latency(state, id, SLOT_TIMER, lat);
        log_push(state, LogRecord::CritDispatch { id, n_done: take, lat });
        proof {
            let w = KernelView { lat_last: v1.lat_last.update(SLOT_TIMER as int, lat), ..v1 };
            let w2 = if lat > w.lat_max[SLOT_TIMER as int] { KernelView { lat_max: w.lat_max.update(SLOT_TIMER as int, lat), ..w } } else { w };
            lemma_deadline_frame(w2, id, SLOT_TIMER as int, lat);
            assert(state@.mb_cnt == v1.mb_cnt);
            assert(v1.mb_cnt[idx as int][SLOT_TIMER as int] == (cnt - take) as u8);
        }

        if state.mb_cnt[idx][SLOT_TIMER] == 0 {
            let ghost v2 = state@;
            state.mb_evt[idx] = state.mb_evt[idx] & !EVT_TIMER;
            state.mb_src[idx][SLOT_TIMER] = 0;
            state.mb_payload[idx][SLOT_TIMER] = 0;
            state.mb_tick[idx][SLOT_TIMER] = 0;
            proof {
                assert(table_view(state.mb_src) =~= v2.mb_src.update(idx as int, v2.mb_src[idx as int].update(SLOT_TIMER as int, 0)));
                assert(table_view(state.mb_payload) =~= v2.mb_payload.update(idx as int, v2.mb_payload[idx as int].update(SLOT_TIMER as int, 0)));
                assert(table_view(state.mb_tick) =~= v2.mb_tick.update(idx as int, v2.mb_tick[idx as int].update(SLOT_TIMER as int, 0)));
                assert(state@.evq =~= v2.evq);
            }
        }
    }
    done
}

/// Dispatch order of mailbox slots: TIMER, FAB, BUS, LOG.
pub open spec fn spec_order(oi: int) -> int {
    if oi == 0 { SLOT_TIMER as int } else if oi == 1 { SLOT_FAB as int } else if oi == 2 { SLOT_BUS as int } else { SLOT_LOG as int }
}

fn order(oi: usize) -> (r: usize)
    ensures
        r == spec_order(oi as int),
        r < EVT_SLOTS,
{
    if oi == 0 {
        SLOT_TIMER
    } else if oi == 1 {
        SLOT_FAB
    } else if oi == 2 {
        SLOT_BUS
    } else {
        SLOT_LOG
    }
}

/// The budgeted dispatch loop from position `oi` of the slot order: each
/// slot that has mail takes as much of the remaining budget as its count
/// allows, until the budget or the per-tick slot limit is exhausted.
/// Yields the state, the remaining counters, budget, slots used and work done.
pub open spec fn spec_dispatch_loop(
    v: KernelView, i: int, mask: u32, cnt: Seq<u8>, ticks: Seq<u32>, budget_left: u8, slots_used: u8, done: u8, oi: nat,
) -> (KernelView, Seq<u8>, u8, u8, u8)
    decreases 4 - oi,
{
    if oi >= 4 || budget_left == 0 || slots_used >= TASK_DISPATCH_MAX_SLOTS_PER_TICK {
        (v, cnt, budget_left, slots_used, done)
    } else {
        let slot = spec_order(oi as int);
        if mask & spec_slot_to_evt(slot) != 0 && cnt[slot] != 0 {
            let take: u8 = if cnt[slot] < budget_left { cnt[slot] } else { budget_left };
            let v1 = KernelView {
                handled_cnt: v.handled_cnt.update(i, v.handled_cnt[i].update(slot, sat_add16(v.handled_cnt[i][slot], take as u16))),
                ..v
            };
            let v2 = spec_record_latency(v1, i as u8, slot, spec_slot_latency(v.tick, ticks[slot]));
            spec_dispatch_loop(v2, i, mask, cnt.update(slot, (cnt[slot] - take) as u8), ticks,
                (budget_left - take) as u8, (slots_used + 1) as u8, (done + take) as u8, oi + 1)
        } else {
            spec_dispatch_loop(v, i, mask, cnt, ticks, budget_left, slots_used, done, oi + 1)
        }
    }
}

/// Mask of the slots whose counter (among the first `n`) is non-zero.
pub open spec fn spec_rem_mask(cnt: Seq<u8>, n: nat) -> u32
    decreases n,
{
    if n == 0 {
        0
    } else if cnt[n - 1] != 0 {
        spec_rem_mask(cnt, (n - 1) as nat) | spec_slot_to_evt(n - 1)
    } else {
        spec_rem_mask(cnt, (n - 1) as nat)
    }
}

/// The per-slot report so far matches the counters: each slot's work is
/// what its counter lost, its latency is set once it was served, and the
/// slots from position `oi` of the order on are untouched.
pub open spec fn dispatch_progress(
    before: Seq<u8>, after: Seq<u8>, now: u64, ticks: Seq<u32>, oi: int,
    done_bus: u8, done_fab: u8, done_log: u8, lat_timer: u16, lat_bus: u16, lat_fab: u16, lat_log: u16,
) -> bool {
    &&& forall|s: int| 0 <= s < 4 ==> #[trigger] after[s] <= before[s]
    &&& forall|k: int| oi <= k < 4 ==> after[spec_order(k)] == before[spec_order(k)]
    &&& done_bus == slot_done(before, after, SLOT_BUS as int)
    &&& done_fab == slot_done(before, after, SLOT_FAB as int)
    &&& done_log == slot_done(before, after, SLOT_LOG as int)
    &&& lat_timer == slot_lat(before, after, now, ticks, SLOT_TIMER as int)
    &&& lat_bus == slot_lat(before, after, now, ticks, SLOT_BUS as int)
    &&& lat_fab == slot_lat(before, after, now, ticks, SLOT_FAB as int)
    &&& lat_log == slot_lat(before, after, now, ticks, SLOT_LOG as int)
}

/// Serving the slot at position `oi` of the order with `take` events keeps
/// the report in step with the counters.
proof fn lemma_progress_serve(
    before: Seq<u8>, after: Seq<u8>, now: u64, ticks: Seq<u32>, oi: int,
    db: u8, df: u8, dl: u8, lt: u16, lb: u16, lf: u16, ll: u16, take: u8,
)
    requires
        before.len() == 4,
        after.len() == 4,
        0 <= oi < 4,
        dispatch_progress(before, after, now, ticks, oi, db, df, dl, lt, lb, lf, ll),
        0 < take <= after[spec_order(oi)],
    ensures
        ({
            let slot = spec_order(oi);
            let a2 = after.update(slot, (after[slot] - take) as u8);
            let lat = spec_slot_latency(now, ticks[slot]);
            &&& slot == SLOT_BUS ==> db == 0
            &&& slot == SLOT_FAB ==> df == 0
            &&& slot == SLOT_LOG ==> dl == 0
            &&& dispatch_progress(before, a2, now, ticks, oi + 1,
                if slot == SLOT_BUS { take } else { db },
                if slot == SLOT_FAB { take } else { df },
                if slot == SLOT_LOG { take } else { dl },
                if slot == SLOT_TIMER { lat } else { lt },
                if slot == SLOT_BUS { lat } else { lb },
                if slot == SLOT_FAB { lat } else { lf },
                if slot == SLOT_LOG { lat } else { ll })
        }),
{
    let slot = spec_order(oi);
    let a2 = after.update(slot, (after[slot] - take) as u8);
    assert(after[slot] == before[slot]);
    assert forall|k: int| oi + 1 <= k < 4 implies a2[spec_order(k)] == before[spec_order(k)] by {
        assert(spec_order(k) != slot);
        assert(after[spec_order(k)] == before[spec_order(k)]);
    }
    assert forall|t: int| 0 <= t < 4 implies #[trigger] a2[t] <= before[t] by {
        assert(after[t] <= before[t]);
    }
}

/// Events handled on `slot`: what its counter lost.
pub open spec fn slot_done(before: Seq<u8>, after: Seq<u8>, slot: int) -> u8 {
    (before[slot] - after[slot]) as u8
}

/// The latency observed on `slot` when it was served, else 0.
pub open spec fn slot_lat(before: Seq<u8>, after: Seq<u8>, now: u64, ticks: Seq<u32>, slot: int) -> u16 {
    if after[slot] < before[slot] { spec_slot_latency(now, ticks[slot]) } else { 0 }
}

/// The report of a dispatch that handled `done` events: the per-slot work
/// and latencies, from the counters before and after.
pub open spec fn dispatch_record(
    id: u8, mask: u32, done: u8, before: Seq<u8>, after: Seq<u8>, now: u64, ticks: Seq<u32>,
) -> LogRecord {
    LogRecord::Dispatch {
        id, mask, done,
        bus_done: slot_done(before, after, SLOT_BUS as int),
        fab_done: slot_done(before, after, SLOT_FAB as int),
        log_done: slot_done(before, after, SLOT_LOG as int),
        lat_timer: slot_lat(before, after, now, ticks, SLOT_TIMER as int),
        lat_bus: slot_lat(before, after, now, ticks, SLOT_BUS as int),
        lat_fab: slot_lat(before, after, now, ticks, SLOT_FAB as int),
        lat_log: slot_lat(before, after, now, ticks, SLOT_LOG as int),
    }
}

/// Budgeted mailbox dispatch for task `id`: the mailbox is taken; slots
/// are served in TIMER, FAB, BUS, LOG order within `budget` and at most
/// two slots; unserved counts are put back with their source, payload and
/// tick; an overflow seen in the taken mailbox is counted and reported
/// once; a dispatch that handled events is reported.
pub open spec fn spec_dispatch_mail(v: KernelView, id: u8, budget: u8) -> (KernelView, u8) {
    if id >= v.task_count || budget == 0 {
        (v, 0)
    } else {
        let i = id as int;
        let mask = v.mb_evt[i];
        let v1 = spec_clear_mail(v, i);
        if mask == 0 {
            (v1, 0)
        } else {
            let (v2, cnt, _bl, _su, done) = spec_dispatch_loop(v1, i, mask, v.mb_cnt[i], v.mb_tick[i], budget, 0, 0, 0);
            let rem = spec_rem_mask(cnt, 4);
            let v3 = if rem != 0 {
                KernelView {
                    mb_evt: v2.mb_evt.update(i, rem),
                    mb_cnt: v2.mb_cnt.update(i, cnt),
                    mb_src: v2.mb_src.update(i, v.mb_src[i]),
                    mb_payload: v2.mb_payload.update(i, v.mb_payload[i]),
                    mb_tick: v2.mb_tick.update(i, v.mb_tick[i]),
                    ..v2
                }
            } else { v2 };
            let v4 = if v.ovf[i] != 0 {
                KernelView {
                    handled_ovf: v3.handled_ovf.update(i, sat_inc16(v3.handled_ovf[i])),
                    log: v3.log.push(LogRecord::TaskOvfSeen { id, ovf_mask: v.ovf[i] }),
                    ..v3
                }
            } else { v3 };
            let v5 = if done > 0 {
                KernelView { log: v4.log.push(dispatch_record(id, mask, done, v.mb_cnt[i], cnt, v.tick, v.mb_tick[i])), ..v4 }
            } else { v4 };
            (v5, done)
        }
    }
}

proof fn lemma_dispatch_loop_bounds(
    v: KernelView, i: int, mask: u32, cnt: Seq<u8>, ticks: Seq<u32>, budget_left: u8, slots_used: u8, done: u8, oi: nat,
)
    requires
        cnt.len() == 4,
        done as int + budget_left as int <= 255,
    ensures
        ({
            let r = spec_dispatch_loop(v, i, mask, cnt, ticks, budget_left, slots_used, done, oi);
            &&& r.1.len() == 4
            &&& r.4 as int + r.2 as int == done as int + budget_left as int
            &&& r.0.mb_cnt == v.mb_cnt
            &&& r.0.mb_tick == v.mb_tick
            &&& r.0.mb_src == v.mb_src
            &&& r.0.mb_payload == v.mb_payload
            &&& r.0.mb_evt == v.mb_evt
            &&& r.0.handled_ovf == v.handled_ovf
            &&& r.0.tick == v.tick
            &&& r.0.task_count == v.task_count
        }),
    decreases 4 - oi,
{
    if !(oi >= 4 || budget_left == 0 || slots_used >= TASK_DISPATCH_MAX_SLOTS_PER_TICK) {
        let slot = spec_order(oi as int);
        if mask & spec_slot_to_evt(slot) != 0 && cnt[slot] != 0 {
            let take: u8 = if cnt[slot] < budget_left { cnt[slot] } else { budget_left };
            let v1 = KernelView {
                handled_cnt: v.handled_cnt.update(i, v.handled_cnt[i].update(slot, sat_add16(v.handled_cnt[i][slot], take as u16))),
                ..v
            };
            let v2 = spec_record_latency(v1, i as u8, slot, spec_slot_latency(v.tick, ticks[slot]));
            lemma_dispatch_loop_bounds(v2, i, mask, cnt.update(slot, (cnt[slot] - take) as u8), ticks,
                (budget_left - take) as u8, (slots_used + 1) as u8, (done + take) as u8, oi + 1);
        } else {
            lemma_dispatch_loop_bounds(v, i, mask, cnt, ticks, budget_left, slots_used, done, oi + 1);
        }
    }
}

/// Bounded work per tick: a mailbox dispatch handles at most its budget of
/// events.
pub proof fn lemma_dispatch_within_budget(v: KernelView, id: u8, budget: u8)
    requires
        v.mb_cnt.len() == MAX_TASKS,
        forall|i: int| 0 <= i < v.mb_cnt.len() ==> (#[trigger] v.mb_cnt[i]).len() == EVT_SLOTS,
        v.task_count <= MAX_TASKS,
    ensures
        spec_dispatch_mail(v, id, budget).1 <= budget,
{
    if !(id >= v.task_count || budget == 0) {
        let i = id as int;
        let mask = v.mb_evt[i];
        let v1 = spec_clear_mail(v, i);
        if mask != 0 {
            lemma_dispatch_loop_bounds(v1, i, mask, v.mb_cnt[i], v.mb_tick[i], budget, 0, 0, 0);
        }
    }
}

fn task_dispatch_mail(state: &mut KernelState, id: TaskId, budget: u8) -> (done_total: u8)
    requires
        old(state).wf(),
    ensures
        final(state).wf(),
        (final(state)@, done_total) == spec_dispatch_mail(old(state)@, id, budget),
{
    if id >= state.task_count || budget == 0 {
        return 0;
    }

    let idx = id as usize;
    let (mask, cnt0, ovf_mask, src, payload, tick) = task_take_mail_ex(state, id);
    if mask == 0 {
        return 0;
    }
    let mut cnt = cnt0;

    let mut budget_left = budget;
    let mut slots_used: u8 = 0;
    let mut done_total: u8 = 0;
    let mut done_bus: u8 = 0;
    let mut done_fab: u8 = 0;
    let mut done_log: u8 = 0;
    let mut lat_timer: u16 = 0;
    let mut lat_bus: u16 = 0;
    let mut lat_fab: u16 = 0;
    let mut lat_log: u16 = 0;

    let ghost v1 = state@;
    let mut oi: usize = 0;
    proof { lemma_dispatch_loop_bounds(v1, idx as int, mask, cnt@, tick@, budget, 0, 0, 0); }
    while oi < 4 && budget_left > 0 && slots_used < TASK_DISPATCH_MAX_SLOTS_PER_TICK
        invariant
            idx == id,
            idx < MAX_TASKS,
            oi <= 4,
            state.wf(),
            slots_used <= TASK_DISPATCH_MAX_SLOTS_PER_TICK,
            done_total as int + budget_left as int == budget as int,
            spec_dispatch_loop(state@, idx as int, mask, cnt@, tick@, budget_left, slots_used, done_total, oi as nat)
                == spec_dispatch_loop(v1, idx as int, mask, cnt0@, tick@, budget, 0, 0, 0),
            state@.tick == v1.tick,
            dispatch_progress(cnt0@, cnt@, v1.tick, tick@, oi as int,
                done_bus, done_fab, done_log, lat_timer, lat_bus, lat_fab, lat_log),
        ensures
            state.wf(),
            (state@, cnt@, budget_left, slots_used, done_total)
                == spec_dispatch_loop(v1, idx as int, mask, cnt0@, tick@, budget, 0, 0, 0),
            dispatch_progress(cnt0@, cnt@, v1.tick, tick@, 4,
                done_bus, done_fab, done_log, lat_timer, lat_bus, lat_fab, lat_log),
        decreases 4 - oi,
    {
        let slot = order(oi);
        let bit = slot_to_evt(slot);
        if (mask & bit) != 0 && cnt[slot] != 0 {
            let take = if cnt[slot] < budget_left { cnt[slot] } else { budget_left };
            let ghost vb = state@;
            let ghost old_cnt = cnt@;
            cnt[slot] = cnt[slot] - take;
            budget_left = budget_left - take;
            done_total = done_total + take;
            slots_used = slots_used + 1;
            state.handled_cnt[idx][slot] = state.handled_cnt[idx][slot].saturating_add(take as u16);
            proof {
                assert(table_view(state.handled_cnt) =~= vb.handled_cnt.update(idx as int, vb.handled_cnt[idx as int].update(slot as int,
                    sat_add16(vb.handled_cnt[idx as int][slot as int], take as u16))));
                assert(state@.evq =~= vb.evq);
            }
            let lat = slot_latency(state.tick, tick[slot]);
            let ghost vr = state@;
            record_latency(state, id, slot, lat);
            proof {
                let w = KernelView { lat_last: vr.lat_last.update(slot as int, lat), ..vr };
                let w2 = if lat > w.lat_max[slot as int] { KernelView { lat_max: w.lat_max.update(slot as int, lat), ..w } } else { w };
                lemma_deadline_frame(w2, id, slot as int, lat);
                lemma_progress_serve(cnt0@, old_cnt, v1.tick, tick@, oi as int,
                    done_bus, done_fab, done_log, lat_timer, lat_bus, lat_fab, lat_log, take);
            }
            if slot == SLOT_BUS {
                done_bus = done_bus.saturating_add(take);
                lat_bus = lat;
            } else if slot == SLOT_FAB {
                done_fab = done_fab.saturating_add(take);
                lat_fab = lat;
            } else if slot == SLOT_LOG {
                done_log = done_log.saturating_add(take);
                lat_log = lat;
            } else {
                lat_timer = lat;
            }
            assert(cnt@ =~= old_cnt.update(slot as int, (old_cnt[slot as int] - take) as u8));
        }
        oi += 1;
    }
    let ghost v2 = state@;
    proof { lemma_dispatch_loop_bounds(v1, idx as int, mask, cnt0@, tick@, budget, 0, 0, 0); }

    let mut rem_mask: u32 = 0;
    let mut si: usize = 0;
    while si < EVT_SLOTS
        invariant
            si <= EVT_SLOTS,
            rem_mask == spec_rem_mask(cnt@, si as nat),
        decreases EVT_SLOTS - si,
    {
        if cnt[si] != 0 {
            rem_mask = rem_mask | slot_to_evt(si);
        }
        si += 1;
    }
    if rem_mask != 0 {
        state.mb_evt[idx] = rem_mask;
        state.mb_cnt[idx] = cnt;
        state.mb_src[idx] = src;
        state.mb_payload[idx] = payload;
        state.mb_tick[idx] = tick;
        proof {
            assert(table_view(state.mb_cnt) =~= v2.mb_cnt.update(idx as int, cnt@));
            assert(table_view(state.mb_src) =~= v2.mb_src.update(idx as int, src@));
            assert(table_view(state.mb_payload) =~= v2.mb_payload.update(idx as int, payload@));
            assert(table_view(state.mb_tick) =~= v2.mb_tick.update(idx as int, tick@));
            assert(state@.evq =~= v2.evq);
        }
    }

    if ovf_mask != 0 {
        state.handled_ovf[idx] = state.handled_ovf[idx].saturating_add(1);
        log_push(state, LogRecord::TaskOvfSeen { id, ovf_mask });
    }
    if done_total > 0 {
        log_push(state, LogRecord::Dispatch {
            id, mask, done: done_total, bus_done: done_bus, fab_done: done_fab, log_done: done_log, lat_timer, lat_bus,
            lat_fab, lat_log,
        });
    }
    done_total
}

// ---------------------------------------------------------------------
// Adaptive budgets and the timer contract
// ---------------------------------------------------------------------

/// Queue pressure: the number of frames held by all classes.
pub open spec fn spec_pressure(v: KernelView) -> int {
    (v.evq[0].len() + v.evq[1].len() + v.evq[2].len() + v.evq[3].len()) as int
}

/// The dispatch budgets (task 0, 1, 2) chosen for the current pressure and
/// latencies: high pressure (>= 12) moves budget from task 1 to task 2, low
/// pressure (<= 2) trims task 1; BUS/LOG latency over deadline boosts task
/// 2 by two; a non-empty CRIT queue boosts task 0 by one; all capped at 8.
/// The queued frames as the budget report counts them (saturating).
pub open spec fn spec_pressure_u16(v: KernelView) -> u16 {
    sat_add16(sat_add16(sat_add16(v.evq[0].len() as u16, v.evq[1].len() as u16), v.evq[2].len() as u16), v.evq[3].len() as u16)
}

pub open spec fn spec_budgets(v: KernelView) -> (u8, u8, u8) {
    let p = spec_pressure(v);
    let (b1, b2a): (u8, u8) = if p >= 12 { (2, 6) } else if p <= 2 { (2, 4) } else { (4, 4) };
    let b2: u8 = if v.lat_last[SLOT_BUS as int] > DL_BUS || v.lat_last[SLOT_LOG as int] > DL_LOG {
        if b2a + 2 < 8 { (b2a + 2) as u8 } else { 8 }
    } else { b2a };
    let b0: u8 = if v.evq[EC_CRIT as int].len() > 0 { 5 } else { 4 };
    (b0, b1, b2)
}

pub open spec fn spec_adaptive_budget(v: KernelView) -> KernelView {
    let (b0, b1, b2) = spec_budgets(v);
    let changed = v.dispatch_budget[0] != b0 || v.dispatch_budget[1] != b1 || v.dispatch_budget[2] != b2;
    let v1 = KernelView { dispatch_budget: v.dispatch_budget.update(0, b0).update(1, b1).update(2, b2), ..v };
    let now = v.tick as u32;
    let since = now.wrapping_sub(v.dispatch_budget_last_log);
    if (changed && since >= 16) || since >= 256 {
        KernelView {
            dispatch_budget_last_log: now,
            log: v1.log.push(LogRecord::Budget { pressure: spec_pressure_u16(v), b0, b1, b2 }),
            ..v1
        }
    } else {
        v1
    }
}

fn adaptive_budget_step(state: &mut KernelState)
    requires
        old(state).wf(),
    ensures
        final(state).wf(),
        final(state)@ == spec_adaptive_budget(old(state)@),
{
    let pressure = state.evq_len[EC_CRIT]
        .saturating_add(state.evq_len[EC_HIGH])
        .saturating_add(state.evq_len[EC_NORM])
        .saturating_add(state.evq_len[EC_LOW]);

    let mut b0 = TASK_DISPATCH_BUDGET;
    let mut b1 = TASK_DISPATCH_BUDGET;
    let mut b2 = TASK_DISPATCH_BUDGET;

    if pressure >= 12 {
        b1 = TASK_DISPATCH_BUDGET_MIN;
        b2 = if TASK_DISPATCH_BUDGET + 2 < TASK_DISPATCH_BUDGET_MAX { TASK_DISPATCH_BUDGET + 2 } else { TASK_DISPATCH_BUDGET_MAX };
    } else if pressure <= 2 {
        b1 = TASK_DISPATCH_BUDGET_MIN;
        b2 = TASK_DISPATCH_BUDGET;
    }

    if state.lat_last[SLOT_BUS] > DL_BUS || state.lat_last[SLOT_LOG] > DL_LOG {
        b2 = if b2 + 2 < TASK_DISPATCH_BUDGET_MAX { b2 + 2 } else { TASK_DISPATCH_BUDGET_MAX };
    }
    if state.evq_len[EC_CRIT] > 0 {
        b0 = if b0 + 1 < TASK_DISPATCH_BUDGET_MAX { b0 + 1 } else { TASK_DISPATCH_BUDGET_MAX };
    }

    let changed = state.dispatch_budget[0] != b0
        || state.dispatch_budget[1] != b1
        || state.dispatch_budget[2] != b2;

    state.dispatch_budget[0] = b0;
    state.dispatch_budget[1] = b1;
    state.dispatch_budget[2] = b2;

    let now = state.tick as u32;
    let since = now.wrapping_sub(state.dispatch_budget_last_log);
    if (changed && since >= 16) || since >= 256 {
        state.dispatch_budget_last_log = now;
        log_push(state, LogRecord::Budget { pressure, b0, b1, b2 });
    }
    proof {
        assert(state@.dispatch_budget =~= old(state)@.dispatch_budget.update(0, b0).update(1, b1).update(2, b2));
        assert(state@.evq =~= old(state)@.evq);
    }
}

/// The timer contract: the tick delta since the previous interrupt tick
/// (1 on the first observation, 0 if time went backwards), missed ticks
/// accumulate `dt - 1` (wrapping), the largest delta is kept, and the
/// runtime tick follows the interrupt tick.
pub open spec fn spec_timer_dt(v: KernelView, irq_tick: u64) -> u64 {
    if v.last_irq_tick == 0 { 1 } else if irq_tick >= v.last_irq_tick { (irq_tick - v.last_irq_tick) as u64 } else { 0 }
}

pub open spec fn spec_timer(v: KernelView, irq_tick: u64) -> KernelView {
    let dt = spec_timer_dt(v, irq_tick);
    KernelView {
        missed: if dt > 1 { v.missed.wrapping_add((dt - 1) as u64) } else { v.missed },
        max_dt: if dt > v.max_dt { dt } else { v.max_dt },
        last_irq_tick: irq_tick,
        tick: irq_tick,
        log: if dt > 50 { v.log.push(LogRecord::Jitter { dt }) } else { v.log },
        ..v
    }
}

pub fn timer_contract_step(state: &mut KernelState, irq_tick: u64) -> (dt: u64)
    requires
        old(state).wf(),
    ensures
        final(state).wf(),
        dt == spec_timer_dt(old(state)@, irq_tick),
        final(state)@ == spec_timer(old(state)@, irq_tick),
{
    let dt = if state.last_irq_tick == 0 {
        1
    } else if irq_tick >= state.last_irq_tick {
        irq_tick - state.last_irq_tick
    } else {
        0
    };

    if dt > 1 {
        state.missed = state.missed.wrapping_add(dt - 1);
    }
    if dt > state.max_dt {
        state.max_dt = dt;
    }
    if dt > 50 {
        log_push(state, LogRecord::Jitter { dt });
    }

    state.last_irq_tick = irq_tick;
    state.tick = irq_tick;
    dt
}

// ---------------------------------------------------------------------
// Raw events into the transport, and the service tasks
// ---------------------------------------------------------------------

/// A raw event passes through the transjector layer and, when some
/// registration turns it into a semantic event, is published and
/// reported.
pub open spec fn spec_tx_publish_raw(v: KernelView, raw: RawEvent) -> KernelView {
    match spec_tx_step(v, raw) {
        Some((tid, out)) => {
            let v1 = spec_publish(v, out.evt_mask, out.src_id, out.payload);
            KernelView { log: v1.log.push(LogRecord::TxOut { tid, evt: out.evt_mask, src: out.src_id, payload: out.payload }), ..v1 }
        },
        None => v,
    }
}

pub fn tx_publish_raw(state: &mut KernelState, raw: RawEvent)
    requires
        old(state).wf(),
    ensures
        final(state).wf(),
        final(state)@ == spec_tx_publish_raw(old(state)@, raw),
{
    if let Some((tid, out)) = tx_step(state, raw) {
        publish_event_ex(state, out.evt_mask, out.src_id, out.payload);
        log_push(state, LogRecord::TxOut { tid, evt: out.evt_mask, src: out.src_id, payload: out.payload });
    }
}

pub open spec fn spec_take_wake(v: KernelView, id: u8) -> (KernelView, u32) {
    if id >= v.task_count {
        (v, 0)
    } else {
        (KernelView { last_wake: v.last_wake.update(id as int, 0), ..v }, v.last_wake[id as int])
    }
}

/// Task 0: CRIT fast lane, then budgeted dispatch.
pub open spec fn spec_log_task(v: KernelView) -> KernelView {
    let v1 = spec_dispatch_crit(v, 0).0;
    spec_dispatch_mail(v1, 0, v1.dispatch_budget[0]).0
}

/// Task 2: budgeted dispatch, consume (and report) wake reasons, count a
/// run, and report liveness every 1024 runs.
pub open spec fn spec_fabric_task(v: KernelView) -> KernelView {
    let v1 = spec_dispatch_mail(v, 2, v.dispatch_budget[2]).0;
    let (v2, wake) = spec_take_wake(v1, 2);
    let v3 = if wake != 0 {
        let w1 = KernelView { log: v2.log.push(LogRecord::TakeWake { id: 2, mask: wake }), ..v2 };
        let (w2, again) = spec_take_wake(w1, 2);
        KernelView { log: w2.log.push(LogRecord::TakeWake { id: 2, mask: again }), ..w2 }
    } else {
        v2
    };
    let n = v3.task2_counter.wrapping_add(1);
    KernelView {
        task2_counter: n,
        log: if n & 0x3FF == 0 { v3.log.push(LogRecord::FabricAlive) } else { v3.log },
        ..v3
    }
}

fn log_task(state: &mut KernelState)
    requires
        old(state).wf(),
    ensures
        final(state).wf(),
        final(state)@ == spec_log_task(old(state)@),
{
    let _ = task_dispatch_crit(state, 0);
    let b = state.dispatch_budget[0];
    let _ = task_dispatch_mail(state, 0, b);
}

fn fabric_task(state: &mut KernelState)
    requires
        old(state).wf(),
    ensures
        final(state).wf(),
        final(state)@ == spec_fabric_task(old(state)@),
{
    let b = state.dispatch_budget[2];
    let _ = task_dispatch_mail(state, 2, b);
    let wake = task_take_wake(state, 2);
    if wake != 0 {
        log_push(state, LogRecord::TakeWake { id: 2, mask: wake });
        let again = task_take_wake(state, 2);
        log_push(state, LogRecord::TakeWake { id: 2, mask: again });
    }
    state.task2_counter = state.task2_counter.wrapping_add(1);
    if state.task2_counter & 0x3FF == 0 {
        log_push(state, LogRecord::FabricAlive);
    }
}

/// `n` publications `step(v, k)` for `k` in `0..n`, in order.
pub open spec fn spec_repeat(v: KernelView, n: nat, step: spec_fn(KernelView, int) -> KernelView) -> KernelView
    decreases n,
{
    if n == 0 { v } else { step(spec_repeat(v, (n - 1) as nat, step), n - 1) }
}

pub open spec fn step_log_flood(v: KernelView, k: int) -> KernelView {
    let v1 = spec_publish(v, EVT_LOG, SRC_TASK, (3000 + k) as u32);
    if k == 0 { spec_publish(v1, EVT_TIMER, SRC_TASK, (4000 + k) as u32) } else { v1 }
}

pub open spec fn step_bus_log_flood(v: KernelView, k: int) -> KernelView {
    spec_publish(spec_publish(v, EVT_BUS, SRC_TASK, (5000 + k) as u32), EVT_LOG, SRC_TASK, (6000 + k) as u32)
}

pub open spec fn step_bus_burst(v: KernelView, k: int) -> KernelView {
    spec_publish(v, EVT_BUS, SRC_TASK, (8000 + k) as u32)
}

pub open spec fn step_log_burst(v: KernelView, k: int) -> KernelView {
    spec_publish(v, EVT_LOG, SRC_TASK, (8200 + k) as u32)
}

pub open spec fn step_mail_flood(v: KernelView, k: int) -> KernelView {
    spec_mailbox_push(v, 2, EVT_BUS, SRC_TASK, (9000 + k) as u32, v.tick as u32)
}

pub open spec fn raw_of(kind: u8, code: u16) -> RawEvent {
    RawEvent { src: SRC_SOFTIRQ, kind, code, arg: 0 }
}

/// The scripted scenario that task 1 plays as its run counter advances.
pub open spec fn spec_logic_script(v: KernelView, c: u64) -> KernelView {
    if c == 20 {
        spec_subscribe(spec_subscribe(spec_set_state(v, 2, TaskState::Ready), 0, EVT_TIMER), 2, EVT_BUS | EVT_FAB | EVT_LOG)
    } else if c == 220 {
        spec_wait(v, 2, EVT_FAB)
    } else if c == 240 {
        spec_repeat(v, 40, |w: KernelView, k: int| step_log_flood(w, k))
    } else if c == 252 {
        spec_signal(v, 2, EVT_FAB)
    } else if c == 280 {
        spec_wait(v, 2, EVT_FAB)
    } else if c == 300 {
        spec_repeat(v, 24, |w: KernelView, k: int| step_bus_log_flood(w, k))
    } else if c == 318 {
        spec_signal(v, 2, EVT_FAB)
    } else if c == 340 {
        spec_wait(v, 2, EVT_FAB)
    } else if c == 341 {
        spec_subscribe(v, 1, EVT_BUS)
    } else if c == 342 {
        spec_publish(v, EVT_BUS | EVT_LOG, SRC_TASK, 777)
    } else if c == 344 {
        spec_unsubscribe(v, 1, EVT_BUS)
    } else if c == 345 {
        spec_signal(v, 2, EVT_FAB)
    } else if c == 360 {
        spec_repeat(v, 10, |w: KernelView, k: int| step_bus_burst(w, k))
    } else if c == 380 {
        spec_repeat(spec_publish(v, EVT_FAB, SRC_TASK, 8100), 10, |w: KernelView, k: int| step_log_burst(w, k))
    } else if c == 400 {
        spec_signal(spec_repeat(v, 300, |w: KernelView, k: int| step_mail_flood(w, k)), 2, EVT_BUS)
    } else if c == 420 {
        KernelView { softirq_pending: v.softirq_pending | SOFTIRQ_BUS, ..v }
    } else if c == 422 {
        v
    } else if c == 424 {
        let v1 = spec_tx_set_enabled(v, 3, false);
        KernelView { softirq_pending: v1.softirq_pending | SOFTIRQ_BUS, ..v1 }
    } else if c == 426 {
        let v1 = spec_tx_set_enabled(v, 3, true);
        KernelView { softirq_pending: v1.softirq_pending | SOFTIRQ_BUS, ..v1 }
    } else if c == 427 {
        spec_tx_publish_raw(v, raw_of(RAW_MMIO, RAWC_MMIO_BUS_RX))
    } else if c == 428 {
        spec_tx_publish_raw(v, raw_of(RAW_MMIO, RAWC_MMIO_BUS_TX))
    } else if c == 429 {
        spec_tx_publish_raw(v, raw_of(RAW_SOFTIRQ, RAWC_SOFTIRQ_FABRIC))
    } else if c == 430 {
        spec_tx_publish_raw(v, raw_of(RAW_MMIO, RAWC_MMIO_FAB_ALERT))
    } else if c == 431 {
        spec_tx_publish_raw(v, raw_of(RAW_SOFTIRQ, RAWC_SOFTIRQ_LOG))
    } else if c == 432 {
        spec_tx_publish_raw(v, raw_of(RAW_INTERNAL, RAWC_INTERNAL_PANIC))
    } else if c == 433 {
        spec_tx_publish_raw(v, raw_of(RAW_INTERNAL, RAWC_INTERNAL_LOG_FLUSH))
    } else if c == 4096 {
        spec_sleep(v, 1, 200)
    } else {
        v
    }
}

/// Task 1: budgeted dispatch, advance the run counter, play the script,
/// and report liveness every 512 runs.
pub open spec fn spec_logic_task(v: KernelView) -> KernelView {
    let v1 = spec_dispatch_mail(v, 1, v.dispatch_budget[1]).0;
    let c = v1.logic_counter.wrapping_add(1);
    let v2 = spec_logic_script(KernelView { logic_counter: c, ..v1 }, c);
    if c & 0x1FF == 0 { KernelView { log: v2.log.push(LogRecord::LogicAlive), ..v2 } } else { v2 }
}

fn logic_task(state: &mut KernelState)
    requires
        old(state).wf(),
    ensures
        final(state).wf(),
        final(state)@ == spec_logic_task(old(state)@),
{
    let b = state.dispatch_budget[1];
    let _ = task_dispatch_mail(state, 1, b);
    let ghost vd = state@;
    state.logic_counter = state.logic_counter.wrapping_add(1);
    let c = state.logic_counter;
    let ghost v0 = state@;
    assert(v0.evq =~= vd.evq);
    assert(v0 == KernelView { logic_counter: c, ..vd });

    if c == 20 {
        task_set_state(state, 2, TaskState::Ready);
        task_subscribe(state, 0, EVT_TIMER);
        task_subscribe(state, 2, EVT_BUS | EVT_FAB | EVT_LOG);
    } else if c == 220 {
        task_wait(state, 2, EVT_FAB);
    } else if c == 240 {
        let mut i: u32 = 0;
        while i < 40
            invariant
                i <= 40,
                state.wf(),
                state@ == spec_repeat(v0, i as nat, |w: KernelView, k: int| step_log_flood(w, k)),
            decreases 40 - i,
        {
            publish_event_ex(state, EVT_LOG, SRC_TASK, 3000 + i);
            if i == 0 {
                publish_event_ex(state, EVT_TIMER, SRC_TASK, 4000 + i);
            }
            i += 1;
        }
        assert(state@ == spec_logic_script(v0, c));
    } else if c == 252 {
        task_signal(state, 2, EVT_FAB);
    } else if c == 280 {
        task_wait(state, 2, EVT_FAB);
    } else if c == 300 {
        let mut i: u32 = 0;
        while i < 24
            invariant
                i <= 24,
                state.wf(),
                state@ == spec_repeat(v0, i as nat, |w: KernelView, k: int| step_bus_log_flood(w, k)),
            decreases 24 - i,
        {
            publish_event_ex(state, EVT_BUS, SRC_TASK, 5000 + i);
            publish_event_ex(state, EVT_LOG, SRC_TASK, 6000 + i);
            i += 1;
        }
    } else if c == 318 {
        task_signal(state, 2, EVT_FAB);
    } else if c == 340 {
        task_wait(state, 2, EVT_FAB);
    } else if c == 341 {
        task_subscribe(state, 1, EVT_BUS);
    } else if c == 342 {
        publish_event_ex(state, EVT_BUS | EVT_LOG, SRC_TASK, 777);
    } else if c == 344 {
        task_unsubscribe(state, 1, EVT_BUS);
    } else if c == 345 {
        task_signal(state, 2, EVT_FAB);
    } else if c == 360 {
        let mut i: u32 = 0;
        while i < 10
            invariant
                i <= 10,
                state.wf(),
                state@ == spec_repeat(v0, i as nat, |w: KernelView, k: int| step_bus_burst(w, k)),
            decreases 10 - i,
        {
            publish_event_ex(state, EVT_BUS, SRC_TASK, 8000 + i);
            i += 1;
        }
    } else if c == 380 {
        publish_event_ex(state, EVT_FAB, SRC_TASK, 8100);
        let ghost v1 = state@;
        let mut i: u32 = 0;
        while i < 10
            invariant
                i <= 10,
                state.wf(),
                state@ == spec_repeat(v1, i as nat, |w: KernelView, k: int| step_log_burst(w, k)),
            decreases 10 - i,
        {
            publish_event_ex(state, EVT_LOG, SRC_TASK, 8200 + i);
            i += 1;
        }
        assert(state@ == spec_logic_script(v0, c));
    } else if c == 400 {
        let mut i: u16 = 0;
        while i < 300
            invariant
                i <= 300,
                state.wf(),
                state@ == spec_repeat(v0, i as nat, |w: KernelView, k: int| step_mail_flood(w, k)),
                state.tick == v0.tick,
            decreases 300 - i,
        {
            let t = state.tick as u32;
            mailbox_push(state, 2, EVT_BUS, SRC_TASK, 9000 + i as u32, t);
            i += 1;
        }
        task_signal(state, 2, EVT_BUS);
        assert(state@ == spec_logic_script(v0, c));
    } else if c == 420 {
        softirq::raise(&mut state.softirq_pending, SOFTIRQ_BUS);
    } else if c == 422 {
        let raw = RawEvent { src: SRC_SOFTIRQ, kind: RAW_SOFTIRQ, code: 0x01FF, arg: 0 };
        let _ = tx_step(state, raw);
    } else if c == 424 {
        let _ = tx_set_enabled(state, 3, false);
        softirq::raise(&mut state.softirq_pending, SOFTIRQ_BUS);
    } else if c == 426 {
        let _ = tx_set_enabled(state, 3, true);
        softirq::raise(&mut state.softirq_pending, SOFTIRQ_BUS);
    } else if c == 427 {
        tx_publish_raw(state, RawEvent { src: SRC_SOFTIRQ, kind: RAW_MMIO, code: RAWC_MMIO_BUS_RX, arg: 0 });
    } else if c == 428 {
        tx_publish_raw(state, RawEvent { src: SRC_SOFTIRQ, kind: RAW_MMIO, code: RAWC_MMIO_BUS_TX, arg: 0 });
    } else if c == 429 {
        tx_publish_raw(state, RawEvent { src: SRC_SOFTIRQ, kind: RAW_SOFTIRQ, code: RAWC_SOFTIRQ_FABRIC, arg: 0 });
    } else if c == 430 {
        tx_publish_raw(state, RawEvent { src: SRC_SOFTIRQ, kind: RAW_MMIO, code: RAWC_MMIO_FAB_ALERT, arg: 0 });
    } else if c == 431 {
        tx_publish_raw(state, RawEvent { src: SRC_SOFTIRQ, kind: RAW_SOFTIRQ, code: RAWC_SOFTIRQ_LOG, arg: 0 });
    } else if c == 432 {
        tx_publish_raw(state, RawEvent { src: SRC_SOFTIRQ, kind: RAW_INTERNAL, code: RAWC_INTERNAL_PANIC, arg: 0 });
    } else if c == 433 {
        tx_publish_raw(state, RawEvent { src: SRC_SOFTIRQ, kind: RAW_INTERNAL, code: RAWC_INTERNAL_LOG_FLUSH, arg: 0 });
    } else if c == 4096 {
        task_sleep(state, 1, 200);
    }
    assert(state@ == spec_logic_script(v0, c));
    if c & 0x1FF == 0 {
        log_push(state, LogRecord::LogicAlive);
    }
}

pub open spec fn spec_task_step(v: KernelView, id: u8) -> KernelView {
    if id == 0 { spec_log_task(v) } else if id == 1 { spec_logic_task(v) } else if id == 2 { spec_fabric_task(v) } else { v }
}

fn task_step(task_id: TaskId, state: &mut KernelState)
    requires
        old(state).wf(),
    ensures
        final(state).wf(),
        final(state)@ == spec_task_step(old(state)@, task_id),
{
    match task_id {
        0 => log_task(state),
        1 => logic_task(state),
        2 => fabric_task(state),
        _ => {},
    }
}

/// Publication of the raw event for one software-interrupt bit, when raised.
pub open spec fn spec_softirq_publish(v: KernelView, pending: u32, bit: u32) -> KernelView {
    if pending & bit != 0 {
        match spec_softirq_code(bit) {
            Some(code) => spec_tx_publish_raw(v, RawEvent { src: SRC_SOFTIRQ, kind: RAW_SOFTIRQ, code, arg: 0 }),
            None => v,
        }
    } else {
        v
    }
}

/// The gated bus step applied to the kernel's bus and fabric.
pub open spec fn spec_bus_gated(v: KernelView) -> KernelView {
    let (l, n, t, tr, slots, _r) = spec_gated(v.bus_lanes, v.bus_next, v.bus_trace_tick, v.fabric);
    KernelView { bus_lanes: l, bus_next: n, bus_trace_tick: t, bus_trace_last: tr, fabric: slots, ..v }
}

/// The interrupt-facing half of a tick: timer contract; the pending
/// software interrupts (those handed in and those raised by tasks) become
/// raw events, the bus takes one gated step and the fabric applies its rules.
pub open spec fn spec_runtime_front(v: KernelView, irq_tick: u64, irq_pending: u32) -> KernelView {
    let v1 = spec_timer(v, irq_tick);
    let pending = irq_pending | v1.softirq_pending;
    let v2 = KernelView { softirq_pending: 0, ..v1 };
    let v3 = spec_softirq_publish(v2, pending, SOFTIRQ_BUS);
    let v4 = spec_softirq_publish(v3, pending, SOFTIRQ_FABRIC);
    let v5 = spec_softirq_publish(v4, pending, SOFTIRQ_LOG);
    let v6 = if pending & SOFTIRQ_BUS != 0 { spec_bus_gated(v5) } else { v5 };
    if pending & SOFTIRQ_FABRIC != 0 { KernelView { fabric: spec_fabric(v6.fabric, RULE_COUNT as nat).0, ..v6 } } else { v6 }
}

/// The scheduling half of a tick: routing, wake-ups, adaptive budgets,
/// scheduling, and one run of the current task if it is ready.
pub open spec fn spec_runtime_back(v: KernelView) -> KernelView {
    let r = spec_router(v);
    let v8 = spec_schedule(spec_adaptive_budget(spec_wakeup(r, spec_task_scan(r) as nat)));
    let cur = v8.current_task;
    if cur < v8.task_count && v8.tasks[cur as int] == TaskState::Ready { spec_task_step(v8, cur) } else { v8 }
}

/// One runtime tick.
pub open spec fn spec_runtime_step(v: KernelView, irq_tick: u64, irq_pending: u32) -> KernelView {
    spec_runtime_back(spec_runtime_front(v, irq_tick, irq_pending))
}

fn softirq_publish(state: &mut KernelState, pending: u32, bit: u32)
    requires
        old(state).wf(),
    ensures
        final(state).wf(),
        final(state)@ == spec_softirq_publish(old(state)@, pending, bit),
{
    if (pending & bit) != 0 {
        if let Some(raw) = make_softirq_raw(SRC_SOFTIRQ, bit) {
            tx_publish_raw(state, raw);
        }
    }
}

fn runtime_front(state: &mut KernelState, irq_tick: u64, irq_pending: u32) -> (dt: u64)
    requires
        old(state).wf(),
    ensures
        final(state).wf(),
        dt == spec_timer_dt(old(state)@, irq_tick),
        final(state)@ == spec_runtime_front(old(state)@, irq_tick, irq_pending),
{
    let dt = timer_contract_step(state, irq_tick);
    let ghost v1 = state@;
    let pending = irq_pending | softirq::take_pending(&mut state.softirq_pending);
    proof { assert(state@.evq =~= v1.evq); }
    if pending != 0 {
        softirq_publish(state, pending, SOFTIRQ_BUS);
        softirq_publish(state, pending, SOFTIRQ_FABRIC);
        softirq_publish(state, pending, SOFTIRQ_LOG);
        if (pending & SOFTIRQ_BUS) != 0 {
            let ghost vb = state@;
            let r = bus_step_gated(&mut state.bus, &mut state.fabric);
            proof {
                lemma_gated_matches(vb.bus_lanes, vb.bus_next, vb.bus_trace_tick, vb.fabric,
                    state@.bus_lanes, state@.bus_next, state@.bus_trace_tick, state@.bus_trace_last, state@.fabric, r);
                assert(state@.evq =~= vb.evq);
            }
        }
        if (pending & SOFTIRQ_FABRIC) != 0 {
            let ghost vf = state@;
            let _ = fabric_step(&mut state.fabric);
            proof { assert(state@.evq =~= vf.evq); }
        }
    } else {
        proof {
            assert(pending & SOFTIRQ_BUS == 0 && pending & SOFTIRQ_FABRIC == 0 && pending & SOFTIRQ_LOG == 0) by (bit_vector)
                requires pending == 0;
        }
    }
    dt
}

fn runtime_back(state: &mut KernelState)
    requires
        old(state).wf(),
    ensures
        final(state).wf(),
        final(state)@ == spec_runtime_back(old(state)@),
{
    event_router_step(state);
    wakeup_step(state);
    adaptive_budget_step(state);
    scheduler_step(state);
    let cur = state.current_task as usize;
    if cur < state.task_count as usize && state.tasks[cur] == TaskState::Ready {
        task_step(state.current_task, state);
    }
}

/// One runtime tick driven by the interrupt tick and the software-interrupt
/// bits taken since the previous tick; returns the tick delta.
pub fn runtime_step(state: &mut KernelState, irq_tick: u64, irq_pending: u32) -> (dt: u64)
    requires
        old(state).wf(),
    ensures
        final(state).wf(),
        dt == spec_timer_dt(old(state)@, irq_tick),
        final(state)@ == spec_runtime_step(old(state)@, irq_tick, irq_pending),
{
    let dt = runtime_front(state, irq_tick, irq_pending);
    runtime_back(state);
    dt
}

} // verus!