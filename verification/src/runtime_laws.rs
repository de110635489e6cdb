//! Properties of the runtime that its event contract promises: the route
//! trace is throttled to one record per popped frame, deadline violations
//! are always counted, the fast lane touches only the TIMER slot, and the
//! adaptive budgets stay within their bounds.
use vstd::prelude::*;
use crate::runtime_log::LogRecord;
use crate::kernel_state::{
    KernelView, TaskState, EventFrame, spec_slot_deadline, EC_COUNT, EVT_TIMER, SLOT_TIMER,
    TASK_DISPATCH_BUDGET_MIN, TASK_DISPATCH_BUDGET_MAX, CRIT_DISPATCH_BUDGET,
};
use crate::runtime::{
    spec_set_state, spec_wake_by_match, spec_signal, spec_add_mail_slot, spec_mailbox_push, spec_route,
    spec_process_frame, spec_delivered_before, spec_task_scan, spec_deadline, spec_dispatch_crit, spec_budgets,
    spec_slot_latency, lemma_route_frame, sat_inc16, sat_add16,
};
use crate::kernel_state::{EVT_BUS, EVT_FAB, EVT_LOG, SLOT_BUS, SLOT_FAB, SLOT_LOG};

verus! {

/// The number of route records in a log.
pub open spec fn route_records(l: Seq<LogRecord>) -> nat
    decreases l.len(),
{
    if l.len() == 0 {
        0
    } else {
        route_records(l.drop_last()) + if l.last() is Route { 1nat } else { 0nat }
    }
}

/// `b` is `a` with records appended, none of them a route record.
pub open spec fn appends_no_route(a: Seq<LogRecord>, b: Seq<LogRecord>) -> bool {
    &&& a.len() <= b.len()
    &&& b.subrange(0, a.len() as int) == a
    &&& route_records(b) == route_records(a)
}

proof fn lemma_push_route(l: Seq<LogRecord>, r: LogRecord)
    ensures
        route_records(l.push(r)) == route_records(l) + if r is Route { 1nat } else { 0nat },
        l.push(r).subrange(0, l.len() as int) == l,
{
    assert(l.push(r).drop_last() =~= l);
    assert(l.push(r).subrange(0, l.len() as int) =~= l);
}

proof fn lemma_push_no_route(l: Seq<LogRecord>, r: LogRecord)
    requires
        !(r is Route),
    ensures
        appends_no_route(l, l.push(r)),
{
    lemma_push_route(l, r);
}

proof fn lemma_no_route_trans(a: Seq<LogRecord>, b: Seq<LogRecord>, c: Seq<LogRecord>)
    requires
        appends_no_route(a, b),
        appends_no_route(b, c),
    ensures
        appends_no_route(a, c),
{
    assert(c.subrange(0, a.len() as int) =~= b.subrange(0, a.len() as int));
}

proof fn lemma_no_route_refl(a: Seq<LogRecord>)
    ensures
        appends_no_route(a, a),
{
    assert(a.subrange(0, a.len() as int) =~= a);
}

proof fn lemma_set_state_no_route(v: KernelView, id: u8, new: TaskState)
    ensures
        appends_no_route(v.log, spec_set_state(v, id, new).log),
        spec_set_state(v, id, new).sub_mask == v.sub_mask,
{
    lemma_no_route_refl(v.log);
    if !(id >= v.task_count || v.tasks[id as int] == new) {
        lemma_push_no_route(v.log, LogRecord::TaskState { id, new });
    }
}

proof fn lemma_wake_no_route(v: KernelView, id: u8, matched: u32, wait_hit: bool)
    ensures
        appends_no_route(v.log, spec_wake_by_match(v, id, matched, wait_hit).log),
        spec_wake_by_match(v, id, matched, wait_hit).sub_mask == v.sub_mask,
{
    let left = v.pending_evt[id as int] & !matched;
    let v1 = KernelView {
        pending_evt: v.pending_evt.update(id as int, left),
        wait_mask: v.wait_mask.update(id as int, 0),
        last_wake: v.last_wake.update(id as int, matched),
        woke: v.woke.wrapping_add(1),
        ..v
    };
    let v2 = spec_set_state(v1, id, TaskState::Ready);
    lemma_set_state_no_route(v1, id, TaskState::Ready);
    let v3 = if wait_hit { KernelView { log: v2.log.push(LogRecord::WaitHit { id, mask: matched }), ..v2 } } else { v2 };
    if wait_hit {
        lemma_push_no_route(v2.log, LogRecord::WaitHit { id, mask: matched });
        lemma_no_route_trans(v.log, v2.log, v3.log);
    }
    lemma_push_no_route(v3.log, LogRecord::WaitWake { id, matched, pending_after: left });
    lemma_no_route_trans(v.log, v3.log, spec_wake_by_match(v, id, matched, wait_hit).log);
}

proof fn lemma_signal_no_route(v: KernelView, id: u8, mask: u32)
    ensures
        appends_no_route(v.log, spec_signal(v, id, mask).log),
        spec_signal(v, id, mask).sub_mask == v.sub_mask,
{
    lemma_no_route_refl(v.log);
    if !(id >= v.task_count || mask == 0) {
        let p = v.pending_evt[id as int] | mask;
        let v1 = KernelView {
            pending_evt: v.pending_evt.update(id as int, p),
            log: v.log.push(LogRecord::Signal { id, evt: mask, pending_after: p }),
            ..v
        };
        lemma_push_no_route(v.log, LogRecord::Signal { id, evt: mask, pending_after: p });
        let w = v.wait_mask[id as int];
        if v.tasks[id as int] == TaskState::Blocked && w != 0 && (p & w) != 0 {
            lemma_wake_no_route(v1, id, p & w, false);
            lemma_no_route_trans(v.log, v1.log, spec_signal(v, id, mask).log);
        }
    }
}

proof fn lemma_slot_no_route(
    v: KernelView, i: int, deliver_mask: u32, evt: u32, slot: int, src: u8, payload: u32, tick: u32,
)
    ensures
        appends_no_route(v.log, spec_add_mail_slot(v, i, deliver_mask, evt, slot, src, payload, tick).log),
        spec_add_mail_slot(v, i, deliver_mask, evt, slot, src, payload, tick).sub_mask == v.sub_mask,
{
    lemma_no_route_refl(v.log);
    lemma_push_no_route(v.log, LogRecord::Overflow { id: i as u8, evt });
}

proof fn lemma_mailbox_no_route(v: KernelView, i: int, deliver_mask: u32, src: u8, payload: u32, tick: u32)
    ensures
        appends_no_route(v.log, spec_mailbox_push(v, i, deliver_mask, src, payload, tick).log),
        spec_mailbox_push(v, i, deliver_mask, src, payload, tick).sub_mask == v.sub_mask,
{
    let v0 = KernelView { mb_evt: v.mb_evt.update(i, v.mb_evt[i] | deliver_mask), ..v };
    let v1 = spec_add_mail_slot(v0, i, deliver_mask, EVT_BUS, SLOT_BUS as int, src, payload, tick);
    let v2 = spec_add_mail_slot(v1, i, deliver_mask, EVT_FAB, SLOT_FAB as int, src, payload, tick);
    let v3 = spec_add_mail_slot(v2, i, deliver_mask, EVT_LOG, SLOT_LOG as int, src, payload, tick);
    let v4 = spec_add_mail_slot(v3, i, deliver_mask, EVT_TIMER, SLOT_TIMER as int, src, payload, tick);
    lemma_slot_no_route(v0, i, deliver_mask, EVT_BUS, SLOT_BUS as int, src, payload, tick);
    lemma_slot_no_route(v1, i, deliver_mask, EVT_FAB, SLOT_FAB as int, src, payload, tick);
    lemma_slot_no_route(v2, i, deliver_mask, EVT_LOG, SLOT_LOG as int, src, payload, tick);
    lemma_slot_no_route(v3, i, deliver_mask, EVT_TIMER, SLOT_TIMER as int, src, payload, tick);
    lemma_no_route_trans(v0.log, v1.log, v2.log);
    lemma_no_route_trans(v0.log, v2.log, v3.log);
    lemma_no_route_trans(v0.log, v3.log, v4.log);
    let r = spec_mailbox_push(v, i, deliver_mask, src, payload, tick);
    assert(r.log == v4.log.push(r.log.last()));
    lemma_push_no_route(v4.log, r.log.last());
    lemma_no_route_trans(v.log, v4.log, r.log);
}

/// Routing to the first `n` tasks appends records to the log, and exactly
/// one of them is a route record when some of those tasks is subscribed to
/// part of the frame (none otherwise).
proof fn lemma_route_records(v: KernelView, frame: EventFrame, class: int, n: nat)
    ensures
        v.log.len() <= spec_route(v, frame, class, n).log.len(),
        spec_route(v, frame, class, n).log.subrange(0, v.log.len() as int) == v.log,
        route_records(spec_route(v, frame, class, n).log)
            == route_records(v.log) + if spec_delivered_before(v, frame, n) { 1nat } else { 0nat },
    decreases n,
{
    let r = spec_route(v, frame, class, n);
    if n == 0 {
        assert(r.log.subrange(0, v.log.len() as int) =~= v.log);
    } else {
        lemma_route_records(v, frame, class, (n - 1) as nat);
        lemma_route_frame(v, frame, class, (n - 1) as nat);
        let v1 = spec_route(v, frame, class, (n - 1) as nat);
        let i = n - 1;
        let d = frame.evt_mask & v1.sub_mask[i];
        if d != 0 {
            let vm = spec_mailbox_push(v1, i, d, frame.src_id, frame.payload, frame.tick);
            let v2 = spec_signal(vm, i as u8, d);
            lemma_mailbox_no_route(v1, i, d, frame.src_id, frame.payload, frame.tick);
            lemma_signal_no_route(vm, i as u8, d);
            lemma_no_route_trans(v1.log, vm.log, v2.log);
            if !spec_delivered_before(v, frame, (n - 1) as nat) {
                lemma_push_route(v2.log, LogRecord::Route {
                    class: class as u8, id: i as u8, deliver: d, src: frame.src_id, payload: frame.payload,
                });
            }
            assert(r.log.subrange(0, v.log.len() as int) =~= v2.log.subrange(0, v.log.len() as int));
            assert(v2.log.subrange(0, v.log.len() as int) =~= v1.log.subrange(0, v.log.len() as int));
        }
    }
}

/// At most one route record per popped frame: handling a frame taken from
/// a class queue appends the pop record first, then exactly one route
/// record, for the first subscribed task, when some task is subscribed to
/// part of the frame, and none otherwise.
pub proof fn lemma_one_route_per_frame(v: KernelView, class: int, frame: EventFrame)
    requires
        0 <= class < EC_COUNT,
    ensures
        ({
            let r = spec_process_frame(v, class, frame);
            &&& r.log.len() > v.log.len()
            &&& r.log.subrange(0, v.log.len() as int) == v.log
            &&& r.log[v.log.len() as int] is EvqPop
            &&& route_records(r.log) == route_records(v.log)
                + if spec_delivered_before(v, frame, spec_task_scan(v) as nat) { 1nat } else { 0nat }
        }),
{
    let pop = LogRecord::EvqPop {
        class: class as u8, evt: frame.evt_mask, src: frame.src_id, payload: frame.payload, tick: frame.tick,
        len_after: v.evq[class].len() as u16,
    };
    let v0 = KernelView { log: v.log.push(pop), ..v };
    let n = spec_task_scan(v) as nat;
    lemma_push_route(v.log, pop);
    lemma_route_records(v0, frame, class, n);
    assert forall|k: nat| spec_delivered_before(v0, frame, k) == spec_delivered_before(v, frame, k) by {
        lemma_delivered_same(v0, v, frame, k);
    }
    let r = spec_route(v0, frame, class, n);
    assert(r.log.subrange(0, v.log.len() as int) =~= r.log.subrange(0, v0.log.len() as int).subrange(0, v.log.len() as int));
    assert(r.log[v.log.len() as int] == r.log.subrange(0, v0.log.len() as int)[v.log.len() as int]);
}

proof fn lemma_delivered_same(a: KernelView, b: KernelView, frame: EventFrame, n: nat)
    requires
        a.sub_mask == b.sub_mask,
    ensures
        spec_delivered_before(a, frame, n) == spec_delivered_before(b, frame, n),
    decreases n,
{
    if n > 0 {
        lemma_delivered_same(a, b, frame, (n - 1) as nat);
    }
}

/// Every deadline violation is counted (saturating), whatever the logging
/// throttles decide; a latency within the deadline changes nothing.
pub proof fn lemma_violations_always_counted(v: KernelView, id: u8, slot: int, lat: u16)
    requires
        0 <= slot < 4,
    ensures
        lat > spec_slot_deadline(slot) ==> spec_deadline(v, id, slot, lat).lat_viol
            == v.lat_viol.update(slot, sat_inc16(v.lat_viol[slot])),
        lat <= spec_slot_deadline(slot) ==> spec_deadline(v, id, slot, lat) == v,
{
}

/// The CRIT fast lane touches only the TIMER slot: the other slots'
/// counters, sources and payloads stay as they were, and the event mask
/// loses at most the TIMER bit.
pub proof fn lemma_fast_lane_timer_only(v: KernelView, id: u8, s: int)
    requires
        0 <= s < 4,
        s != SLOT_TIMER,
        id < v.task_count,
        v.mb_cnt.len() == 8,
        v.mb_src.len() == 8,
        v.mb_payload.len() == 8,
        v.mb_evt.len() == 8,
        v.mb_cnt[id as int].len() == 4,
        v.mb_src[id as int].len() == 4,
        v.mb_payload[id as int].len() == 4,
        v.task_count <= 8,
    ensures
        ({
            let r = spec_dispatch_crit(v, id).0;
            &&& r.mb_cnt[id as int][s] == v.mb_cnt[id as int][s]
            &&& r.mb_src[id as int][s] == v.mb_src[id as int][s]
            &&& r.mb_payload[id as int][s] == v.mb_payload[id as int][s]
            &&& (r.mb_evt[id as int] == v.mb_evt[id as int] || r.mb_evt[id as int] == v.mb_evt[id as int] & !EVT_TIMER)
        }),
{
    let i = id as int;
    let t = SLOT_TIMER as int;
    let cnt = v.mb_cnt[i][t];
    if cnt != 0 {
        let take: u8 = if cnt < CRIT_DISPATCH_BUDGET { cnt } else { CRIT_DISPATCH_BUDGET };
        let left = (cnt - take) as u8;
        let v1 = KernelView {
            mb_cnt: v.mb_cnt.update(i, v.mb_cnt[i].update(t, left)),
            handled_cnt: v.handled_cnt.update(i, v.handled_cnt[i].update(t, sat_add16(v.handled_cnt[i][t], take as u16))),
            ..v
        };
        let lat = spec_slot_latency(v.tick, v.mb_tick[i][t]);
        let w = KernelView { lat_last: v1.lat_last.update(t, lat), ..v1 };
        let w2 = if lat > w.lat_max[t] { KernelView { lat_max: w.lat_max.update(t, lat), ..w } } else { w };
        lemma_deadline_keeps_mail(w2, id, t, lat);
    }
}

/// Deadline accounting leaves the mailboxes alone.
proof fn lemma_deadline_keeps_mail(v: KernelView, id: u8, slot: int, lat: u16)
    ensures
        spec_deadline(v, id, slot, lat).mb_cnt == v.mb_cnt,
        spec_deadline(v, id, slot, lat).mb_src == v.mb_src,
        spec_deadline(v, id, slot, lat).mb_payload == v.mb_payload,
        spec_deadline(v, id, slot, lat).mb_evt == v.mb_evt,
{
}

/// The adaptive budgets stay within their bounds.
pub proof fn lemma_budgets_bounded(v: KernelView)
    ensures
        ({
            let (b0, b1, b2) = spec_budgets(v);
            &&& TASK_DISPATCH_BUDGET_MIN <= b0 <= TASK_DISPATCH_BUDGET_MAX
            &&& TASK_DISPATCH_BUDGET_MIN <= b1 <= TASK_DISPATCH_BUDGET_MAX
            &&& TASK_DISPATCH_BUDGET_MIN <= b2 <= TASK_DISPATCH_BUDGET_MAX
        }),
{
}


proof fn lemma_deliver_bits(m: u32, d: u32, pend: u32, w: u32, lw: u32)
    by (bit_vector)
    ensures
        (m | d) & d == d,
        ((pend | d) | lw) & d == d,
        ((((pend | d) & !((pend | d) & w)) | ((pend | d) & w))) & d == d,
{
}

/// The fields delivery touches, by task.
pub open spec fn delivery_fields_len(v: KernelView) -> bool {
    &&& v.mb_evt.len() == 8
    &&& v.pending_evt.len() == 8
    &&& v.last_wake.len() == 8
    &&& v.wait_mask.len() == 8
    &&& v.tasks.len() == 8
    &&& v.sub_mask.len() == 8
}

proof fn lemma_mailbox_fields(v: KernelView, i: int, dm: u32, src: u8, payload: u32, tick: u32)
    requires
        delivery_fields_len(v),
        0 <= i < 8,
    ensures
        ({
            let r = spec_mailbox_push(v, i, dm, src, payload, tick);
            &&& delivery_fields_len(r)
            &&& r.mb_evt == v.mb_evt.update(i, v.mb_evt[i] | dm)
            &&& r.pending_evt == v.pending_evt
            &&& r.last_wake == v.last_wake
            &&& r.sub_mask == v.sub_mask
            &&& r.task_count == v.task_count
        }),
{
}

proof fn lemma_signal_fields(v: KernelView, i: int, dm: u32)
    requires
        delivery_fields_len(v),
        0 <= i < v.task_count,
        v.task_count <= 8,
        dm != 0,
    ensures
        ({
            let r = spec_signal(v, i as u8, dm);
            &&& delivery_fields_len(r)
            &&& r.mb_evt == v.mb_evt
            &&& r.sub_mask == v.sub_mask
            &&& r.task_count == v.task_count
            &&& (r.pending_evt[i] | r.last_wake[i]) & dm == dm
            &&& forall|j: int| 0 <= j < 8 && j != i ==> r.pending_evt[j] == v.pending_evt[j] && r.last_wake[j] == v.last_wake[j]
        }),
{
    let p = v.pending_evt[i] | dm;
    let w = v.wait_mask[i];
    lemma_deliver_bits(0, dm, v.pending_evt[i], w, v.last_wake[i]);
    let v1 = KernelView {
        pending_evt: v.pending_evt.update(i, p),
        log: v.log.push(LogRecord::Signal { id: i as u8, evt: dm, pending_after: p }),
        ..v
    };
    if v.tasks[i] == TaskState::Blocked && w != 0 && (p & w) != 0 {
        let m = p & w;
        let left = p & !m;
        let u1 = KernelView {
            pending_evt: v1.pending_evt.update(i, left),
            wait_mask: v1.wait_mask.update(i, 0),
            last_wake: v1.last_wake.update(i, m),
            woke: v1.woke.wrapping_add(1),
            ..v1
        };
        lemma_set_state_no_route(u1, i as u8, TaskState::Ready);
        assert(spec_signal(v, i as u8, dm).pending_evt == u1.pending_evt);
        assert(spec_signal(v, i as u8, dm).last_wake == u1.last_wake);
    }
}

/// Routing a frame to the first `n` tasks delivers to every one of them
/// whose subscription meets the frame's mask, not only to the first: that
/// task's mailbox mask gains the intersection, and the intersection is
/// signalled to it (it is pending, or taken as the task's wake reason).
/// A task not subscribed to any of it gets nothing, and the tasks from `n`
/// on are untouched.
pub proof fn lemma_route_delivers_to_all(v: KernelView, frame: EventFrame, class: int, n: nat)
    requires
        delivery_fields_len(v),
        n <= v.task_count,
        v.task_count <= 8,
    ensures
        ({
            let r = spec_route(v, frame, class, n);
            &&& delivery_fields_len(r)
            &&& forall|i: int| 0 <= i < n && (frame.evt_mask & v.sub_mask[i]) != 0 ==> {
                let dm = frame.evt_mask & v.sub_mask[i];
                &&& (#[trigger] r.mb_evt[i]) & dm == dm
                &&& (r.pending_evt[i] | r.last_wake[i]) & dm == dm
            }
            &&& forall|i: int| 0 <= i < n && (frame.evt_mask & v.sub_mask[i]) == 0 ==>
                (#[trigger] r.mb_evt[i]) == v.mb_evt[i] && r.pending_evt[i] == v.pending_evt[i]
                && r.last_wake[i] == v.last_wake[i]
            &&& forall|i: int| n <= i < 8 ==> (#[trigger] r.mb_evt[i]) == v.mb_evt[i]
                && r.pending_evt[i] == v.pending_evt[i] && r.last_wake[i] == v.last_wake[i]
        }),
    decreases n,
{
    if n > 0 {
        lemma_route_delivers_to_all(v, frame, class, (n - 1) as nat);
        lemma_route_frame(v, frame, class, (n - 1) as nat);
        let v1 = spec_route(v, frame, class, (n - 1) as nat);
        let i = n - 1;
        let dm = frame.evt_mask & v1.sub_mask[i];
        let r = spec_route(v, frame, class, n);
        if dm != 0 {
            let vm = spec_mailbox_push(v1, i, dm, frame.src_id, frame.payload, frame.tick);
            lemma_mailbox_fields(v1, i, dm, frame.src_id, frame.payload, frame.tick);
            lemma_signal_fields(vm, i, dm);
            let v2 = spec_signal(vm, i as u8, dm);
            lemma_deliver_bits(v1.mb_evt[i], dm, 0, 0, 0);
            assert(r.mb_evt == v2.mb_evt && r.pending_evt == v2.pending_evt && r.last_wake == v2.last_wake);
            assert(delivery_fields_len(r));
            assert forall|j: int| 0 <= j < n && (frame.evt_mask & v.sub_mask[j]) != 0 implies {
                let dj = frame.evt_mask & v.sub_mask[j];
                &&& (#[trigger] r.mb_evt[j]) & dj == dj
                &&& (r.pending_evt[j] | r.last_wake[j]) & dj == dj
            } by {
                if j < i {
                    assert(r.mb_evt[j] == v1.mb_evt[j]);
                }
            }
            assert forall|j: int| 0 <= j < n && (frame.evt_mask & v.sub_mask[j]) == 0 implies
                (#[trigger] r.mb_evt[j]) == v.mb_evt[j] && r.pending_evt[j] == v.pending_evt[j]
                && r.last_wake[j] == v.last_wake[j] by {
                assert(j != i);
                assert(r.mb_evt[j] == v1.mb_evt[j]);
            }
            assert forall|j: int| n <= j < 8 implies (#[trigger] r.mb_evt[j]) == v.mb_evt[j]
                && r.pending_evt[j] == v.pending_evt[j] && r.last_wake[j] == v.last_wake[j] by {
                assert(r.mb_evt[j] == v1.mb_evt[j]);
            }
        }
    }
}


/// Handling a popped frame delivers it to every task whose subscription
/// meets its mask: each such task's mailbox mask gains the intersection and
/// the intersection is signalled to it; the other tasks are untouched.
pub proof fn lemma_frame_reaches_every_subscriber(v: KernelView, class: int, frame: EventFrame)
    requires
        delivery_fields_len(v),
        v.task_count <= 8,
    ensures
        ({
            let r = spec_process_frame(v, class, frame);
            &&& forall|i: int| 0 <= i < v.task_count && (frame.evt_mask & v.sub_mask[i]) != 0 ==> {
                let dm = frame.evt_mask & v.sub_mask[i];
                &&& (#[trigger] r.mb_evt[i]) & dm == dm
                &&& (r.pending_evt[i] | r.last_wake[i]) & dm == dm
            }
            &&& forall|i: int| 0 <= i < 8 && (i >= v.task_count || (frame.evt_mask & v.sub_mask[i]) == 0) ==>
                (#[trigger] r.mb_evt[i]) == v.mb_evt[i] && r.pending_evt[i] == v.pending_evt[i]
                && r.last_wake[i] == v.last_wake[i]
        }),
{
    let v0 = if 0 <= class < EC_COUNT {
        KernelView {
            log: v.log.push(LogRecord::EvqPop {
                class: class as u8, evt: frame.evt_mask, src: frame.src_id, payload: frame.payload, tick: frame.tick,
                len_after: v.evq[class].len() as u16,
            }),
            ..v
        }
    } else {
        v
    };
    lemma_route_delivers_to_all(v0, frame, class, v.task_count as nat);
}

} // verus!
