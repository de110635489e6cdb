//! The kernel's serial records: one line per runtime event, as
//! `KEY label=value ...` text cut to the line's capacity.
use vstd::prelude::*;
use vstd::utf8::encode_utf8;
use crate::fmt::{fit, cut};
use crate::text::{spec_dec, push_str, push_dec};
use crate::kernel_state::{KernelState, TaskId, TaskState};
use crate::transjector::{payload_get_chan, spec_chan};

verus! {

/// A label followed by a value in decimal.
pub open spec fn kv(label: Seq<char>, v: nat) -> Seq<u8> {
    encode_utf8(label) + spec_dec(v)
}

fn kv_new(label: &str, v: u64) -> (b: Vec<u8>)
    ensures
        b@ == kv(label@, v as nat),
{
    let mut b: Vec<u8> = Vec::new();
    push_str(&mut b, label);
    push_dec(&mut b, v);
    assert(b@ =~= kv(label@, v as nat));
    b
}

fn kv_add(b: &mut Vec<u8>, label: &str, v: u64)
    ensures
        final(b)@ == old(b)@ + kv(label@, v as nat),
{
    push_str(b, label);
    push_dec(b, v);
    assert(b@ =~= old(b)@ + kv(label@, v as nat));
}

/// The periodic timer record: tick, last delta, missed ticks, largest delta.
pub fn log_tick(state: &KernelState, dt: u64) -> (line: Vec<u8>)
    ensures
        line@ == fit(kv("R10 tick="@, state.tick as nat) + kv(" dt="@, dt as nat) + kv(" miss="@, state.missed as nat)
            + kv(" max="@, state.max_dt as nat), 96),
{
    let mut b = kv_new("R10 tick=", state.tick);
    kv_add(&mut b, " dt=", dt);
    kv_add(&mut b, " miss=", state.missed);
    kv_add(&mut b, " max=", state.max_dt);
    cut(b, 96)
}

/// Number of ready tasks among the first `n` entries.
pub open spec fn ready_count(tasks: Seq<TaskState>, n: nat) -> nat
    decreases n,
{
    if n == 0 {
        0
    } else {
        ready_count(tasks, (n - 1) as nat) + if tasks[n - 1] == TaskState::Ready { 1nat } else { 0nat }
    }
}

/// Number of task entries in use.
pub open spec fn live_tasks(state: &KernelState) -> nat {
    if state.task_count < 8 { state.task_count as nat } else { 8 }
}

/// The periodic scheduler record: the current task and how many are ready.
pub fn log_sched(state: &KernelState) -> (line: Vec<u8>)
    ensures
        line@ == fit(kv("S10 cur="@, state.current_task as nat) + kv(" ready="@,
            ready_count(state.tasks@, live_tasks(state))), 48),
{
    let count: usize = if (state.task_count as usize) < 8 { state.task_count as usize } else { 8 };
    let mut ready: u64 = 0;
    let mut i: usize = 0;
    while i < count
        invariant
            count == live_tasks(state),
            count <= 8,
            i <= count,
            ready == ready_count(state.tasks@, i as nat),
            ready <= i,
        decreases count - i,
    {
        if state.tasks[i] == TaskState::Ready {
            ready += 1;
        }
        i += 1;
    }
    let mut b = kv_new("S10 cur=", state.current_task as u64);
    kv_add(&mut b, " ready=", ready);
    cut(b, 48)
}

/// The dispatch-budget record: the pressure and the three task budgets.
pub fn log_budget(state: &KernelState, pressure: u16) -> (line: Vec<u8>)
    ensures
        line@ == fit(kv("R20 bud p="@, pressure as nat) + kv(" b0="@, state.dispatch_budget@[0] as nat)
            + kv(" b1="@, state.dispatch_budget@[1] as nat) + kv(" b2="@, state.dispatch_budget@[2] as nat), 72),
{
    budget_line(pressure, state.dispatch_budget[0], state.dispatch_budget[1], state.dispatch_budget[2])
}

pub open spec fn task_state_name(s: TaskState) -> Seq<char> {
    match s {
        TaskState::Ready => "Ready"@,
        TaskState::Blocked => "Blocked"@,
    }
}

/// A task changed state.
pub fn log_task_state_change(id: TaskId, new: TaskState) -> (line: Vec<u8>)
    ensures
        line@ == fit(kv("S20 task="@, id as nat) + encode_utf8(" -> "@) + encode_utf8(task_state_name(new)), 48),
{
    let mut b = kv_new("S20 task=", id as u64);
    push_str(&mut b, " -> ");
    match new {
        TaskState::Ready => push_str(&mut b, "Ready"),
        TaskState::Blocked => push_str(&mut b, "Blocked"),
    }
    cut(b, 48)
}

/// A transjector produced an event: its id, the event, source, payload and
/// the payload's channel.
pub fn log_tx_out(tid: u8, evt: u32, src: u8, payload: u32) -> (line: Vec<u8>)
    ensures
        line@ == fit(kv("T11 tx_out tid="@, tid as nat) + kv(" e="@, evt as nat) + kv(" src="@, src as nat)
            + kv(" p="@, payload as nat) + kv(" chan="@, spec_chan(payload) as nat), 104),
{
    let mut b = kv_new("T11 tx_out tid=", tid as u64);
    kv_add(&mut b, " e=", evt as u64);
    kv_add(&mut b, " src=", src as u64);
    kv_add(&mut b, " p=", payload as u64);
    kv_add(&mut b, " chan=", payload_get_chan(payload) as u64);
    cut(b, 104)
}

/// Whether the main loop reports the tick after a step: every 256 ticks,
/// once per tick value.
pub open spec fn tick_due(tick: u64, last_logged: u64) -> bool {
    tick % 256 == 0 && tick != 0 && tick != last_logged
}

/// Whether the main loop reports the scheduler after a step: every 512 ticks.
pub open spec fn sched_due(tick: u64) -> bool {
    tick % 512 == 0 && tick != 0
}

/// The records the main loop writes after a runtime step that returned
/// `dt`, and the tick it last reported afterwards.
pub fn after_step_logs(state: &KernelState, dt: u64, last_logged: u64) -> (r: (Vec<Vec<u8>>, u64))
    ensures
        r.1 == (if tick_due(state.tick, last_logged) { state.tick } else { last_logged }),
        r.0@.len() == (if tick_due(state.tick, last_logged) { 1int } else { 0int }) + (if sched_due(state.tick) { 1int } else { 0int }),
        tick_due(state.tick, last_logged) ==> r.0@[0]@ == fit(kv("R10 tick="@, state.tick as nat) + kv(" dt="@, dt as nat)
            + kv(" miss="@, state.missed as nat) + kv(" max="@, state.max_dt as nat), 96),
        sched_due(state.tick) ==> r.0@.last()@ == fit(kv("S10 cur="@, state.current_task as nat) + kv(" ready="@,
            ready_count(state.tasks@, live_tasks(state))), 48),
{
    let mut lines: Vec<Vec<u8>> = Vec::new();
    let mut last = last_logged;
    let t = state.tick;
    assert((t & 0xFF) == t % 256) by (bit_vector);
    assert((t & 0x1FF) == t % 512) by (bit_vector);
    if (t & 0xFF) == 0 && t != 0 && t != last_logged {
        lines.push(log_tick(state, dt));
        last = t;
    }
    if (t & 0x1FF) == 0 && t != 0 {
        lines.push(log_sched(state));
    }
    (lines, last)
}

/// Timer jitter: a step whose tick delta exceeded fifty.
pub fn log_jitter(dt: u64) -> (line: Vec<u8>)
    ensures
        line@ == fit(kv("EJ1 jitter dt="@, dt as nat), 48),
{
    let b = kv_new("EJ1 jitter dt=", dt);
    cut(b, 48)
}

/// A critical (timer) dispatch: events handled and latency.
pub fn log_crit_dispatch(id: TaskId, n_done: u8, lat: u16) -> (line: Vec<u8>)
    ensures
        line@ == fit(kv("S81 crit id="@, id as nat) + kv(" n="@, n_done as nat) + kv(" lt="@, lat as nat), 56),
{
    let mut b = kv_new("S81 crit id=", id as u64);
    kv_add(&mut b, " n=", n_done as u64);
    kv_add(&mut b, " lt=", lat as u64);
    cut(b, 56)
}

/// A mailbox slot served later than its deadline.
pub fn log_deadline_violation(slot: usize, lat: u16, dl: u16, id: TaskId) -> (line: Vec<u8>)
    ensures
        line@ == fit(kv("E50 dl_viol slot="@, slot as nat) + kv(" lat="@, lat as nat) + kv(" dl="@, dl as nat) + kv(" id="@, id as nat), 72),
{
    let mut b = kv_new("E50 dl_viol slot=", slot as u64);
    kv_add(&mut b, " lat=", lat as u64);
    kv_add(&mut b, " dl=", dl as u64);
    kv_add(&mut b, " id=", id as u64);
    cut(b, 72)
}

/// The summary of a deadline-violation window.
pub fn log_deadline_summary(slot: usize, win_viol: u16, win_max: u16, dl: u16, t0: u32, t1: u32) -> (line: Vec<u8>)
    ensures
        line@ == fit(kv("E51 dl_sum slot="@, slot as nat) + kv(" v="@, win_viol as nat) + kv(" mx="@, win_max as nat) + kv(" dl="@, dl as nat) + kv(" t0="@, t0 as nat) + kv(" t1="@, t1 as nat), 96),
{
    let mut b = kv_new("E51 dl_sum slot=", slot as u64);
    kv_add(&mut b, " v=", win_viol as u64);
    kv_add(&mut b, " mx=", win_max as u64);
    kv_add(&mut b, " dl=", dl as u64);
    kv_add(&mut b, " t0=", t0 as u64);
    kv_add(&mut b, " t1=", t1 as u64);
    cut(b, 96)
}

/// A task saw mailbox overflows.
pub fn log_task_ovf_seen(id: TaskId, ovf_mask: u32) -> (line: Vec<u8>)
    ensures
        line@ == fit(kv("E40 task_ovf_seen id="@, id as nat) + kv(" o="@, ovf_mask as nat), 48),
{
    let mut b = kv_new("E40 task_ovf_seen id=", id as u64);
    kv_add(&mut b, " o=", ovf_mask as u64);
    cut(b, 48)
}

/// A task went to sleep until a tick.
pub fn log_sleep(id: TaskId, until: u64) -> (line: Vec<u8>)
    ensures
        line@ == fit(kv("S30 sleep id="@, id as nat) + kv(" until="@, until as nat), 64),
{
    let mut b = kv_new("S30 sleep id=", id as u64);
    kv_add(&mut b, " until=", until);
    cut(b, 64)
}

/// A sleeping task woke.
pub fn log_wake(id: TaskId) -> (line: Vec<u8>)
    ensures
        line@ == fit(kv("S31 wake id="@, id as nat), 32),
{
    let b = kv_new("S31 wake id=", id as u64);
    cut(b, 32)
}

/// A task began waiting on an event mask.
pub fn log_wait(id: TaskId, mask: u32) -> (line: Vec<u8>)
    ensures
        line@ == fit(kv("S40 wait id="@, id as nat) + kv(" m="@, mask as nat), 48),
{
    let mut b = kv_new("S40 wait id=", id as u64);
    kv_add(&mut b, " m=", mask as u64);
    cut(b, 48)
}

/// A subscription and the subscription mask after it.
pub fn log_sub(id: TaskId, mask: u32, sub_after: u32) -> (line: Vec<u8>)
    ensures
        line@ == fit(kv("S50 sub id="@, id as nat) + kv(" m="@, mask as nat) + kv(" s="@, sub_after as nat), 64),
{
    let mut b = kv_new("S50 sub id=", id as u64);
    kv_add(&mut b, " m=", mask as u64);
    kv_add(&mut b, " s=", sub_after as u64);
    cut(b, 64)
}

/// An unsubscription and the subscription mask after it.
pub fn log_unsub(id: TaskId, mask: u32, sub_after: u32) -> (line: Vec<u8>)
    ensures
        line@ == fit(kv("S51 unsub id="@, id as nat) + kv(" m="@, mask as nat) + kv(" s="@, sub_after as nat), 68),
{
    let mut b = kv_new("S51 unsub id=", id as u64);
    kv_add(&mut b, " m=", mask as u64);
    kv_add(&mut b, " s=", sub_after as u64);
    cut(b, 68)
}

/// A published event with its source and payload.
pub fn log_pub_ex(evt: u32, src: u8, payload: u32) -> (line: Vec<u8>)
    ensures
        line@ == fit(kv("S52 pub e="@, evt as nat) + kv(" src="@, src as nat) + kv(" pay="@, payload as nat), 72),
{
    let mut b = kv_new("S52 pub e=", evt as u64);
    kv_add(&mut b, " src=", src as u64);
    kv_add(&mut b, " pay=", payload as u64);
    cut(b, 72)
}

/// An event queued on a class queue, with the queue length after it.
pub fn log_evq_push(class: u8, evt: u32, src: u8, payload: u32, tick: u32, len: u16) -> (line: Vec<u8>)
    ensures
        line@ == fit(kv("S70 evq_push c="@, class as nat) + kv(" e="@, evt as nat) + kv(" src="@, src as nat) + kv(" pay="@, payload as nat) + kv(" t="@, tick as nat) + kv(" len="@, len as nat), 128),
{
    let mut b = kv_new("S70 evq_push c=", class as u64);
    kv_add(&mut b, " e=", evt as u64);
    kv_add(&mut b, " src=", src as u64);
    kv_add(&mut b, " pay=", payload as u64);
    kv_add(&mut b, " t=", tick as u64);
    kv_add(&mut b, " len=", len as u64);
    cut(b, 128)
}

/// An event taken from a class queue, with the queue length after it.
pub fn log_evq_pop(class: u8, evt: u32, src: u8, payload: u32, tick: u32, len_after: u16) -> (line: Vec<u8>)
    ensures
        line@ == fit(kv("S71 evq_pop c="@, class as nat) + kv(" e="@, evt as nat) + kv(" src="@, src as nat) + kv(" pay="@, payload as nat) + kv(" t="@, tick as nat) + kv(" len="@, len_after as nat), 128),
{
    let mut b = kv_new("S71 evq_pop c=", class as u64);
    kv_add(&mut b, " e=", evt as u64);
    kv_add(&mut b, " src=", src as u64);
    kv_add(&mut b, " pay=", payload as u64);
    kv_add(&mut b, " t=", tick as u64);
    kv_add(&mut b, " len=", len_after as u64);
    cut(b, 128)
}

/// A class queue refused an event; its overflow count.
pub fn log_evq_overflow(class: u8, count: u32) -> (line: Vec<u8>)
    ensures
        line@ == fit(kv("E30 evq_ovf c="@, class as nat) + kv(" n="@, count as nat), 48),
{
    let mut b = kv_new("E30 evq_ovf c=", class as u64);
    kv_add(&mut b, " n=", count as u64);
    cut(b, 48)
}

/// A class queue waited too long to be drained.
pub fn log_evq_starve(class: u8, ticks: u16, len: u16) -> (line: Vec<u8>)
    ensures
        line@ == fit(kv("E31 starve c="@, class as nat) + kv(" t="@, ticks as nat) + kv(" len="@, len as nat), 64),
{
    let mut b = kv_new("E31 starve c=", class as u64);
    kv_add(&mut b, " t=", ticks as u64);
    kv_add(&mut b, " len=", len as u64);
    cut(b, 64)
}

/// An event routed to a subscribed task.
pub fn log_route(class: u8, id: TaskId, deliver: u32, src: u8, payload: u32) -> (line: Vec<u8>)
    ensures
        line@ == fit(kv("S53 route c="@, class as nat) + kv(" id="@, id as nat) + kv(" d="@, deliver as nat) + kv(" src="@, src as nat) + kv(" pay="@, payload as nat), 112),
{
    let mut b = kv_new("S53 route c=", class as u64);
    kv_add(&mut b, " id=", id as u64);
    kv_add(&mut b, " d=", deliver as u64);
    kv_add(&mut b, " src=", src as u64);
    kv_add(&mut b, " pay=", payload as u64);
    cut(b, 112)
}

/// A mailbox delivery: counters and last sources and payloads.
pub fn log_mailbox(id: TaskId, deliver_mask: u32, bus: u8, fab: u8, logc: u8, bsrc: u8, bpay: u32, fsrc: u8, fpay: u32, lsrc: u8, lpay: u32) -> (line: Vec<u8>)
    ensures
        line@ == fit(kv("S60 mb id="@, id as nat) + kv(" d="@, deliver_mask as nat) + kv(" cB="@, bus as nat) + kv(" cF="@, fab as nat) + kv(" cL="@, logc as nat) + kv(" srcB="@, bsrc as nat) + kv(" payB="@, bpay as nat) + kv(" srcF="@, fsrc as nat) + kv(" payF="@, fpay as nat) + kv(" srcL="@, lsrc as nat) + kv(" payL="@, lpay as nat), 192),
{
    let mut b = kv_new("S60 mb id=", id as u64);
    kv_add(&mut b, " d=", deliver_mask as u64);
    kv_add(&mut b, " cB=", bus as u64);
    kv_add(&mut b, " cF=", fab as u64);
    kv_add(&mut b, " cL=", logc as u64);
    kv_add(&mut b, " srcB=", bsrc as u64);
    kv_add(&mut b, " payB=", bpay as u64);
    kv_add(&mut b, " srcF=", fsrc as u64);
    kv_add(&mut b, " payF=", fpay as u64);
    kv_add(&mut b, " srcL=", lsrc as u64);
    kv_add(&mut b, " payL=", lpay as u64);
    cut(b, 192)
}

/// A task's mailbox overflowed.
pub fn log_overflow(id: TaskId, evt: u32) -> (line: Vec<u8>)
    ensures
        line@ == fit(kv("E20 ovf id="@, id as nat) + kv(" e="@, evt as nat), 40),
{
    let mut b = kv_new("E20 ovf id=", id as u64);
    kv_add(&mut b, " e=", evt as u64);
    cut(b, 40)
}

/// A task drained its mailbox.
pub fn log_take_mail(id: TaskId, mask: u32, bus: u8, fab: u8, logc: u8, ovf: u32, bsrc: u8, bpay: u32, fsrc: u8, fpay: u32, lsrc: u8, lpay: u32) -> (line: Vec<u8>)
    ensures
        line@ == fit(kv("S61 take_mb id="@, id as nat) + kv(" m="@, mask as nat) + kv(" b="@, bus as nat) + kv(" f="@, fab as nat) + kv(" l="@, logc as nat) + kv(" o="@, ovf as nat) + kv(" srcB="@, bsrc as nat) + kv(" payB="@, bpay as nat) + kv(" srcF="@, fsrc as nat) + kv(" payF="@, fpay as nat) + kv(" srcL="@, lsrc as nat) + kv(" payL="@, lpay as nat), 208),
{
    let mut b = kv_new("S61 take_mb id=", id as u64);
    kv_add(&mut b, " m=", mask as u64);
    kv_add(&mut b, " b=", bus as u64);
    kv_add(&mut b, " f=", fab as u64);
    kv_add(&mut b, " l=", logc as u64);
    kv_add(&mut b, " o=", ovf as u64);
    kv_add(&mut b, " srcB=", bsrc as u64);
    kv_add(&mut b, " payB=", bpay as u64);
    kv_add(&mut b, " srcF=", fsrc as u64);
    kv_add(&mut b, " payF=", fpay as u64);
    kv_add(&mut b, " srcL=", lsrc as u64);
    kv_add(&mut b, " payL=", lpay as u64);
    cut(b, 208)
}

/// A waiting task's mask matched.
pub fn log_wait_hit(id: TaskId, mask: u32) -> (line: Vec<u8>)
    ensures
        line@ == fit(kv("S41 wait hit id="@, id as nat) + kv(" m="@, mask as nat), 52),
{
    let mut b = kv_new("S41 wait hit id=", id as u64);
    kv_add(&mut b, " m=", mask as u64);
    cut(b, 52)
}

/// A task was signalled; its pending mask after it.
pub fn log_signal(id: TaskId, evt: u32, pending_after: u32) -> (line: Vec<u8>)
    ensures
        line@ == fit(kv("S41 sig to="@, id as nat) + kv(" e="@, evt as nat) + kv(" p="@, pending_after as nat), 64),
{
    let mut b = kv_new("S41 sig to=", id as u64);
    kv_add(&mut b, " e=", evt as u64);
    kv_add(&mut b, " p=", pending_after as u64);
    cut(b, 64)
}

/// A waiting task woke on matched events.
pub fn log_wait_wake(id: TaskId, matched: u32, pending_after: u32) -> (line: Vec<u8>)
    ensures
        line@ == fit(kv("S42 wake id="@, id as nat) + kv(" m="@, matched as nat) + kv(" p="@, pending_after as nat), 64),
{
    let mut b = kv_new("S42 wake id=", id as u64);
    kv_add(&mut b, " m=", matched as u64);
    kv_add(&mut b, " p=", pending_after as u64);
    cut(b, 64)
}

/// A task took its wake mask.
pub fn log_take_wake(id: TaskId, mask: u32) -> (line: Vec<u8>)
    ensures
        line@ == fit(kv("S43 take id="@, id as nat) + kv(" m="@, mask as nat), 40),
{
    let mut b = kv_new("S43 take id=", id as u64);
    kv_add(&mut b, " m=", mask as u64);
    cut(b, 40)
}

/// A mailbox dispatch: events handled per slot and their latencies.
pub fn log_dispatch(id: TaskId, mask: u32, done: u8, bus_done: u8, fab_done: u8, log_done: u8, lat_timer: u16, lat_bus: u16, lat_fab: u16, lat_log: u16) -> (line: Vec<u8>)
    ensures
        line@ == fit(kv("S80 disp id="@, id as nat) + kv(" m="@, mask as nat) + kv(" done="@, done as nat) + kv(" b="@, bus_done as nat) + kv(" f="@, fab_done as nat) + kv(" l="@, log_done as nat) + kv(" lt="@, lat_timer as nat) + kv(" lb="@, lat_bus as nat) + kv(" lf="@, lat_fab as nat) + kv(" ll="@, lat_log as nat), 144),
{
    let mut b = kv_new("S80 disp id=", id as u64);
    kv_add(&mut b, " m=", mask as u64);
    kv_add(&mut b, " done=", done as u64);
    kv_add(&mut b, " b=", bus_done as u64);
    kv_add(&mut b, " f=", fab_done as u64);
    kv_add(&mut b, " l=", log_done as u64);
    kv_add(&mut b, " lt=", lat_timer as u64);
    kv_add(&mut b, " lb=", lat_bus as u64);
    kv_add(&mut b, " lf=", lat_fab as u64);
    kv_add(&mut b, " ll=", lat_log as u64);
    cut(b, 144)
}

/// A record the runtime leaves for the serial log, in the order of the
/// events it reports.
#[derive(Copy, Clone, PartialEq, Eq, Structural)]
pub enum LogRecord {
    /// The dispatch budgets changed (or the periodic report is due).
    Budget { pressure: u16, b0: u8, b1: u8, b2: u8 },
    /// A task changed state.
    TaskState { id: TaskId, new: TaskState },
    /// A transjector produced an event.
    TxOut { tid: u8, evt: u32, src: u8, payload: u32 },
    /// The logic task is alive.
    LogicAlive,
    /// The fabric task is alive.
    FabricAlive,
    /// A transjector registration: its id, slot, interest and raw kinds.
    TxReg { tid: u8, slot: u8, interest: u32, rawk: u32 },
    /// Timer jitter: a step whose tick delta exceeded fifty.
    Jitter { dt: u64 },
    /// A critical (timer) dispatch: events handled and latency.
    CritDispatch { id: TaskId, n_done: u8, lat: u16 },
    /// A mailbox slot served later than its deadline.
    DeadlineViolation { slot: usize, lat: u16, dl: u16, id: TaskId },
    /// The summary of a deadline-violation window.
    DeadlineSummary { slot: usize, win_viol: u16, win_max: u16, dl: u16, t0: u32, t1: u32 },
    /// A task saw mailbox overflows.
    TaskOvfSeen { id: TaskId, ovf_mask: u32 },
    /// A task went to sleep until a tick.
    Sleep { id: TaskId, until: u64 },
    /// A sleeping task woke.
    Wake { id: TaskId },
    /// A task began waiting on an event mask.
    Wait { id: TaskId, mask: u32 },
    /// A subscription and the subscription mask after it.
    Sub { id: TaskId, mask: u32, sub_after: u32 },
    /// An unsubscription and the subscription mask after it.
    Unsub { id: TaskId, mask: u32, sub_after: u32 },
    /// A published event with its source and payload.
    Publish { evt: u32, src: u8, payload: u32 },
    /// An event queued on a class queue, with the queue length after it.
    EvqPush { class: u8, evt: u32, src: u8, payload: u32, tick: u32, len: u16 },
    /// An event taken from a class queue, with the queue length after it.
    EvqPop { class: u8, evt: u32, src: u8, payload: u32, tick: u32, len_after: u16 },
    /// A class queue refused an event; its overflow count.
    EvqOverflow { class: u8, count: u32 },
    /// A class queue waited too long to be drained.
    EvqStarve { class: u8, ticks: u16, len: u16 },
    /// An event routed to a subscribed task.
    Route { class: u8, id: TaskId, deliver: u32, src: u8, payload: u32 },
    /// A mailbox delivery: counters and last sources and payloads.
    Mailbox { id: TaskId, deliver_mask: u32, bus: u8, fab: u8, logc: u8, bsrc: u8, bpay: u32, fsrc: u8, fpay: u32, lsrc: u8, lpay: u32 },
    /// A task's mailbox overflowed.
    Overflow { id: TaskId, evt: u32 },
    /// A task drained its mailbox.
    TakeMail { id: TaskId, mask: u32, bus: u8, fab: u8, logc: u8, ovf: u32, bsrc: u8, bpay: u32, fsrc: u8, fpay: u32, lsrc: u8, lpay: u32 },
    /// A waiting task's mask matched.
    WaitHit { id: TaskId, mask: u32 },
    /// A task was signalled; its pending mask after it.
    Signal { id: TaskId, evt: u32, pending_after: u32 },
    /// A waiting task woke on matched events.
    WaitWake { id: TaskId, matched: u32, pending_after: u32 },
    /// A task took its wake mask.
    TakeWake { id: TaskId, mask: u32 },
    /// A mailbox dispatch: events handled per slot and their latencies.
    Dispatch { id: TaskId, mask: u32, done: u8, bus_done: u8, fab_done: u8, log_done: u8, lat_timer: u16, lat_bus: u16, lat_fab: u16, lat_log: u16 },
}

/// The serial line of a record.
pub open spec fn spec_record_line(r: LogRecord) -> Seq<u8> {
    match r {
        LogRecord::Budget { pressure, b0, b1, b2 } => fit(kv("R20 bud p="@, pressure as nat) + kv(" b0="@, b0 as nat)
            + kv(" b1="@, b1 as nat) + kv(" b2="@, b2 as nat), 72),
        LogRecord::TaskState { id, new } => fit(kv("S20 task="@, id as nat) + encode_utf8(" -> "@)
            + encode_utf8(task_state_name(new)), 48),
        LogRecord::TxOut { tid, evt, src, payload } => fit(kv("T11 tx_out tid="@, tid as nat) + kv(" e="@, evt as nat)
            + kv(" src="@, src as nat) + kv(" p="@, payload as nat) + kv(" chan="@, spec_chan(payload) as nat), 104),
        LogRecord::LogicAlive => encode_utf8("T01 logic alive"@),
        LogRecord::FabricAlive => encode_utf8("T02 alive"@),
        LogRecord::TxReg { tid, slot, interest, rawk } => fit(kv("T10 tx_reg tid="@, tid as nat) + kv(" slot="@, slot as nat)
            + kv(" im="@, interest as nat) + kv(" rk="@, rawk as nat), 80),
        LogRecord::Jitter { dt } => fit(kv("EJ1 jitter dt="@, dt as nat), 48),
        LogRecord::CritDispatch { id, n_done, lat } => fit(kv("S81 crit id="@, id as nat) + kv(" n="@, n_done as nat) + kv(" lt="@, lat as nat), 56),
        LogRecord::DeadlineViolation { slot, lat, dl, id } => fit(kv("E50 dl_viol slot="@, slot as nat) + kv(" lat="@, lat as nat) + kv(" dl="@, dl as nat) + kv(" id="@, id as nat), 72),
        LogRecord::DeadlineSummary { slot, win_viol, win_max, dl, t0, t1 } => fit(kv("E51 dl_sum slot="@, slot as nat) + kv(" v="@, win_viol as nat) + kv(" mx="@, win_max as nat) + kv(" dl="@, dl as nat) + kv(" t0="@, t0 as nat) + kv(" t1="@, t1 as nat), 96),
        LogRecord::TaskOvfSeen { id, ovf_mask } => fit(kv("E40 task_ovf_seen id="@, id as nat) + kv(" o="@, ovf_mask as nat), 48),
        LogRecord::Sleep { id, until } => fit(kv("S30 sleep id="@, id as nat) + kv(" until="@, until as nat), 64),
        LogRecord::Wake { id } => fit(kv("S31 wake id="@, id as nat), 32),
        LogRecord::Wait { id, mask } => fit(kv("S40 wait id="@, id as nat) + kv(" m="@, mask as nat), 48),
        LogRecord::Sub { id, mask, sub_after } => fit(kv("S50 sub id="@, id as nat) + kv(" m="@, mask as nat) + kv(" s="@, sub_after as nat), 64),
        LogRecord::Unsub { id, mask, sub_after } => fit(kv("S51 unsub id="@, id as nat) + kv(" m="@, mask as nat) + kv(" s="@, sub_after as nat), 68),
        LogRecord::Publish { evt, src, payload } => fit(kv("S52 pub e="@, evt as nat) + kv(" src="@, src as nat) + kv(" pay="@, payload as nat), 72),
        LogRecord::EvqPush { class, evt, src, payload, tick, len } => fit(kv("S70 evq_push c="@, class as nat) + kv(" e="@, evt as nat) + kv(" src="@, src as nat) + kv(" pay="@, payload as nat) + kv(" t="@, tick as nat) + kv(" len="@, len as nat), 128),
        LogRecord::EvqPop { class, evt, src, payload, tick, len_after } => fit(kv("S71 evq_pop c="@, class as nat) + kv(" e="@, evt as nat) + kv(" src="@, src as nat) + kv(" pay="@, payload as nat) + kv(" t="@, tick as nat) + kv(" len="@, len_after as nat), 128),
        LogRecord::EvqOverflow { class, count } => fit(kv("E30 evq_ovf c="@, class as nat) + kv(" n="@, count as nat), 48),
        LogRecord::EvqStarve { class, ticks, len } => fit(kv("E31 starve c="@, class as nat) + kv(" t="@, ticks as nat) + kv(" len="@, len as nat), 64),
        LogRecord::Route { class, id, deliver, src, payload } => fit(kv("S53 route c="@, class as nat) + kv(" id="@, id as nat) + kv(" d="@, deliver as nat) + kv(" src="@, src as nat) + kv(" pay="@, payload as nat), 112),
        LogRecord::Mailbox { id, deliver_mask, bus, fab, logc, bsrc, bpay, fsrc, fpay, lsrc, lpay } => fit(kv("S60 mb id="@, id as nat) + kv(" d="@, deliver_mask as nat) + kv(" cB="@, bus as nat) + kv(" cF="@, fab as nat) + kv(" cL="@, logc as nat) + kv(" srcB="@, bsrc as nat) + kv(" payB="@, bpay as nat) + kv(" srcF="@, fsrc as nat) + kv(" payF="@, fpay as nat) + kv(" srcL="@, lsrc as nat) + kv(" payL="@, lpay as nat), 192),
        LogRecord::Overflow { id, evt } => fit(kv("E20 ovf id="@, id as nat) + kv(" e="@, evt as nat), 40),
        LogRecord::TakeMail { id, mask, bus, fab, logc, ovf, bsrc, bpay, fsrc, fpay, lsrc, lpay } => fit(kv("S61 take_mb id="@, id as nat) + kv(" m="@, mask as nat) + kv(" b="@, bus as nat) + kv(" f="@, fab as nat) + kv(" l="@, logc as nat) + kv(" o="@, ovf as nat) + kv(" srcB="@, bsrc as nat) + kv(" payB="@, bpay as nat) + kv(" srcF="@, fsrc as nat) + kv(" payF="@, fpay as nat) + kv(" srcL="@, lsrc as nat) + kv(" payL="@, lpay as nat), 208),
        LogRecord::WaitHit { id, mask } => fit(kv("S41 wait hit id="@, id as nat) + kv(" m="@, mask as nat), 52),
        LogRecord::Signal { id, evt, pending_after } => fit(kv("S41 sig to="@, id as nat) + kv(" e="@, evt as nat) + kv(" p="@, pending_after as nat), 64),
        LogRecord::WaitWake { id, matched, pending_after } => fit(kv("S42 wake id="@, id as nat) + kv(" m="@, matched as nat) + kv(" p="@, pending_after as nat), 64),
        LogRecord::TakeWake { id, mask } => fit(kv("S43 take id="@, id as nat) + kv(" m="@, mask as nat), 40),
        LogRecord::Dispatch { id, mask, done, bus_done, fab_done, log_done, lat_timer, lat_bus, lat_fab, lat_log } => fit(kv("S80 disp id="@, id as nat) + kv(" m="@, mask as nat) + kv(" done="@, done as nat) + kv(" b="@, bus_done as nat) + kv(" f="@, fab_done as nat) + kv(" l="@, log_done as nat) + kv(" lt="@, lat_timer as nat) + kv(" lb="@, lat_bus as nat) + kv(" lf="@, lat_fab as nat) + kv(" ll="@, lat_log as nat), 144),
    }
}

fn budget_line(pressure: u16, b0: u8, b1: u8, b2: u8) -> (line: Vec<u8>)
    ensures
        line@ == fit(kv("R20 bud p="@, pressure as nat) + kv(" b0="@, b0 as nat) + kv(" b1="@, b1 as nat)
            + kv(" b2="@, b2 as nat), 72),
{
    let mut b = kv_new("R20 bud p=", pressure as u64);
    kv_add(&mut b, " b0=", b0 as u64);
    kv_add(&mut b, " b1=", b1 as u64);
    kv_add(&mut b, " b2=", b2 as u64);
    cut(b, 72)
}

fn text_line(s: &str) -> (line: Vec<u8>)
    ensures
        line@ == encode_utf8(s@),
{
    let mut b: Vec<u8> = Vec::new();
    push_str(&mut b, s);
    assert(b@ =~= encode_utf8(s@));
    b
}

/// A transjector registration.
pub fn log_tx_reg(tid: u8, slot: u8, interest: u32, rawk: u32) -> (line: Vec<u8>)
    ensures
        line@ == fit(kv("T10 tx_reg tid="@, tid as nat) + kv(" slot="@, slot as nat) + kv(" im="@, interest as nat)
            + kv(" rk="@, rawk as nat), 80),
{
    let mut b = kv_new("T10 tx_reg tid=", tid as u64);
    kv_add(&mut b, " slot=", slot as u64);
    kv_add(&mut b, " im=", interest as u64);
    kv_add(&mut b, " rk=", rawk as u64);
    cut(b, 80)
}

/// The serial line of a record.
pub fn record_line(r: &LogRecord) -> (line: Vec<u8>)
    ensures
        line@ == spec_record_line(*r),
{
    match *r {
        LogRecord::Budget { pressure, b0, b1, b2 } => budget_line(pressure, b0, b1, b2),
        LogRecord::TaskState { id, new } => log_task_state_change(id, new),
        LogRecord::TxOut { tid, evt, src, payload } => log_tx_out(tid, evt, src, payload),
        LogRecord::LogicAlive => text_line("T01 logic alive"),
        LogRecord::FabricAlive => text_line("T02 alive"),
        LogRecord::TxReg { tid, slot, interest, rawk } => log_tx_reg(tid, slot, interest, rawk),
        LogRecord::Jitter { dt } => log_jitter(dt),
        LogRecord::CritDispatch { id, n_done, lat } => log_crit_dispatch(id, n_done, lat),
        LogRecord::DeadlineViolation { slot, lat, dl, id } => log_deadline_violation(slot, lat, dl, id),
        LogRecord::DeadlineSummary { slot, win_viol, win_max, dl, t0, t1 } => log_deadline_summary(slot, win_viol, win_max, dl, t0, t1),
        LogRecord::TaskOvfSeen { id, ovf_mask } => log_task_ovf_seen(id, ovf_mask),
        LogRecord::Sleep { id, until } => log_sleep(id, until),
        LogRecord::Wake { id } => log_wake(id),
        LogRecord::Wait { id, mask } => log_wait(id, mask),
        LogRecord::Sub { id, mask, sub_after } => log_sub(id, mask, sub_after),
        LogRecord::Unsub { id, mask, sub_after } => log_unsub(id, mask, sub_after),
        LogRecord::Publish { evt, src, payload } => log_pub_ex(evt, src, payload),
        LogRecord::EvqPush { class, evt, src, payload, tick, len } => log_evq_push(class, evt, src, payload, tick, len),
        LogRecord::EvqPop { class, evt, src, payload, tick, len_after } => log_evq_pop(class, evt, src, payload, tick, len_after),
        LogRecord::EvqOverflow { class, count } => log_evq_overflow(class, count),
        LogRecord::EvqStarve { class, ticks, len } => log_evq_starve(class, ticks, len),
        LogRecord::Route { class, id, deliver, src, payload } => log_route(class, id, deliver, src, payload),
        LogRecord::Mailbox { id, deliver_mask, bus, fab, logc, bsrc, bpay, fsrc, fpay, lsrc, lpay } => log_mailbox(id, deliver_mask, bus, fab, logc, bsrc, bpay, fsrc, fpay, lsrc, lpay),
        LogRecord::Overflow { id, evt } => log_overflow(id, evt),
        LogRecord::TakeMail { id, mask, bus, fab, logc, ovf, bsrc, bpay, fsrc, fpay, lsrc, lpay } => log_take_mail(id, mask, bus, fab, logc, ovf, bsrc, bpay, fsrc, fpay, lsrc, lpay),
        LogRecord::WaitHit { id, mask } => log_wait_hit(id, mask),
        LogRecord::Signal { id, evt, pending_after } => log_signal(id, evt, pending_after),
        LogRecord::WaitWake { id, matched, pending_after } => log_wait_wake(id, matched, pending_after),
        LogRecord::TakeWake { id, mask } => log_take_wake(id, mask),
        LogRecord::Dispatch { id, mask, done, bus_done, fab_done, log_done, lat_timer, lat_bus, lat_fab, lat_log } => log_dispatch(id, mask, done, bus_done, fab_done, log_done, lat_timer, lat_bus, lat_fab, lat_log),
    }
}

} // verus!
