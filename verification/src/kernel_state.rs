//! The kernel's state: task table, mailboxes, event queues, transjector
//! registrations and runtime counters, with its abstract model.
use vstd::prelude::*;
use crate::runtime_log::LogRecord;
use crate::transvector::{Registry, Transvector};
use crate::transjector::{Bus, TransjectorEvent, TraceRecord};

verus! {

pub type TaskId = u8;
pub const MAX_TASKS: usize = 8;
pub const SLEEP_NONE: u64 = 0xFFFF_FFFF_FFFF_FFFF;
pub const EVT_NONE: u32 = 0;
pub const EVT_TIMER: u32 = 1 << 0;
pub const EVT_BUS: u32 = 1 << 1;
pub const EVT_FAB: u32 = 1 << 2;
pub const EVT_LOG: u32 = 1 << 3;
pub const EVT_ALL: u32 = EVT_TIMER | EVT_BUS | EVT_FAB | EVT_LOG;
pub const EVT_SLOTS: usize = 4;
pub const SLOT_TIMER: usize = 0;
pub const SLOT_BUS: usize = 1;
pub const SLOT_FAB: usize = 2;
pub const SLOT_LOG: usize = 3;
pub const SRC_NONE: u8 = 0;
pub const SRC_SOFTIRQ: u8 = 1;
pub const SRC_TIMER: u8 = 2;
pub const SRC_DRIVER: u8 = 3;
pub const SRC_TASK: u8 = 4;
pub const SRC_HAL: u8 = 5;
pub const SRC_TX: u8 = 6;
pub const MAX_TX: usize = 8;

pub const RAW_SOFTIRQ: u8 = 1;
pub const RAW_IRQ: u8 = 2;
pub const RAW_MMIO: u8 = 3;
pub const RAW_INTERNAL: u8 = 4;

pub const RAWC_SOFTIRQ_TIMER: u16 = 0x0101;
pub const RAWC_SOFTIRQ_BUS: u16 = 0x0110;
pub const RAWC_SOFTIRQ_FABRIC: u16 = 0x0120;
pub const RAWC_SOFTIRQ_LOG: u16 = 0x0130;
pub const RAWC_IRQ_GRP_TIMER: u16 = 0x0200;
pub const RAWC_IRQ_GRP_BUS: u16 = 0x0210;
pub const RAWC_IRQ_GRP_FAB: u16 = 0x0220;
pub const RAWC_MMIO_BUS_RX: u16 = 0x0310;
pub const RAWC_MMIO_BUS_TX: u16 = 0x0311;
pub const RAWC_MMIO_FAB_ALERT: u16 = 0x0320;
pub const RAWC_INTERNAL_LOG_FLUSH: u16 = 0x0401;
pub const RAWC_INTERNAL_PANIC: u16 = 0x04F0;
pub const EC_CRIT: usize = 0;
pub const EC_HIGH: usize = 1;
pub const EC_NORM: usize = 2;
pub const EC_LOW: usize = 3;
pub const EC_COUNT: usize = 4;
pub const EVQ_CAP_CLASS: usize = 16;
pub const EVQ_DRAIN_BUDGET: u16 = 8;
pub const EVQ_DRAIN_QUOTA_PER_CLASS: u16 = 2;
pub const EVQ_STARVE_WARN_TICKS: u16 = 64;
pub const TASK_DISPATCH_BUDGET: u8 = 4;
pub const TASK_DISPATCH_MAX_SLOTS_PER_TICK: u8 = 2;
pub const TASK_DISPATCH_BUDGET_MIN: u8 = 2;
pub const TASK_DISPATCH_BUDGET_MAX: u8 = 8;
pub const CRIT_DISPATCH_BUDGET: u8 = 2;
pub const CRIT_DISPATCH_MAX_SLOTS_PER_TICK: u8 = 1;
pub const DL_TIMER: u16 = 2;
pub const DL_FAB: u16 = 4;
pub const DL_BUS: u16 = 8;
pub const DL_LOG: u16 = 32;
pub const DL_LOG_THROTTLE_TICKS: u32 = 64;
pub const DL_LOG_WINDOW_TICKS: u32 = 256;
pub const DL_LOG_MIN_PERIOD_TICKS: u32 = 64;

/// Per-class drain quota of the router's first pass.
pub fn evq_drain_quota(class: usize) -> (q: u16)
    ensures
        q == EVQ_DRAIN_QUOTA_PER_CLASS,
{
    EVQ_DRAIN_QUOTA_PER_CLASS
}

/// Deadline, in ticks, of a mailbox slot.
pub open spec fn spec_slot_deadline(slot: int) -> u16 {
    if slot == SLOT_TIMER { DL_TIMER } else if slot == SLOT_BUS { DL_BUS } else if slot == SLOT_FAB { DL_FAB } else { DL_LOG }
}

#[derive(Copy, Clone, PartialEq, Eq, Structural)]
pub enum TaskState {
    Ready,
    Blocked,
}

#[derive(Copy, Clone)]
pub struct EventFrame {
    pub evt_mask: u32,
    pub src_id: u8,
    pub tick: u32,
    pub payload: u32,
}

#[derive(Copy, Clone)]
pub struct RawEvent {
    pub src: u8,
    pub kind: u8,
    pub code: u16,
    pub arg: u32,
}

#[derive(Copy, Clone)]
pub struct VectorEvent {
    pub evt_mask: u32,
    pub src_id: u8,
    pub payload: u32,
}

/// The ingest routine a transjector registration uses.
#[derive(Copy, Clone, PartialEq, Eq, Structural)]
pub enum TxIngest {
    Timer,
    Fabric,
    Bus,
    Log,
}

pub fn event_frame_empty() -> (f: EventFrame)
    ensures
        f == (EventFrame { evt_mask: 0, src_id: SRC_NONE, tick: 0, payload: 0 }),
{
    EventFrame { evt_mask: 0, src_id: SRC_NONE, tick: 0, payload: 0 }
}

pub struct KernelState {
    pub tick: u64,
    pub last_irq_tick: u64,
    pub missed: u64,
    pub max_dt: u64,
    pub current_task: TaskId,
    pub task_count: u8,
    pub tasks: [TaskState; 8],
    pub sleep_until: [u64; 8],
    pub wait_mask: [u32; 8],
    pub pending_evt: [u32; 8],
    pub last_wake: [u32; 8],
    pub sub_mask: [u32; 8],
    pub mb_evt: [u32; 8],
    pub mb_cnt: [[u8; 4]; 8],
    pub mb_payload: [[u32; 4]; 8],
    pub mb_src: [[u8; 4]; 8],
    pub mb_tick: [[u32; 4]; 8],
    pub ovf: [u32; 8],
    pub handled_cnt: [[u16; 4]; 8],
    pub handled_ovf: [u16; 8],
    pub dispatch_budget: [u8; 8],
    pub dispatch_budget_last_log: u32,
    pub lat_max: [u16; 4],
    pub lat_last: [u16; 4],
    pub lat_viol: [u16; 4],
    pub dl_last_log_tick: [u32; 4],
    pub dl_win_viol: [u16; 4],
    pub dl_win_max: [u16; 4],
    pub dl_win_start_tick: [u32; 4],
    pub evq: [[EventFrame; 16]; 4],
    pub evq_head: [u16; 4],
    pub evq_tail: [u16; 4],
    pub evq_len: [u16; 4],
    pub evq_ovf: [u32; 4],
    pub evq_starve: [u16; 4],
    pub tx_used: [bool; 8],
    pub tx_enabled: [bool; 8],
    pub tx_tid: [u8; 8],
    pub tx_raw_kind_mask: [u32; 8],
    pub tx_interest_mask: [u32; 8],
    pub tx_ingest: [Option<TxIngest>; 8],
    pub tx_count: u8,
    pub woke: u64,
    pub logic_counter: u64,
    pub task2_counter: u64,
    pub softirq_pending: u32,
    pub fabric: Registry,
    pub bus: Bus,
    /// Records for the serial log, oldest first, until the caller takes them.
    pub log: Vec<LogRecord>,
}

/// The abstract model of the kernel state: every table as a sequence, each
/// event queue as the sequence of frames it holds, oldest first, and the
/// records for the serial log not yet taken.
#[verifier::ext_equal]
pub struct KernelView {
    pub tick: u64,
    pub last_irq_tick: u64,
    pub missed: u64,
    pub max_dt: u64,
    pub current_task: u8,
    pub task_count: u8,
    pub tasks: Seq<TaskState>,
    pub sleep_until: Seq<u64>,
    pub wait_mask: Seq<u32>,
    pub pending_evt: Seq<u32>,
    pub last_wake: Seq<u32>,
    pub sub_mask: Seq<u32>,
    pub mb_evt: Seq<u32>,
    pub mb_cnt: Seq<Seq<u8>>,
    pub mb_payload: Seq<Seq<u32>>,
    pub mb_src: Seq<Seq<u8>>,
    pub mb_tick: Seq<Seq<u32>>,
    pub ovf: Seq<u32>,
    pub handled_cnt: Seq<Seq<u16>>,
    pub handled_ovf: Seq<u16>,
    pub dispatch_budget: Seq<u8>,
    pub dispatch_budget_last_log: u32,
    pub lat_max: Seq<u16>,
    pub lat_last: Seq<u16>,
    pub lat_viol: Seq<u16>,
    pub dl_last_log_tick: Seq<u32>,
    pub dl_win_viol: Seq<u16>,
    pub dl_win_max: Seq<u16>,
    pub dl_win_start_tick: Seq<u32>,
    pub evq: Seq<Seq<EventFrame>>,
    pub evq_ovf: Seq<u32>,
    pub evq_starve: Seq<u16>,
    pub tx_used: Seq<bool>,
    pub tx_enabled: Seq<bool>,
    pub tx_tid: Seq<u8>,
    pub tx_raw_kind_mask: Seq<u32>,
    pub tx_interest_mask: Seq<u32>,
    pub tx_ingest: Seq<Option<TxIngest>>,
    pub tx_count: u8,
    pub woke: u64,
    pub logic_counter: u64,
    pub task2_counter: u64,
    pub softirq_pending: u32,
    pub fabric: Seq<Option<Transvector>>,
    pub bus_lanes: Seq<Seq<TransjectorEvent>>,
    pub bus_next: u8,
    pub bus_trace_tick: u32,
    pub bus_trace_last: TraceRecord,
    /// The records for the serial log not yet taken, oldest first.
    pub log: Seq<LogRecord>,
}

/// View of an 8 x 4 table.
pub open spec fn table_view<T>(t: [[T; 4]; 8]) -> Seq<Seq<T>> {
    Seq::new(8, |i: int| t@[i]@)
}

/// The frames held by event queue `class`, oldest first.
pub open spec fn queue_view(s: &KernelState, class: int) -> Seq<EventFrame> {
    Seq::new(s.evq_len@[class] as nat, |k: int| s.evq@[class]@[(s.evq_head@[class] as int + k) % 16])
}

impl View for KernelState {
    type V = KernelView;

    open spec fn view(&self) -> KernelView {
        KernelView {
            tick: self.tick,
            last_irq_tick: self.last_irq_tick,
            missed: self.missed,
            max_dt: self.max_dt,
            current_task: self.current_task,
            task_count: self.task_count,
            tasks: self.tasks@,
            sleep_until: self.sleep_until@,
            wait_mask: self.wait_mask@,
            pending_evt: self.pending_evt@,
            last_wake: self.last_wake@,
            sub_mask: self.sub_mask@,
            mb_evt: self.mb_evt@,
            mb_cnt: table_view(self.mb_cnt),
            mb_payload: table_view(self.mb_payload),
            mb_src: table_view(self.mb_src),
            mb_tick: table_view(self.mb_tick),
            ovf: self.ovf@,
            handled_cnt: table_view(self.handled_cnt),
            handled_ovf: self.handled_ovf@,
            dispatch_budget: self.dispatch_budget@,
            dispatch_budget_last_log: self.dispatch_budget_last_log,
            lat_max: self.lat_max@,
            lat_last: self.lat_last@,
            lat_viol: self.lat_viol@,
            dl_last_log_tick: self.dl_last_log_tick@,
            dl_win_viol: self.dl_win_viol@,
            dl_win_max: self.dl_win_max@,
            dl_win_start_tick: self.dl_win_start_tick@,
            evq: Seq::new(4, |c: int| queue_view(self, c)),
            evq_ovf: self.evq_ovf@,
            evq_starve: self.evq_starve@,
            tx_used: self.tx_used@,
            tx_enabled: self.tx_enabled@,
            tx_tid: self.tx_tid@,
            tx_raw_kind_mask: self.tx_raw_kind_mask@,
            tx_interest_mask: self.tx_interest_mask@,
            tx_ingest: self.tx_ingest@,
            tx_count: self.tx_count,
            woke: self.woke,
            logic_counter: self.logic_counter,
            task2_counter: self.task2_counter,
            softirq_pending: self.softirq_pending,
            fabric: self.fabric.slots@,
            bus_lanes: self.bus.lanes_view(),
            bus_next: self.bus.next_lane,
            bus_trace_tick: self.bus.trace_tick,
            bus_trace_last: self.bus.trace_last,
            log: self.log@,
        }
    }
}

/// Each event-queue ring is consistent: length within capacity, head in
/// range, and tail just after the last held frame.
pub open spec fn rings_wf(len: [u16; 4], head: [u16; 4], tail: [u16; 4]) -> bool {
    forall|c: int| 0 <= c < 4 ==> {
        &&& #[trigger] len@[c] <= 16
        &&& head@[c] < 16
        &&& tail@[c] as int == (head@[c] as int + len@[c] as int) % 16
    }
}

impl KernelState {
    /// Well-formed state: the task and transjector counts fit their tables,
    /// each event-queue ring is consistent, and the bus is well formed.
    pub open spec fn wf(&self) -> bool {
        &&& self.task_count as int <= MAX_TASKS
        &&& self.tx_count as int <= MAX_TX
        &&& self.bus.wf()
        &&& rings_wf(self.evq_len, self.evq_head, self.evq_tail)
    }
}

/// The frames of every queue have length at most the ring capacity.
pub proof fn lemma_queue_bounded(s: &KernelState)
    requires
        s.wf(),
    ensures
        forall|c: int| 0 <= c < 4 ==> (#[trigger] s@.evq[c]).len() <= EVQ_CAP_CLASS,
{
}

/// Appends a record for the serial log; nothing else changes.
pub fn log_push(state: &mut KernelState, r: LogRecord)
    ensures
        *final(state) == (KernelState { log: final(state).log, ..*old(state) }),
        final(state)@ == (KernelView { log: old(state)@.log.push(r), ..old(state)@ }),
        final(state).log@ == old(state).log@.push(r),
{
    state.log.push(r);
    proof {
        assert forall|c: int| 0 <= c < 4 implies queue_view(state, c) =~= queue_view(old(state), c) by {}
        assert(state@.evq =~= old(state)@.evq);
    }
}

} // verus!
