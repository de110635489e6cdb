//! The userland system-call layer: per-tick budgets, the two bounded IPC
//! mailboxes, argument checks, dispatch, and the layout of a message in
//! user memory. Reading and writing user memory and printing are left to
//! the caller, which a dispatch tells what to do.
use vstd::prelude::*;
use crate::exobyte_format::{spec_le, read_u32_le, read_f64_bits_le};

verus! {

pub const SYS_LOG: u64 = 1;
pub const SYS_TICK: u64 = 2;
pub const SYS_YIELD: u64 = 3;
pub const SYS_IPC_SEND: u64 = 4;
pub const SYS_IPC_RECV: u64 = 5;

pub const SYS_LOG_MAX: usize = 256;
pub const SYS_LOG_BUDGET_BYTES_PER_TICK: u32 = 64;
pub const SYS_U_BUDGET_SYSCALLS_PER_TICK: u32 = 8;

pub const ERR_EINVAL: i64 = -22;
pub const ERR_EFAULT: i64 = -14;
pub const ERR_ERANGE: i64 = -34;
pub const ERR_EBUSY: i64 = -16;

/// Messages each mailbox holds.
pub const IPC_RING_CAP: usize = 8;
/// User-to-kernel messages handled per tick.
pub const IPC_DRAIN_BUDGET: u32 = 2;
pub const IPC_KIND_PING: u32 = 1;
pub const IPC_KIND_PONG: u32 = 2;
/// Size in bytes of an `IpcMsg` in user memory.
pub const IPC_MSG_SIZE: usize = 24;

pub const IDX_R10: usize = 5;
pub const IDX_R9: usize = 6;
pub const IDX_R8: usize = 7;
pub const IDX_RDI: usize = 9;
pub const IDX_RSI: usize = 10;
pub const IDX_RDX: usize = 11;
pub const IDX_RAX: usize = 14;

#[derive(Clone, Copy, PartialEq, Eq, Structural, Debug)]
pub struct IpcMsg {
    pub kind: u32,
    pub arg0: u64,
    pub arg1: u64,
}

/// A per-tick budget: the tick it counts for and what was used in it.
#[derive(Clone, Copy, PartialEq, Eq, Structural, Debug)]
pub struct Budget {
    pub tick: u64,
    pub used: u32,
}

/// A bounded FIFO of up to `IPC_RING_CAP` messages in a ring: the oldest
/// at `head`, `len` of them held.
pub struct MsgRing {
    pub buf: Vec<IpcMsg>,
    pub head: u8,
    pub len: u8,
}

impl MsgRing {
    pub open spec fn wf(&self) -> bool {
        &&& self.buf@.len() == IPC_RING_CAP
        &&& self.head < IPC_RING_CAP
        &&& self.len <= IPC_RING_CAP
    }

    /// The queued messages, oldest first.
    pub open spec fn contents(&self) -> Seq<IpcMsg> {
        Seq::new(self.len as nat, |i: int| self.buf@[(self.head + i) % (IPC_RING_CAP as int)])
    }

    pub fn new() -> (r: MsgRing)
        ensures
            r.wf(),
            r.contents() == Seq::<IpcMsg>::empty(),
    {
        let mut buf: Vec<IpcMsg> = Vec::new();
        let mut i: usize = 0;
        while i < IPC_RING_CAP
            invariant
                i <= IPC_RING_CAP,
                buf@.len() == i,
            decreases IPC_RING_CAP - i,
        {
            buf.push(IpcMsg { kind: 0, arg0: 0, arg1: 0 });
            i += 1;
        }
        let r = MsgRing { buf, head: 0, len: 0 };
        assert(r.contents() =~= Seq::<IpcMsg>::empty());
        r
    }

    /// Appends a message unless the ring is full.
    pub fn push(&mut self, msg: IpcMsg) -> (ok: bool)
        requires
            old(self).wf(),
        ensures
            final(self).wf(),
            ok == (old(self).contents().len() < IPC_RING_CAP),
            ok ==> final(self).contents() == old(self).contents().push(msg),
            !ok ==> final(self).contents() == old(self).contents(),
    {
        if self.len as usize >= IPC_RING_CAP {
            return false;
        }
        let ghost before = self.contents();
        let t = ((self.head + self.len) % 8) as usize;
        self.buf.set(t, msg);
        self.len = self.len + 1;
        assert(self.contents() =~= before.push(msg)) by {
            assert forall|i: int| 0 <= i < before.len() implies self.contents()[i] == before[i] by {
                assert((old(self).head + i) % 8 != t as int);
            }
        }
        true
    }

    /// Takes the oldest message, if any.
    pub fn pop(&mut self) -> (r: Option<IpcMsg>)
        requires
            old(self).wf(),
        ensures
            final(self).wf(),
            old(self).contents().len() == 0 ==> r is None && final(self).contents() == old(self).contents(),
            old(self).contents().len() > 0 ==> r == Some(old(self).contents()[0])
                && final(self).contents() == old(self).contents().drop_first(),
    {
        if self.len == 0 {
            return None;
        }
        let ghost before = self.contents();
        let msg = self.buf[self.head as usize];
        self.head = (self.head + 1) % 8;
        self.len = self.len - 1;
        assert(self.contents() =~= before.drop_first());
        Some(msg)
    }
}

/// What a budget becomes when `amount` is asked of it at `tick`, and whether
/// it was granted: a new tick starts from nothing used.
pub open spec fn spec_consume(b: Budget, tick: u64, amount: u32, limit: u32) -> (bool, Budget) {
    let used = if b.tick != tick { 0 } else { b.used as int };
    let next = if used + amount > u32::MAX { u32::MAX as int } else { used + amount };
    if next > limit {
        (false, Budget { tick, used: used as u32 })
    } else {
        (true, Budget { tick, used: next as u32 })
    }
}

/// Asks `amount` of a budget of `limit` per tick.
pub fn consume(b: &mut Budget, tick: u64, amount: u32, limit: u32) -> (ok: bool)
    ensures
        (ok, *final(b)) == spec_consume(*old(b), tick, amount, limit),
{
    if b.tick != tick {
        b.tick = tick;
        b.used = 0;
    }
    let next = b.used.saturating_add(amount);
    if next > limit {
        return false;
    }
    b.used = next;
    true
}

/// The system-call layer's state.
pub struct SyscallState {
    pub log_budget: Budget,
    pub syscall_budget: Budget,
    pub ipc_budget: Budget,
    pub yield_logged: bool,
    pub u2k: MsgRing,
    pub k2u: MsgRing,
}

/// The state as a mathematical value.
pub struct SysView {
    pub log_budget: Budget,
    pub syscall_budget: Budget,
    pub ipc_budget: Budget,
    pub yield_logged: bool,
    pub u2k: Seq<IpcMsg>,
    pub k2u: Seq<IpcMsg>,
}

impl View for SyscallState {
    type V = SysView;

    open spec fn view(&self) -> SysView {
        SysView {
            log_budget: self.log_budget,
            syscall_budget: self.syscall_budget,
            ipc_budget: self.ipc_budget,
            yield_logged: self.yield_logged,
            u2k: self.u2k.contents(),
            k2u: self.k2u.contents(),
        }
    }
}

impl SyscallState {
    /// Both mailboxes are well formed and no budget is over its limit.
    pub open spec fn wf(&self) -> bool {
        &&& self.u2k.wf()
        &&& self.k2u.wf()
        &&& self.log_budget.used <= SYS_LOG_BUDGET_BYTES_PER_TICK
        &&& self.syscall_budget.used <= SYS_U_BUDGET_SYSCALLS_PER_TICK
        &&& self.ipc_budget.used <= IPC_DRAIN_BUDGET
    }
}

/// A budget that has counted nothing yet.
pub open spec fn fresh_budget() -> Budget {
    Budget { tick: u64::MAX, used: 0 }
}

/// The state at boot: fresh budgets, empty mailboxes, no yield seen.
pub fn init() -> (s: SyscallState)
    ensures
        s.wf(),
        s@ == (SysView {
            log_budget: fresh_budget(),
            syscall_budget: fresh_budget(),
            ipc_budget: fresh_budget(),
            yield_logged: false,
            u2k: Seq::empty(),
            k2u: Seq::empty(),
        }),
{
    SyscallState {
        log_budget: Budget { tick: u64::MAX, used: 0 },
        syscall_budget: Budget { tick: u64::MAX, used: 0 },
        ipc_budget: Budget { tick: u64::MAX, used: 0 },
        yield_logged: false,
        u2k: MsgRing::new(),
        k2u: MsgRing::new(),
    }
}

/// The return value of an error: its code as a two's-complement word.
pub open spec fn spec_errno(code: i64) -> u64 {
    code as u64
}

pub fn errno(code: i64) -> (r: u64)
    ensures
        r == spec_errno(code),
{
    code as u64
}

/// A user pointer is canonical when bits 47 to 63 are all equal.
pub open spec fn spec_canonical(ptr: u64) -> bool {
    let sign = (ptr >> 47) & 1;
    let upper = ptr >> 48;
    if sign == 0 { upper == 0 } else { upper == 0xFFFF }
}

pub fn is_canonical_user_ptr(ptr: u64) -> (r: bool)
    ensures
        r == spec_canonical(ptr),
{
    let sign = (ptr >> 47) & 1;
    let upper = ptr >> 48;
    if sign == 0 {
        upper == 0
    } else {
        upper == 0xFFFF
    }
}

/// Canonical pointers are those of the lower half below 2^47 and those of
/// the upper half from 0xFFFF_8000_0000_0000 on.
pub proof fn lemma_canonical_ranges(ptr: u64)
    ensures
        spec_canonical(ptr) <==> (ptr < 0x8000_0000_0000 || ptr >= 0xFFFF_8000_0000_0000),
{
    assert(spec_canonical(ptr) <==> (ptr < 0x8000_0000_0000 || ptr >= 0xFFFF_8000_0000_0000)) by (bit_vector);
}

/// The budget of system calls of one tick.
pub fn try_consume_syscall_budget(s: &mut SyscallState, tick: u64) -> (ok: bool)
    ensures
        (ok, final(s)@.syscall_budget) == spec_consume(old(s)@.syscall_budget, tick, 1, SYS_U_BUDGET_SYSCALLS_PER_TICK),
        final(s)@ == (SysView { syscall_budget: final(s)@.syscall_budget, ..old(s)@ }),
        old(s).wf() ==> final(s).wf(),
{
    consume(&mut s.syscall_budget, tick, 1, SYS_U_BUDGET_SYSCALLS_PER_TICK)
}

/// The budget of mailbox messages handled in one tick.
pub fn try_consume_ipc_budget(s: &mut SyscallState, tick: u64) -> (ok: bool)
    ensures
        (ok, final(s)@.ipc_budget) == spec_consume(old(s)@.ipc_budget, tick, 1, IPC_DRAIN_BUDGET),
        final(s)@ == (SysView { ipc_budget: final(s)@.ipc_budget, ..old(s)@ }),
        old(s).wf() ==> final(s).wf(),
{
    consume(&mut s.ipc_budget, tick, 1, IPC_DRAIN_BUDGET)
}

/// The log budget: a request larger than a whole tick's budget is refused
/// without touching it.
pub open spec fn spec_log_consume(b: Budget, tick: u64, bytes: u32) -> (bool, Budget) {
    if bytes > SYS_LOG_BUDGET_BYTES_PER_TICK {
        (false, b)
    } else {
        spec_consume(b, tick, bytes, SYS_LOG_BUDGET_BYTES_PER_TICK)
    }
}

pub fn try_consume_log_budget(s: &mut SyscallState, tick: u64, bytes: u32) -> (ok: bool)
    ensures
        (ok, final(s)@.log_budget) == spec_log_consume(old(s)@.log_budget, tick, bytes),
        final(s)@ == (SysView { log_budget: final(s)@.log_budget, ..old(s)@ }),
        old(s).wf() ==> final(s).wf(),
{
    if bytes > SYS_LOG_BUDGET_BYTES_PER_TICK {
        return false;
    }
    consume(&mut s.log_budget, tick, bytes, SYS_LOG_BUDGET_BYTES_PER_TICK)
}


/// Consuming never takes a budget over its limit: afterwards the count is
/// within the limit, or it is the count of the same tick left unchanged;
/// and the budget then belongs to the tick asked about.
pub proof fn lemma_consume_within(b: Budget, tick: u64, amount: u32, limit: u32)
    ensures
        spec_consume(b, tick, amount, limit).1.used <= limit || (b.tick == tick && spec_consume(b, tick, amount, limit).1.used == b.used),
        spec_consume(b, tick, amount, limit).0 ==> spec_consume(b, tick, amount, limit).1.used <= limit,
        spec_consume(b, tick, amount, limit).1.tick == tick,
{
}

/// The reply to a ping.
pub open spec fn pong(m: IpcMsg) -> IpcMsg {
    IpcMsg { kind: IPC_KIND_PONG, arg0: m.arg0, arg1: m.arg1 }
}

/// What is left of the tick's drain budget, for termination.
pub open spec fn drain_measure(v: SysView, tick: u64) -> int {
    if v.ipc_budget.tick == tick { 2 - v.ipc_budget.used } else { 3 }
}

/// Handling user-to-kernel messages while the tick's budget allows: each
/// turn spends a unit, then takes the oldest message; a ping is answered
/// with a pong when the kernel-to-user mailbox has room.
pub open spec fn spec_drain(v: SysView, tick: u64) -> SysView
    decreases drain_measure(v, tick),
{
    let (ok, b) = spec_consume(v.ipc_budget, tick, 1, IPC_DRAIN_BUDGET);
    let v1 = SysView { ipc_budget: b, ..v };
    if !ok || v1.u2k.len() == 0 {
        v1
    } else {
        let m = v1.u2k[0];
        let v2 = SysView { u2k: v1.u2k.drop_first(), ..v1 };
        let v3 = if m.kind == IPC_KIND_PING && v2.k2u.len() < IPC_RING_CAP {
            SysView { k2u: v2.k2u.push(pong(m)), ..v2 }
        } else {
            v2
        };
        spec_drain(v3, tick)
    }
}

/// Handles queued user messages within the tick's drain budget.
pub fn process_ipc_budgeted(s: &mut SyscallState, tick: u64)
    requires
        old(s).wf(),
    ensures
        final(s).wf(),
        final(s)@ == spec_drain(old(s)@, tick),
{
    loop
        invariant
            s.wf(),
            spec_drain(s@, tick) == spec_drain(old(s)@, tick),
        decreases drain_measure(s@, tick),
    {
        let ghost v = s@;
        if !try_consume_ipc_budget(s, tick) {
            return;
        }
        match s.u2k.pop() {
            None => {
                return;
            },
            Some(msg) => {
                if msg.kind == IPC_KIND_PING {
                    let _ = s.k2u.push(IpcMsg { kind: IPC_KIND_PONG, arg0: msg.arg0, arg1: msg.arg1 });
                }
            },
        }
        assert(spec_drain(v, tick) == spec_drain(s@, tick));
    }
}

/// What the caller must do after a system call.
#[derive(Clone, Copy, PartialEq, Eq, Structural, Debug)]
pub enum SyscallEffect {
    Nothing,
    /// Copy `len` bytes from user address `ptr` and print them as a `UL: ` line.
    Log { ptr: u64, len: u64 },
    /// Print the one-time `UY0 yield noop` line.
    YieldNotice,
    /// Write the message to user address `ptr`.
    CopyOut { ptr: u64, msg: IpcMsg },
}

/// A user range is acceptable when its start is a canonical non-null
/// address and its end does not wrap.
pub open spec fn bad_ptr(ptr: u64) -> bool {
    ptr == 0 || !spec_canonical(ptr)
}

pub open spec fn spec_sys_log(v: SysView, tick: u64, ptr: u64, len: u64) -> (u64, SyscallEffect, SysView) {
    if len == 0 {
        (0, SyscallEffect::Nothing, v)
    } else if bad_ptr(ptr) {
        (spec_errno(ERR_EFAULT), SyscallEffect::Nothing, v)
    } else if len > SYS_LOG_MAX {
        (spec_errno(ERR_ERANGE), SyscallEffect::Nothing, v)
    } else if ptr + len > u64::MAX {
        (spec_errno(ERR_EFAULT), SyscallEffect::Nothing, v)
    } else {
        let (ok, b) = spec_log_consume(v.log_budget, tick, len as u32);
        let v1 = SysView { log_budget: b, ..v };
        if !ok {
            (spec_errno(ERR_EBUSY), SyscallEffect::Nothing, v1)
        } else {
            (len, SyscallEffect::Log { ptr, len }, v1)
        }
    }
}

pub open spec fn spec_sys_yield(v: SysView) -> (u64, SyscallEffect, SysView) {
    if !v.yield_logged {
        (0, SyscallEffect::YieldNotice, SysView { yield_logged: true, ..v })
    } else {
        (0, SyscallEffect::Nothing, v)
    }
}

pub open spec fn spec_sys_ipc_send(v: SysView, kind: u64, arg0: u64, arg1: u64) -> (u64, SyscallEffect, SysView) {
    if kind == 0 || kind > u32::MAX {
        (spec_errno(ERR_EINVAL), SyscallEffect::Nothing, v)
    } else if v.u2k.len() >= IPC_RING_CAP {
        (spec_errno(ERR_EBUSY), SyscallEffect::Nothing, v)
    } else {
        (0, SyscallEffect::Nothing, SysView { u2k: v.u2k.push(IpcMsg { kind: kind as u32, arg0, arg1 }), ..v })
    }
}

pub open spec fn spec_sys_ipc_recv(v: SysView, tick: u64, ptr: u64, len: u64) -> (u64, SyscallEffect, SysView) {
    if len != IPC_MSG_SIZE {
        (spec_errno(ERR_ERANGE), SyscallEffect::Nothing, v)
    } else if bad_ptr(ptr) || ptr + len > u64::MAX {
        (spec_errno(ERR_EFAULT), SyscallEffect::Nothing, v)
    } else {
        let v1 = spec_drain(v, tick);
        if v1.k2u.len() == 0 {
            (0, SyscallEffect::Nothing, v1)
        } else {
            (IPC_MSG_SIZE as u64, SyscallEffect::CopyOut { ptr, msg: v1.k2u[0] }, SysView { k2u: v1.k2u.drop_first(), ..v1 })
        }
    }
}

/// A system call by number; unknown numbers are invalid.
pub open spec fn spec_dispatch(v: SysView, tick: u64, sysno: u64, a1: u64, a2: u64, a3: u64) -> (u64, SyscallEffect, SysView) {
    if sysno == SYS_LOG {
        spec_sys_log(v, tick, a1, a2)
    } else if sysno == SYS_TICK {
        (tick, SyscallEffect::Nothing, v)
    } else if sysno == SYS_YIELD {
        spec_sys_yield(v)
    } else if sysno == SYS_IPC_SEND {
        spec_sys_ipc_send(v, a1, a2, a3)
    } else if sysno == SYS_IPC_RECV {
        spec_sys_ipc_recv(v, tick, a1, a2)
    } else {
        (spec_errno(ERR_EINVAL), SyscallEffect::Nothing, v)
    }
}

fn sys_log(s: &mut SyscallState, tick: u64, ptr: u64, len: u64) -> (r: (u64, SyscallEffect))
    requires
        old(s).wf(),
    ensures
        final(s).wf(),
        (r.0, r.1, final(s)@) == spec_sys_log(old(s)@, tick, ptr, len),
{
    if len == 0 {
        return (0, SyscallEffect::Nothing);
    }
    if ptr == 0 || !is_canonical_user_ptr(ptr) {
        return (errno(ERR_EFAULT), SyscallEffect::Nothing);
    }
    if len > SYS_LOG_MAX as u64 {
        return (errno(ERR_ERANGE), SyscallEffect::Nothing);
    }
    if ptr.checked_add(len).is_none() {
        return (errno(ERR_EFAULT), SyscallEffect::Nothing);
    }
    if !try_consume_log_budget(s, tick, len as u32) {
        return (errno(ERR_EBUSY), SyscallEffect::Nothing);
    }
    (len, SyscallEffect::Log { ptr, len })
}

fn sys_yield(s: &mut SyscallState) -> (r: (u64, SyscallEffect))
    requires
        old(s).wf(),
    ensures
        final(s).wf(),
        (r.0, r.1, final(s)@) == spec_sys_yield(old(s)@),
{
    if !s.yield_logged {
        s.yield_logged = true;
        (0, SyscallEffect::YieldNotice)
    } else {
        (0, SyscallEffect::Nothing)
    }
}

fn sys_ipc_send(s: &mut SyscallState, kind: u64, arg0: u64, arg1: u64) -> (r: (u64, SyscallEffect))
    requires
        old(s).wf(),
    ensures
        final(s).wf(),
        (r.0, r.1, final(s)@) == spec_sys_ipc_send(old(s)@, kind, arg0, arg1),
{
    if kind == 0 || kind > u32::MAX as u64 {
        return (errno(ERR_EINVAL), SyscallEffect::Nothing);
    }
    let msg = IpcMsg { kind: kind as u32, arg0, arg1 };
    if !s.u2k.push(msg) {
        return (errno(ERR_EBUSY), SyscallEffect::Nothing);
    }
    (0, SyscallEffect::Nothing)
}

fn sys_ipc_recv(s: &mut SyscallState, tick: u64, ptr: u64, len: u64) -> (r: (u64, SyscallEffect))
    requires
        old(s).wf(),
    ensures
        final(s).wf(),
        (r.0, r.1, final(s)@) == spec_sys_ipc_recv(old(s)@, tick, ptr, len),
{
    if len != IPC_MSG_SIZE as u64 {
        return (errno(ERR_ERANGE), SyscallEffect::Nothing);
    }
    if ptr == 0 || !is_canonical_user_ptr(ptr) {
        return (errno(ERR_EFAULT), SyscallEffect::Nothing);
    }
    if ptr.checked_add(len).is_none() {
        return (errno(ERR_EFAULT), SyscallEffect::Nothing);
    }
    process_ipc_budgeted(s, tick);
    match s.k2u.pop() {
        None => (0, SyscallEffect::Nothing),
        Some(msg) => (IPC_MSG_SIZE as u64, SyscallEffect::CopyOut { ptr, msg }),
    }
}

/// Performs system call `sysno`, returning the caller's result word and
/// what remains to be done with user memory or the console.
pub fn dispatch(s: &mut SyscallState, tick: u64, sysno: u64, a1: u64, a2: u64, a3: u64) -> (r: (u64, SyscallEffect))
    requires
        old(s).wf(),
    ensures
        final(s).wf(),
        (r.0, r.1, final(s)@) == spec_dispatch(old(s)@, tick, sysno, a1, a2, a3),
{
    if sysno == SYS_LOG {
        sys_log(s, tick, a1, a2)
    } else if sysno == SYS_TICK {
        (tick, SyscallEffect::Nothing)
    } else if sysno == SYS_YIELD {
        sys_yield(s)
    } else if sysno == SYS_IPC_SEND {
        sys_ipc_send(s, a1, a2, a3)
    } else if sysno == SYS_IPC_RECV {
        sys_ipc_recv(s, tick, a1, a2)
    } else {
        (errno(ERR_EINVAL), SyscallEffect::Nothing)
    }
}

/// The `int 0x80` entry: charges the tick's system-call budget, then
/// dispatches on `rax` with `rdi`, `rsi`, `rdx` and writes the result to
/// `rax`.
pub fn dispatch_int80(s: &mut SyscallState, frame: &mut [u64; 15], tick: u64) -> (eff: SyscallEffect)
    requires
        old(s).wf(),
    ensures
        final(s).wf(),
        ({
            let (ok, b) = spec_consume(old(s)@.syscall_budget, tick, 1, SYS_U_BUDGET_SYSCALLS_PER_TICK);
            let v1 = SysView { syscall_budget: b, ..old(s)@ };
            if !ok {
                &&& final(frame)@ == old(frame)@.update(IDX_RAX as int, spec_errno(ERR_EBUSY))
                &&& eff == SyscallEffect::Nothing
                &&& final(s)@ == v1
            } else {
                let (res, e, v2) = spec_dispatch(v1, tick, old(frame)@[IDX_RAX as int], old(frame)@[IDX_RDI as int],
                    old(frame)@[IDX_RSI as int], old(frame)@[IDX_RDX as int]);
                &&& final(frame)@ == old(frame)@.update(IDX_RAX as int, res)
                &&& eff == e
                &&& final(s)@ == v2
            }
        }),
{
    if !try_consume_syscall_budget(s, tick) {
        frame[IDX_RAX] = errno(ERR_EBUSY);
        return SyscallEffect::Nothing;
    }
    let sysno = frame[IDX_RAX];
    let a1 = frame[IDX_RDI];
    let a2 = frame[IDX_RSI];
    let a3 = frame[IDX_RDX];
    let (res, eff) = dispatch(s, tick, sysno, a1, a2, a3);
    frame[IDX_RAX] = res;
    eff
}

/// The console line of a user log: `UL: ` and the payload.
pub fn sys_log_line(payload: &[u8]) -> (line: Vec<u8>)
    ensures
        line@ == seq![85u8, 76u8, 58u8, 32u8] + payload@,
{
    let mut line: Vec<u8> = Vec::new();
    line.push(85);
    line.push(76);
    line.push(58);
    line.push(32);
    line.extend_from_slice(payload);
    assert(line@ =~= seq![85u8, 76u8, 58u8, 32u8] + payload@);
    line
}


/// Per-tick accounting: within one tick a request is granted exactly when
/// what was used plus what is asked stays within the limit, and a new tick
/// starts from nothing used.
pub proof fn lemma_budget_per_tick(b: Budget, tick: u64, amount: u32, limit: u32)
    requires
        b.used <= limit,
        limit < u32::MAX,
    ensures
        b.tick == tick ==> (spec_consume(b, tick, amount, limit).0 <==> b.used + amount <= limit),
        b.tick != tick ==> (spec_consume(b, tick, amount, limit).0 <==> amount <= limit),
        spec_consume(b, tick, amount, limit).0 ==> spec_consume(b, tick, amount, limit).1.used
            == (if b.tick == tick { b.used + amount } else { amount as int }),
        spec_consume(b, tick, amount, limit).1.used <= limit,
{
}

/// A ping sent into empty mailboxes is answered: the next receive in the
/// same tick, with a fresh drain budget, hands back a pong with the ping's
/// arguments.
pub proof fn lemma_ping_pong(v: SysView, tick: u64, arg0: u64, arg1: u64, ptr: u64)
    requires
        v.u2k.len() == 0,
        v.k2u.len() == 0,
        v.ipc_budget.tick != tick,
        !bad_ptr(ptr),
        ptr + IPC_MSG_SIZE <= u64::MAX,
    ensures
        ({
            let (r1, _, v1) = spec_dispatch(v, tick, SYS_IPC_SEND, IPC_KIND_PING as u64, arg0, arg1);
            let (r2, e2, _) = spec_dispatch(v1, tick, SYS_IPC_RECV, ptr, IPC_MSG_SIZE as u64, 0);
            &&& r1 == 0
            &&& r2 == IPC_MSG_SIZE
            &&& e2 == SyscallEffect::CopyOut { ptr, msg: IpcMsg { kind: IPC_KIND_PONG, arg0, arg1 } }
        }),
{
    let (r1, _, v1) = spec_dispatch(v, tick, SYS_IPC_SEND, IPC_KIND_PING as u64, arg0, arg1);
    let m = IpcMsg { kind: IPC_KIND_PING, arg0, arg1 };
    assert(v1.u2k =~= seq![m]);
    let (ok, b) = spec_consume(v1.ipc_budget, tick, 1, IPC_DRAIN_BUDGET);
    let w1 = SysView { ipc_budget: b, ..v1 };
    let w2 = SysView { u2k: w1.u2k.drop_first(), ..w1 };
    let w3 = SysView { k2u: w2.k2u.push(pong(m)), ..w2 };
    assert(w3.u2k.len() == 0);
    assert(spec_drain(v1, tick) == spec_drain(w3, tick));
    let (ok2, b2) = spec_consume(w3.ipc_budget, tick, 1, IPC_DRAIN_BUDGET);
    assert(spec_drain(w3, tick) == SysView { ipc_budget: b2, ..w3 });
}


/// Byte `s / 8` of a 64-bit value (`s` a multiple of 8 below 64).
pub open spec fn b8(x: u64, s: u64) -> u8 {
    ((x >> s) & 0xff) as u8
}

/// The eight bytes of a 64-bit value, least significant first.
pub open spec fn le8(x: u64) -> Seq<u8> {
    seq![b8(x, 0), b8(x, 8), b8(x, 16), b8(x, 24), b8(x, 32), b8(x, 40), b8(x, 48), b8(x, 56)]
}

/// The 24 bytes of a message in user memory: `kind` little-endian, four
/// bytes of padding, then `arg0` and `arg1` little-endian.
pub open spec fn spec_msg_bytes(m: IpcMsg) -> Seq<u8> {
    le8(m.kind as u64).take(4) + seq![0u8, 0u8, 0u8, 0u8] + le8(m.arg0) + le8(m.arg1)
}

/// The message that 24 bytes of user memory hold.
pub open spec fn spec_msg_of(b: Seq<u8>) -> IpcMsg {
    IpcMsg { kind: spec_le(b, 0, 4) as u32, arg0: spec_le(b, 8, 8) as u64, arg1: spec_le(b, 16, 8) as u64 }
}

fn le8_bytes(x: u64) -> (r: [u8; 8])
    ensures
        r@ == le8(x),
{
    let r = [
        (x & 0xff) as u8, ((x >> 8) & 0xff) as u8, ((x >> 16) & 0xff) as u8, ((x >> 24) & 0xff) as u8,
        ((x >> 32) & 0xff) as u8, ((x >> 40) & 0xff) as u8, ((x >> 48) & 0xff) as u8, ((x >> 56) & 0xff) as u8,
    ];
    assert(x & 0xff == x >> 0u64 & 0xff) by (bit_vector);
    assert(r@ =~= le8(x));
    r
}

/// Lays a message out as user programs read it.
pub fn msg_bytes(m: IpcMsg) -> (out: [u8; 24])
    ensures
        out@ == spec_msg_bytes(m),
{
    let k = le8_bytes(m.kind as u64);
    let a = le8_bytes(m.arg0);
    let c = le8_bytes(m.arg1);
    let out = [
        k[0], k[1], k[2], k[3], 0, 0, 0, 0,
        a[0], a[1], a[2], a[3], a[4], a[5], a[6], a[7],
        c[0], c[1], c[2], c[3], c[4], c[5], c[6], c[7],
    ];
    assert(out@ =~= spec_msg_bytes(m));
    out
}

/// Reads a message from 24 bytes of user memory.
pub fn msg_from_bytes(b: &[u8; 24]) -> (m: IpcMsg)
    ensures
        m == spec_msg_of(b@),
{
    let mut i: usize = 0;
    let kind = match read_u32_le(b, &mut i) {
        Ok(v) => v,
        Err(_) => 0,
    };
    let mut i: usize = 8;
    let arg0 = match read_f64_bits_le(b, &mut i) {
        Ok(v) => v,
        Err(_) => 0,
    };
    let mut i: usize = 16;
    let arg1 = match read_f64_bits_le(b, &mut i) {
        Ok(v) => v,
        Err(_) => 0,
    };
    IpcMsg { kind, arg0, arg1 }
}

proof fn lemma_bytes_u64(x: u64)
    by (bit_vector)
    ensures
        x == ((x >> 0u64) & 0xff) + 256 * (((x >> 8u64) & 0xff) + 256 * (((x >> 16u64) & 0xff) + 256 * (((x >> 24u64) & 0xff)
            + 256 * (((x >> 32u64) & 0xff) + 256 * (((x >> 40u64) & 0xff) + 256 * (((x >> 48u64) & 0xff)
            + 256 * ((x >> 56u64) & 0xff))))))),
{
}

proof fn lemma_bytes_u32(x: u64)
    by (bit_vector)
    requires
        x < 0x1_0000_0000,
    ensures
        x == ((x >> 0u64) & 0xff) + 256 * (((x >> 8u64) & 0xff) + 256 * (((x >> 16u64) & 0xff) + 256 * ((x >> 24u64) & 0xff))),
{
}

proof fn lemma_bytes_small(x: u64)
    by (bit_vector)
    ensures
        (x >> 0u64) & 0xff < 256, (x >> 8u64) & 0xff < 256, (x >> 16u64) & 0xff < 256, (x >> 24u64) & 0xff < 256,
        (x >> 32u64) & 0xff < 256, (x >> 40u64) & 0xff < 256, (x >> 48u64) & 0xff < 256, (x >> 56u64) & 0xff < 256,
{
}

/// The little-endian value of the eight bytes of `x` at `i` is `x`.
proof fn lemma_le8_value(b: Seq<u8>, i: int, x: u64)
    requires
        0 <= i,
        i + 8 <= b.len(),
        b.subrange(i, i + 8) == le8(x),
    ensures
        spec_le(b, i, 8) == x,
{
    lemma_bytes_small(x);
    lemma_bytes_u64(x);
    assert(b[i] == b.subrange(i, i + 8)[0]);
    assert(b[i + 1] == b.subrange(i, i + 8)[1]);
    assert(b[i + 2] == b.subrange(i, i + 8)[2]);
    assert(b[i + 3] == b.subrange(i, i + 8)[3]);
    assert(b[i + 4] == b.subrange(i, i + 8)[4]);
    assert(b[i + 5] == b.subrange(i, i + 8)[5]);
    assert(b[i + 6] == b.subrange(i, i + 8)[6]);
    assert(b[i + 7] == b.subrange(i, i + 8)[7]);
    reveal_with_fuel(spec_le, 9);
}

/// The layout the kernel writes is the layout user programs read: a
/// message laid out in user memory reads back as itself.
pub proof fn lemma_msg_roundtrip(m: IpcMsg)
    ensures
        spec_msg_of(spec_msg_bytes(m)) == m,
{
    let b = spec_msg_bytes(m);
    let k = m.kind as u64;
    assert(b.subrange(8, 16) =~= le8(m.arg0));
    assert(b.subrange(16, 24) =~= le8(m.arg1));
    lemma_le8_value(b, 8, m.arg0);
    lemma_le8_value(b, 16, m.arg1);
    lemma_bytes_small(k);
    lemma_bytes_u32(k);
    assert(b[0] == b8(k, 0) && b[1] == b8(k, 8) && b[2] == b8(k, 16) && b[3] == b8(k, 24));
    reveal_with_fuel(spec_le, 5);
    assert(spec_le(b, 0, 4) == k);
}


/// A send is accepted exactly when its kind is valid and the user-to-kernel
/// mailbox holds fewer than `IPC_RING_CAP` messages; an invalid kind is
/// refused with `EINVAL` and a full mailbox with `EBUSY`, and neither
/// changes anything.
pub proof fn lemma_send_rule(v: SysView, tick: u64, kind: u64, arg0: u64, arg1: u64)
    ensures
        ({
            let (r, e, v2) = spec_dispatch(v, tick, SYS_IPC_SEND, kind, arg0, arg1);
            &&& e == SyscallEffect::Nothing
            &&& (kind == 0 || kind > u32::MAX) ==> r == spec_errno(ERR_EINVAL) && v2 == v
            &&& (kind != 0 && kind <= u32::MAX && v.u2k.len() >= IPC_RING_CAP) ==> r == spec_errno(ERR_EBUSY) && v2 == v
            &&& (kind != 0 && kind <= u32::MAX && v.u2k.len() < IPC_RING_CAP) ==> r == 0
                && v2 == SysView { u2k: v.u2k.push(IpcMsg { kind: kind as u32, arg0, arg1 }), ..v }
        }),
{
}

/// The state after `n` pings sent in a row, the `i`-th carrying `i`.
pub open spec fn after_sends(v: SysView, n: nat) -> SysView
    decreases n,
{
    if n == 0 { v } else { spec_dispatch(after_sends(v, (n - 1) as nat), 0, SYS_IPC_SEND, 1, (n - 1) as u64, 0).2 }
}

proof fn lemma_after_sends_len(v: SysView, n: nat)
    requires
        v.u2k.len() == 0,
        n <= IPC_RING_CAP,
    ensures
        after_sends(v, n).u2k.len() == n,
    decreases n,
{
    if n > 0 {
        lemma_after_sends_len(v, (n - 1) as nat);
    }
}

/// A mailbox holds `IPC_RING_CAP` (8) messages: into an empty one, eight
/// sends in a row are all accepted and the ninth is refused with `EBUSY`.
pub proof fn lemma_mailbox_holds_eight(v: SysView)
    requires
        v.u2k.len() == 0,
    ensures
        forall|n: nat| n < IPC_RING_CAP ==> (#[trigger] spec_dispatch(after_sends(v, n), 0, SYS_IPC_SEND, 1, n as u64, 0)).0 == 0,
        spec_dispatch(after_sends(v, 8), 0, SYS_IPC_SEND, 1, 8, 0).0 == spec_errno(ERR_EBUSY),
{
    assert forall|n: nat| n < IPC_RING_CAP implies (#[trigger] spec_dispatch(after_sends(v, n), 0, SYS_IPC_SEND, 1, n as u64, 0)).0 == 0 by {
        lemma_after_sends_len(v, n);
    }
    lemma_after_sends_len(v, 8);
}

/// Yielding always returns 0; only the first yield of a state that has not
/// yielded yet asks for the `UY0 yield noop` line, and a second yield never
/// does.
pub proof fn lemma_yield_notice_once(v: SysView, tick: u64, a1: u64, a2: u64, a3: u64)
    ensures
        ({
            let (r1, e1, v1) = spec_dispatch(v, tick, SYS_YIELD, a1, a2, a3);
            let (r2, e2, v2) = spec_dispatch(v1, tick, SYS_YIELD, a1, a2, a3);
            &&& r1 == 0 && r2 == 0
            &&& (e1 == SyscallEffect::YieldNotice) == !v.yield_logged
            &&& !v.yield_logged ==> e1 == SyscallEffect::YieldNotice
            &&& v.yield_logged ==> e1 == SyscallEffect::Nothing
            &&& e2 == SyscallEffect::Nothing
            &&& v2 == v1
        }),
{
}


/// The number of pings in a run of messages.
pub open spec fn count_pings(ms: Seq<IpcMsg>) -> nat
    decreases ms.len(),
{
    if ms.len() == 0 {
        0
    } else {
        (if ms[0].kind == IPC_KIND_PING { 1nat } else { 0nat }) + count_pings(ms.drop_first())
    }
}

/// Draining answers pings only: the kernel-to-user mailbox keeps what it
/// held and gains only pongs, at most one per ping taken from the
/// user-to-kernel mailbox, each carrying a ping's arguments; a mailbox with
/// no ping in it leaves the kernel-to-user one as it was.
pub proof fn lemma_drain_answers_only_pings(v: SysView, tick: u64)
    ensures
        ({
            let r = spec_drain(v, tick);
            &&& v.k2u.len() <= r.k2u.len() <= v.k2u.len() + count_pings(v.u2k)
            &&& r.k2u.subrange(0, v.k2u.len() as int) == v.k2u
            &&& forall|j: int| v.k2u.len() <= j < r.k2u.len() ==> (#[trigger] r.k2u[j]).kind == IPC_KIND_PONG
                && exists|m: int| 0 <= m < v.u2k.len() && v.u2k[m].kind == IPC_KIND_PING
                    && r.k2u[j] == pong(#[trigger] v.u2k[m])
            &&& count_pings(v.u2k) == 0 ==> r.k2u == v.k2u
        }),
    decreases drain_measure(v, tick),
{
    let (ok, b) = spec_consume(v.ipc_budget, tick, 1, IPC_DRAIN_BUDGET);
    let v1 = SysView { ipc_budget: b, ..v };
    let r = spec_drain(v, tick);
    if !ok || v1.u2k.len() == 0 {
        assert(r.k2u.subrange(0, v.k2u.len() as int) =~= v.k2u);
    } else {
        let m = v1.u2k[0];
        let v2 = SysView { u2k: v1.u2k.drop_first(), ..v1 };
        let v3 = if m.kind == IPC_KIND_PING && v2.k2u.len() < IPC_RING_CAP {
            SysView { k2u: v2.k2u.push(pong(m)), ..v2 }
        } else {
            v2
        };
        lemma_drain_answers_only_pings(v3, tick);
        assert(r == spec_drain(v3, tick));
        assert(count_pings(v.u2k) == (if m.kind == IPC_KIND_PING { 1nat } else { 0nat }) + count_pings(v2.u2k));
        assert(r.k2u.subrange(0, v.k2u.len() as int) =~= r.k2u.subrange(0, v3.k2u.len() as int).subrange(0, v.k2u.len() as int));
        assert forall|j: int| v.k2u.len() <= j < r.k2u.len() implies (#[trigger] r.k2u[j]).kind == IPC_KIND_PONG
            && exists|mi: int| 0 <= mi < v.u2k.len() && v.u2k[mi].kind == IPC_KIND_PING
                && r.k2u[j] == pong(#[trigger] v.u2k[mi]) by {
            if j < v3.k2u.len() {
                assert(r.k2u[j] == r.k2u.subrange(0, v3.k2u.len() as int)[j]);
                assert(r.k2u[j] == pong(m));
                assert(v.u2k[0] == m);
            } else {
                let mi = choose|mi: int| 0 <= mi < v2.u2k.len() && v2.u2k[mi].kind == IPC_KIND_PING
                    && r.k2u[j] == pong(#[trigger] v2.u2k[mi]);
                assert(v.u2k[mi + 1] == v2.u2k[mi]);
            }
        }
        if count_pings(v.u2k) == 0 {
            assert(r.k2u =~= v.k2u);
        }
    }
}


/// With nothing waiting for the user and no ping among the user's
/// messages, a well-formed receive finds nothing: it returns 0 and copies
/// nothing out.
pub proof fn lemma_receive_without_ping(v: SysView, tick: u64, ptr: u64)
    requires
        v.k2u.len() == 0,
        count_pings(v.u2k) == 0,
        !bad_ptr(ptr),
        ptr + IPC_MSG_SIZE <= u64::MAX,
    ensures
        spec_dispatch(v, tick, SYS_IPC_RECV, ptr, IPC_MSG_SIZE as u64, 0).0 == 0,
        spec_dispatch(v, tick, SYS_IPC_RECV, ptr, IPC_MSG_SIZE as u64, 0).1 == SyscallEffect::Nothing,
{
    lemma_drain_answers_only_pings(v, tick);
}

} // verus!
