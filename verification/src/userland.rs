//! The decisions of the `hello-sys` user program: the tick line it logs,
//! sending its pings, and waiting for the pongs. The program performs the
//! system calls; these state machines say what to do with each result.
use vstd::prelude::*;
use vstd::utf8::encode_utf8;
use crate::fmt::{fit, cut};
use crate::text::{spec_hex, push_str, push_hex};
use crate::syscall::{ERR_EBUSY, IPC_KIND_PING, IPC_KIND_PONG, IPC_MSG_SIZE};

verus! {

/// Number of pings sent, and pongs waited for.
pub const IPC_TARGET_PONGS: u32 = 3;
/// Receive attempts before the wait gives up.
pub const PONG_ROUNDS: u32 = 2048;
/// Base of the second argument of each ping.
pub const PING_TAG: u64 = 0xB500;

/// The line the program logs after reading the tick twice.
pub open spec fn spec_tick_line(t1: i64, t2: i64) -> Seq<u8> {
    fit(encode_utf8("tick t1="@) + spec_hex(t1 as u64 as nat) + encode_utf8(" t2="@) + spec_hex(t2 as u64 as nat), 96)
}

pub fn tick_line(t1: i64, t2: i64) -> (line: Vec<u8>)
    ensures
        line@ == spec_tick_line(t1, t2),
{
    let mut b: Vec<u8> = Vec::new();
    push_str(&mut b, "tick t1=");
    push_hex(&mut b, t1 as u64);
    push_str(&mut b, " t2=");
    push_hex(&mut b, t2 as u64);
    assert(b@ =~= encode_utf8("tick t1="@) + spec_hex(t1 as u64 as nat) + encode_utf8(" t2="@) + spec_hex(t2 as u64 as nat));
    cut(b, 96)
}

/// An IPC message to send: its kind and two arguments.
#[derive(Copy, Clone, PartialEq, Eq, Structural)]
pub struct IpcSend {
    pub kind: u32,
    pub arg0: u64,
    pub arg1: u64,
}

/// The `i`-th ping.
pub open spec fn spec_ping(i: u32) -> IpcSend {
    IpcSend { kind: IPC_KIND_PING, arg0: i as u64, arg1: (PING_TAG + i) as u64 }
}

/// What the sender does after a send returned.
#[derive(Copy, Clone, PartialEq, Eq, Structural)]
pub enum SendStep {
    /// IpcSend the next ping.
    Next,
    /// The kernel was busy: spin a while, then send the same ping again.
    Retry,
    /// All pings are sent.
    Done,
    /// The kernel refused the ping.
    Failed,
}

/// Sends the pings one after the other.
#[derive(Copy, Clone, PartialEq, Eq, Structural)]
pub struct PingSender {
    pub sent: u32,
}

impl PingSender {
    pub fn new() -> (s: Self)
        ensures
            s.sent == 0,
    {
        PingSender { sent: 0 }
    }

    /// The ping to send now.
    pub fn current(&self) -> (m: IpcSend)
        ensures
            m == spec_ping(self.sent),
    {
        IpcSend { kind: IPC_KIND_PING, arg0: self.sent as u64, arg1: PING_TAG + self.sent as u64 }
    }

    /// Takes the result of sending the current ping.
    pub fn on_result(&mut self, r: i64) -> (step: SendStep)
        requires
            old(self).sent < IPC_TARGET_PONGS,
        ensures
            r == ERR_EBUSY ==> step == SendStep::Retry && *final(self) == *old(self),
            r != ERR_EBUSY && r != 0 ==> step == SendStep::Failed && *final(self) == *old(self),
            r == 0 ==> final(self).sent == old(self).sent + 1
                && step == (if final(self).sent >= IPC_TARGET_PONGS { SendStep::Done } else { SendStep::Next }),
            final(self).sent <= IPC_TARGET_PONGS,
    {
        if r == ERR_EBUSY {
            return SendStep::Retry;
        }
        if r != 0 {
            return SendStep::Failed;
        }
        self.sent = self.sent + 1;
        if self.sent >= IPC_TARGET_PONGS {
            SendStep::Done
        } else {
            SendStep::Next
        }
    }
}

/// What the waiter does after a receive returned.
#[derive(Copy, Clone, PartialEq, Eq, Structural)]
pub enum RecvStep {
    /// Yield, spin a while and receive again.
    Again,
    /// Enough pongs arrived.
    Done,
    /// The kernel refused the receive.
    Failed,
    /// The rounds ran out first.
    TimedOut,
}

/// Waits for `target` pongs within a bounded number of receive rounds.
#[derive(Copy, Clone, PartialEq, Eq, Structural)]
pub struct PongWaiter {
    pub target: u32,
    pub got: u32,
    pub rounds: u32,
}

pub open spec fn waiter_wf(w: PongWaiter) -> bool {
    w.got < w.target && w.rounds < PONG_ROUNDS
}

impl PongWaiter {
    pub fn new(target: u32) -> (w: Self)
        ensures
            w == (PongWaiter { target, got: 0, rounds: 0 }),
    {
        PongWaiter { target, got: 0, rounds: 0 }
    }

    /// Takes the result `r` of a receive and the kind of the message it
    /// filled (read only when a whole message arrived).
    pub fn on_recv(&mut self, r: i64, kind: u32) -> (step: RecvStep)
        requires
            waiter_wf(*old(self)),
        ensures
            final(self).target == old(self).target,
            ({
                let pong = r == IPC_MSG_SIZE as i64 && kind == IPC_KIND_PONG;
                let got = if pong { old(self).got + 1 } else { old(self).got as int };
                &&& final(self).got == got
                &&& if pong && got >= old(self).target {
                    step == RecvStep::Done && final(self).rounds == old(self).rounds
                } else if r != IPC_MSG_SIZE as i64 && r != 0 && r != ERR_EBUSY {
                    step == RecvStep::Failed && final(self).rounds == old(self).rounds
                } else {
                    &&& final(self).rounds == old(self).rounds + 1
                    &&& step == (if final(self).rounds >= PONG_ROUNDS { RecvStep::TimedOut } else { RecvStep::Again })
                }
            }),
            step == RecvStep::Again ==> waiter_wf(*final(self)),
    {
        if r == IPC_MSG_SIZE as i64 {
            if kind == IPC_KIND_PONG {
                self.got = self.got + 1;
                if self.got >= self.target {
                    return RecvStep::Done;
                }
            }
        } else if r != 0 && r != ERR_EBUSY {
            return RecvStep::Failed;
        }
        self.rounds = self.rounds + 1;
        if self.rounds >= PONG_ROUNDS {
            RecvStep::TimedOut
        } else {
            RecvStep::Again
        }
    }
}

/// The waiter reports success only once it has counted `target` pongs, and
/// every round that goes on brings it one round nearer the limit.
pub proof fn lemma_waiter_sound(w0: PongWaiter, w1: PongWaiter, r: i64, kind: u32, step: RecvStep)
    requires
        waiter_wf(w0),
        w1.target == w0.target,
        ({
            let pong = r == IPC_MSG_SIZE as i64 && kind == IPC_KIND_PONG;
            let got = if pong { w0.got + 1 } else { w0.got as int };
            &&& w1.got == got
            &&& if pong && got >= w0.target {
                step == RecvStep::Done && w1.rounds == w0.rounds
            } else if r != IPC_MSG_SIZE as i64 && r != 0 && r != ERR_EBUSY {
                step == RecvStep::Failed && w1.rounds == w0.rounds
            } else {
                &&& w1.rounds == w0.rounds + 1
                &&& step == (if w1.rounds >= PONG_ROUNDS { RecvStep::TimedOut } else { RecvStep::Again })
            }
        }),
    ensures
        step == RecvStep::Done ==> w1.got >= w1.target,
        step == RecvStep::Again ==> w1.rounds == w0.rounds + 1 && w1.rounds < PONG_ROUNDS,
        w1.got <= w0.got + 1,
{
}

/// The program's exit status: 2 when a ping could not be sent, 0 when the
/// pongs arrived, 1 otherwise.
pub open spec fn spec_exit_code(sent: bool, pongs: bool) -> u64 {
    if !sent { 2 } else if pongs { 0 } else { 1 }
}

pub fn exit_code(sent: bool, pongs: bool) -> (c: u64)
    ensures
        c == spec_exit_code(sent, pongs),
{
    if !sent {
        2
    } else if pongs {
        0
    } else {
        1
    }
}

} // verus!
