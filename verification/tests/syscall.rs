use vectoros::syscall::{
    consume, dispatch, dispatch_int80, errno, init, is_canonical_user_ptr, sys_log_line, Budget, IpcMsg, MsgRing,
    SyscallEffect, ERR_EBUSY, ERR_EFAULT, ERR_EINVAL, ERR_ERANGE, IDX_RAX, IDX_RDI, IDX_RDX, IDX_RSI,
    IPC_KIND_PING, IPC_KIND_PONG, IPC_MSG_SIZE, SYS_IPC_RECV, SYS_IPC_SEND, SYS_LOG, SYS_TICK, SYS_YIELD,
};

const USER_PTR: u64 = 0x40_0000;

#[test]
fn errno_is_twos_complement() {
    assert_eq!(errno(ERR_EBUSY), (-16i64) as u64);
    assert_eq!(errno(ERR_EINVAL), 0xFFFF_FFFF_FFFF_FFEA);
}

#[test]
fn canonical_pointer_ranges() {
    assert!(is_canonical_user_ptr(0x7FFF_FFFF_FFFF));
    assert!(!is_canonical_user_ptr(0x8000_0000_0000));
    assert!(!is_canonical_user_ptr(0xFFFF_7FFF_FFFF_FFFF));
    assert!(is_canonical_user_ptr(0xFFFF_8000_0000_0000));
}

#[test]
fn budget_resets_on_a_new_tick() {
    let mut b = Budget { tick: 5, used: 0 };
    assert!(consume(&mut b, 5, 40, 64));
    assert!(!consume(&mut b, 5, 30, 64));
    assert_eq!(b.used, 40);
    assert!(consume(&mut b, 6, 30, 64));
    assert_eq!((b.tick, b.used), (6, 30));
}

#[test]
fn ring_is_first_in_first_out() {
    let mut r = MsgRing::new();
    for i in 0..8u64 {
        assert!(r.push(IpcMsg { kind: 1, arg0: i, arg1: 0 }));
    }
    assert!(!r.push(IpcMsg { kind: 1, arg0: 99, arg1: 0 }));
    for i in 0..8u64 {
        assert_eq!(r.pop().unwrap().arg0, i);
    }
    assert!(r.pop().is_none());
}

#[test]
fn ping_is_answered_with_a_pong() {
    let mut s = init();
    let (r, _) = dispatch(&mut s, 1, SYS_IPC_SEND, IPC_KIND_PING as u64, 7, 0xB507);
    assert_eq!(r, 0);
    let (r, eff) = dispatch(&mut s, 1, SYS_IPC_RECV, USER_PTR, IPC_MSG_SIZE as u64, 0);
    assert_eq!(r, IPC_MSG_SIZE as u64);
    assert_eq!(eff, SyscallEffect::CopyOut { ptr: USER_PTR, msg: IpcMsg { kind: IPC_KIND_PONG, arg0: 7, arg1: 0xB507 } });
    let (r, eff) = dispatch(&mut s, 1, SYS_IPC_RECV, USER_PTR, IPC_MSG_SIZE as u64, 0);
    assert_eq!((r, eff), (0, SyscallEffect::Nothing));
}

#[test]
fn drain_handles_two_messages_per_tick() {
    let mut s = init();
    for i in 0..3u64 {
        dispatch(&mut s, 1, SYS_IPC_SEND, IPC_KIND_PING as u64, i, 0);
    }
    let (r1, _) = dispatch(&mut s, 1, SYS_IPC_RECV, USER_PTR, 24, 0);
    let (r2, _) = dispatch(&mut s, 1, SYS_IPC_RECV, USER_PTR, 24, 0);
    let (r3, _) = dispatch(&mut s, 1, SYS_IPC_RECV, USER_PTR, 24, 0);
    assert_eq!((r1, r2, r3), (24, 24, 0));
    let (r4, eff) = dispatch(&mut s, 2, SYS_IPC_RECV, USER_PTR, 24, 0);
    assert_eq!(r4, 24);
    assert_eq!(eff, SyscallEffect::CopyOut { ptr: USER_PTR, msg: IpcMsg { kind: IPC_KIND_PONG, arg0: 2, arg1: 0 } });
}

#[test]
fn syscall_errors() {
    let mut s = init();
    assert_eq!(dispatch(&mut s, 1, 99, 0, 0, 0).0, errno(ERR_EINVAL));
    assert_eq!(dispatch(&mut s, 1, SYS_IPC_SEND, 0, 0, 0).0, errno(ERR_EINVAL));
    assert_eq!(dispatch(&mut s, 1, SYS_IPC_RECV, USER_PTR, 23, 0).0, errno(ERR_ERANGE));
    assert_eq!(dispatch(&mut s, 1, SYS_IPC_RECV, 0, 24, 0).0, errno(ERR_EFAULT));
    assert_eq!(dispatch(&mut s, 1, SYS_LOG, 0, 5, 0).0, errno(ERR_EFAULT));
    assert_eq!(dispatch(&mut s, 1, SYS_LOG, USER_PTR, 257, 0).0, errno(ERR_ERANGE));
    assert_eq!(dispatch(&mut s, 1, SYS_LOG, 0xFFFF_FFFF_FFFF_FFF0, 32, 0).0, errno(ERR_EFAULT));
    assert_eq!(dispatch(&mut s, 1, SYS_LOG, USER_PTR, 0, 0), (0, SyscallEffect::Nothing));
}

#[test]
fn log_budget_is_sixty_four_bytes_per_tick() {
    let mut s = init();
    assert_eq!(dispatch(&mut s, 3, SYS_LOG, USER_PTR, 40, 0), (40, SyscallEffect::Log { ptr: USER_PTR, len: 40 }));
    assert_eq!(dispatch(&mut s, 3, SYS_LOG, USER_PTR, 30, 0).0, errno(ERR_EBUSY));
    assert_eq!(dispatch(&mut s, 4, SYS_LOG, USER_PTR, 30, 0).0, 30);
}

#[test]
fn send_ring_refuses_when_full() {
    let mut s = init();
    for i in 0..8u64 {
        assert_eq!(dispatch(&mut s, 1, SYS_IPC_SEND, 1, i, 0).0, 0);
    }
    assert_eq!(dispatch(&mut s, 1, SYS_IPC_SEND, 1, 8, 0).0, errno(ERR_EBUSY));
}

#[test]
fn tick_and_yield() {
    let mut s = init();
    assert_eq!(dispatch(&mut s, 42, SYS_TICK, 0, 0, 0), (42, SyscallEffect::Nothing));
    assert_eq!(dispatch(&mut s, 42, SYS_YIELD, 0, 0, 0), (0, SyscallEffect::YieldNotice));
    assert_eq!(dispatch(&mut s, 42, SYS_YIELD, 0, 0, 0), (0, SyscallEffect::Nothing));
}

#[test]
fn int80_charges_eight_calls_per_tick() {
    let mut s = init();
    let mut frame = [0u64; 15];
    for _ in 0..8 {
        frame[IDX_RAX] = SYS_TICK;
        dispatch_int80(&mut s, &mut frame, 9);
        assert_eq!(frame[IDX_RAX], 9);
    }
    frame[IDX_RAX] = SYS_TICK;
    assert_eq!(dispatch_int80(&mut s, &mut frame, 9), SyscallEffect::Nothing);
    assert_eq!(frame[IDX_RAX], errno(ERR_EBUSY));
    frame[IDX_RAX] = SYS_IPC_SEND;
    frame[IDX_RDI] = 1;
    frame[IDX_RSI] = 5;
    frame[IDX_RDX] = 6;
    dispatch_int80(&mut s, &mut frame, 10);
    assert_eq!(frame[IDX_RAX], 0);
}

#[test]
fn user_log_line_has_prefix() {
    assert_eq!(sys_log_line(b"hi"), b"UL: hi".to_vec());
}

#[test]
fn messages_read_back_from_user_memory() {
    let m = IpcMsg { kind: IPC_KIND_PONG, arg0: 0x0102_0304_0506_0708, arg1: u64::MAX - 5 };
    let bytes = vectoros::syscall::msg_bytes(m);
    assert_eq!(&bytes[0..8], &[2, 0, 0, 0, 0, 0, 0, 0]);
    assert_eq!(&bytes[8..16], &[8, 7, 6, 5, 4, 3, 2, 1]);
    assert_eq!(vectoros::syscall::msg_from_bytes(&bytes), m);
}
