use vectoros::userland::{exit_code, tick_line, PingSender, PongWaiter, RecvStep, SendStep, PONG_ROUNDS};

#[test]
fn tick_line_prints_hex() {
    assert_eq!(tick_line(0x1f, 0), b"tick t1=1f t2=0".to_vec());
    assert_eq!(tick_line(-1, 255), b"tick t1=ffffffffffffffff t2=ff".to_vec());
}

#[test]
fn sender_sends_three_pings_and_retries_when_busy() {
    let mut s = PingSender::new();
    let m = s.current();
    assert_eq!((m.kind, m.arg0, m.arg1), (1, 0, 0xB500));
    assert!(s.on_result(-16) == SendStep::Retry);
    assert_eq!(s.current().arg0, 0);
    assert!(s.on_result(0) == SendStep::Next);
    assert_eq!(s.current().arg1, 0xB501);
    assert!(s.on_result(0) == SendStep::Next);
    assert!(s.on_result(0) == SendStep::Done);
    let mut f = PingSender::new();
    assert!(f.on_result(-22) == SendStep::Failed);
}

#[test]
fn waiter_counts_pongs_only() {
    let mut w = PongWaiter::new(2);
    assert!(w.on_recv(24, 1) == RecvStep::Again);
    assert!(w.on_recv(0, 0) == RecvStep::Again);
    assert!(w.on_recv(-16, 0) == RecvStep::Again);
    assert!(w.on_recv(24, 2) == RecvStep::Again);
    assert!(w.on_recv(24, 2) == RecvStep::Done);
    assert_eq!((w.got, w.rounds), (2, 4));
    let mut e = PongWaiter::new(2);
    assert!(e.on_recv(-14, 0) == RecvStep::Failed);
}

#[test]
fn waiter_times_out() {
    let mut w = PongWaiter::new(3);
    let mut steps = 0;
    loop {
        steps += 1;
        match w.on_recv(0, 0) {
            RecvStep::Again => continue,
            RecvStep::TimedOut => break,
            _ => panic!("unexpected"),
        }
    }
    assert_eq!(steps, PONG_ROUNDS);
}

#[test]
fn exit_codes() {
    assert_eq!(exit_code(false, false), 2);
    assert_eq!(exit_code(true, true), 0);
    assert_eq!(exit_code(true, false), 1);
}
