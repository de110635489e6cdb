use vectoros::demo::{run, Sink};
use vectoros::quad::QuadReg;
use vectoros::transjector::{
    bus_pending, bus_push, bus_step_gated, pack_payload, payload_get_chan, payload_set_chan, trace_last,
    transject, Bus, StepResult, TransjectorEvent,
};
use vectoros::transvector::{fabric_step, inject, merge_by_id, read_by_id, register, write_by_id, Registry};

fn text(v: &[u8]) -> String {
    String::from_utf8(v.to_vec()).unwrap()
}

#[test]
fn quad_merge_keeps_equal_values_and_saturates_differences() {
    let all = [QuadReg::n(), QuadReg::f(), QuadReg::t(), QuadReg::s()];
    for a in all {
        for b in all {
            let m = a.merge(b).bits();
            if a.bits() == b.bits() {
                assert_eq!(m, a.bits());
            } else {
                assert_eq!(m, 3);
            }
            assert_eq!(m, b.merge(a).bits());
        }
    }
    assert_eq!(QuadReg::from_bits(6).bits(), 2);
}

#[test]
fn inject_assigns_state_and_physical_address() {
    let tv = inject(1, 1);
    assert_eq!(tv.id, 1);
    assert_eq!(tv.state.bits(), 2);
    assert_eq!(tv.phys_addr, 0x1100);
    assert_eq!(inject(2, 2).state.bits(), 1);
    assert_eq!(inject(3, 3).state.bits(), 3);
    assert_eq!(inject(4, 9).state.bits(), 0);
}

#[test]
fn registry_reads_back_what_was_written() {
    let mut reg = Registry::new();
    assert!(register(&mut reg, inject(7, 0)));
    assert!(write_by_id(&mut reg, 7, QuadReg::t()));
    assert_eq!(read_by_id(&reg, 7).unwrap().state.bits(), 2);
    assert!(!write_by_id(&mut reg, 8, QuadReg::t()));
    assert!(read_by_id(&reg, 8).is_none());
}

#[test]
fn registry_refuses_a_seventeenth_transvector() {
    let mut reg = Registry::new();
    for i in 0..16u64 {
        assert!(register(&mut reg, inject(i, 0)));
    }
    assert!(!register(&mut reg, inject(99, 0)));
    assert!(read_by_id(&reg, 99).is_none());
}

#[test]
fn merge_and_fabric_step() {
    let mut reg = Registry::new();
    register(&mut reg, inject(1, 1));
    register(&mut reg, inject(2, 2));
    assert_eq!(merge_by_id(&reg, 1, 2).unwrap().bits(), 3);
    assert!(merge_by_id(&reg, 1, 5).is_none());
    assert_eq!(fabric_step(&mut reg), 2);
    assert_eq!(read_by_id(&reg, 1).unwrap().state.bits(), 3);
    assert_eq!(read_by_id(&reg, 2).unwrap().state.bits(), 3);
    let mut empty = Registry::new();
    assert_eq!(fabric_step(&mut empty), 0);
}

#[test]
fn gate_allows_only_the_listed_transitions() {
    for inc in 0..4u8 {
        assert!(vectoros::transjector::allow(0, inc));
    }
    assert!(vectoros::transjector::allow(1, 0) && vectoros::transjector::allow(1, 2) && !vectoros::transjector::allow(1, 1) && !vectoros::transjector::allow(1, 3));
    assert!(vectoros::transjector::allow(2, 0) && vectoros::transjector::allow(2, 1) && !vectoros::transjector::allow(2, 2) && !vectoros::transjector::allow(2, 3));
    assert!(vectoros::transjector::allow(3, 3) && !vectoros::transjector::allow(3, 0) && !vectoros::transjector::allow(3, 1) && !vectoros::transjector::allow(3, 2));
}

#[test]
fn bus_lane_holds_eight_events() {
    let mut bus = Bus::new();
    let ev = TransjectorEvent { out_id: 1, t: transject(5, 0, 1) };
    for _ in 0..8 {
        assert!(bus_push(&mut bus, 0, ev));
    }
    assert!(!bus_push(&mut bus, 0, ev));
    assert!(!bus_push(&mut bus, 4, ev));
    assert_eq!(bus_pending(&bus), 8);
}

#[test]
fn gated_step_blocks_then_applies() {
    let mut reg = Registry::new();
    let mut bus = Bus::new();
    register(&mut reg, inject(1, 1));
    bus_push(&mut bus, 0, TransjectorEvent { out_id: 1, t: transject(9, 0, 3) });
    bus_push(&mut bus, 0, TransjectorEvent { out_id: 1, t: transject(10, 0, 0) });
    assert!(bus_step_gated(&mut bus, &mut reg) == StepResult::Blocked);
    let tr = trace_last(&bus);
    assert_eq!((tr.tick, tr.lane, tr.out_id, tr.in_id, tr.cur, tr.incoming, tr.result), (1, 0, 1, 9, 2, 3, 1));
    assert!(bus_step_gated(&mut bus, &mut reg) == StepResult::Applied);
    assert_eq!(read_by_id(&reg, 1).unwrap().state.bits(), 0);
    assert!(bus_step_gated(&mut bus, &mut reg) == StepResult::Empty);
    assert_eq!(trace_last(&bus).result, 2);
    assert_eq!(bus_pending(&bus), 0);
}

#[test]
fn bus_serves_lanes_round_robin() {
    let mut reg = Registry::new();
    let mut bus = Bus::new();
    register(&mut reg, inject(1, 0));
    bus_push(&mut bus, 2, TransjectorEvent { out_id: 1, t: transject(20, 2, 0) });
    bus_push(&mut bus, 0, TransjectorEvent { out_id: 1, t: transject(21, 0, 0) });
    bus_push(&mut bus, 0, TransjectorEvent { out_id: 1, t: transject(22, 0, 0) });
    bus_step_gated(&mut bus, &mut reg);
    assert_eq!(trace_last(&bus).in_id, 21);
    bus_step_gated(&mut bus, &mut reg);
    assert_eq!(trace_last(&bus).in_id, 20);
    bus_step_gated(&mut bus, &mut reg);
    assert_eq!(trace_last(&bus).in_id, 22);
}

#[test]
fn payload_channel_roundtrip() {
    let p = pack_payload(1, 5, 7, 2, 0);
    assert_eq!(payload_get_chan(p), 5);
    let q = payload_set_chan(p, 9);
    assert_eq!(payload_get_chan(q), 9);
    assert_eq!(payload_set_chan(p, 5), p);
}

#[test]
fn demo_reports_every_step() {
    let mut reg = Registry::new();
    let mut bus = Bus::new();
    let lines = run(&mut reg, &mut bus);
    let got: Vec<(bool, String)> = lines.iter().map(|l| (l.sink == Sink::Screen, text(&l.text))).collect();
    let expect: Vec<(bool, &str)> = vec![
        (true, "Transvector #1"),
        (true, "State: T"),
        (true, "Phys: 0x1100"),
        (true, "Updated state for ID 1:"),
        (true, "State: S"),
        (true, "Transvector #2"),
        (true, "State: F"),
        (false, "K05 bus push done"),
        (true, "Bus pending: 3"),
        (true, "Bus step: blocked"),
        (true, "Trace t=1 l=0 out=1 in=9 TS -> BLOCK"),
        (true, "State #1: T"),
        (true, "Bus step: applied"),
        (true, "Trace t=2 l=0 out=1 in=10 TN -> APPLY"),
        (true, "State #1: N"),
        (true, "Bus step: applied"),
        (true, "Trace t=3 l=0 out=1 in=11 NT -> APPLY"),
        (true, "State #1: T"),
        (false, "K06 bus steps done"),
        (true, "Merge(1,2):"),
        (true, "State: S"),
        (true, "Fabric applied: 2"),
        (true, "State #1: S"),
        (true, "State #2: S"),
        (false, "K07 fabric done"),
    ];
    let expect: Vec<(bool, String)> = expect.into_iter().map(|(s, t)| (s, t.to_string())).collect();
    assert_eq!(got, expect);
}
