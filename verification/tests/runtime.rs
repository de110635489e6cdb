use vectoros::boot::boot_state;
use vectoros::kernel_state::{TaskState, EVT_BUS, EVT_FAB, EVT_TIMER};
use vectoros::runtime::{
    runtime_step, task_poll, task_set_state, task_signal, task_sleep, task_subscribe, task_take_wake, task_unsubscribe,
    task_wait, timer_contract_step,
};
use vectoros::softirq::{raise, take_pending, SOFTIRQ_BUS, SOFTIRQ_SCHED};

#[test]
fn timer_contract_counts_missed_ticks() {
    let mut s = boot_state();
    assert_eq!(timer_contract_step(&mut s, 5), 1);
    assert_eq!(s.tick, 5);
    assert_eq!(timer_contract_step(&mut s, 9), 4);
    assert_eq!((s.missed, s.max_dt), (3, 4));
    assert_eq!(timer_contract_step(&mut s, 7), 0);
    assert_eq!(s.tick, 7);
}

#[test]
fn waiting_task_wakes_on_a_matching_signal() {
    let mut s = boot_state();
    task_wait(&mut s, 1, EVT_BUS);
    assert!(s.tasks[1] == TaskState::Blocked);
    task_signal(&mut s, 1, EVT_FAB);
    assert!(s.tasks[1] == TaskState::Blocked);
    assert_eq!(task_poll(&s, 1, EVT_FAB), EVT_FAB);
    task_signal(&mut s, 1, EVT_BUS);
    assert!(s.tasks[1] == TaskState::Ready);
    assert_eq!(task_take_wake(&mut s, 1), EVT_BUS);
    assert_eq!(task_poll(&s, 1, EVT_BUS), 0);
}

#[test]
fn pending_events_satisfy_a_wait_at_once() {
    let mut s = boot_state();
    task_signal(&mut s, 0, EVT_TIMER);
    task_wait(&mut s, 0, EVT_TIMER);
    assert!(s.tasks[0] == TaskState::Ready);
}

#[test]
fn task_ids_out_of_range_are_ignored() {
    let mut s = boot_state();
    task_signal(&mut s, 5, EVT_BUS);
    task_set_state(&mut s, 7, TaskState::Ready);
    assert_eq!(task_poll(&s, 5, EVT_BUS), 0);
    assert!(s.tasks[7] == TaskState::Blocked);
}

#[test]
fn subscriptions_and_sleep() {
    let mut s = boot_state();
    task_subscribe(&mut s, 2, EVT_BUS | EVT_FAB);
    task_unsubscribe(&mut s, 2, EVT_BUS);
    assert_eq!(s.sub_mask[2], EVT_FAB);
    s.tick = 10;
    task_sleep(&mut s, 1, 5);
    assert!(s.tasks[1] == TaskState::Blocked);
    assert_eq!(s.sleep_until[1], 15);
}

#[test]
fn softirq_pending_mask() {
    let mut p = 0u32;
    raise(&mut p, SOFTIRQ_SCHED);
    raise(&mut p, SOFTIRQ_BUS);
    assert_eq!(take_pending(&mut p), SOFTIRQ_SCHED | SOFTIRQ_BUS);
    assert_eq!(take_pending(&mut p), 0);
}

#[test]
fn runtime_steps_follow_the_interrupt_tick() {
    let mut s = boot_state();
    let mut tick = 0u64;
    for _ in 0..300 {
        tick += 1;
        let dt = runtime_step(&mut s, tick, SOFTIRQ_SCHED);
        assert_eq!(dt, 1);
        assert_eq!(s.tick, tick);
    }
    assert_eq!(s.missed, 0);
    assert!(s.logic_counter > 0);
}

fn drain_lines(s: &mut vectoros::kernel_state::KernelState) -> Vec<String> {
    s.log
        .drain(..)
        .map(|r| String::from_utf8(vectoros::runtime_log::record_line(&r)).unwrap())
        .collect()
}

#[test]
fn runtime_leaves_records_for_the_serial_log() {
    let mut s = boot_state();
    s.tick = 10;
    task_sleep(&mut s, 1, 5);
    assert_eq!(drain_lines(&mut s), vec!["S20 task=1 -> Blocked", "S30 sleep id=1 until=15"]);
    task_subscribe(&mut s, 0, EVT_BUS);
    task_signal(&mut s, 0, EVT_BUS);
    assert_eq!(drain_lines(&mut s), vec!["S50 sub id=0 m=2 s=2", "S41 sig to=0 e=2 p=2"]);
    vectoros::runtime::publish_event_ex(&mut s, EVT_BUS, 4, 77);
    assert_eq!(drain_lines(&mut s), vec!["S52 pub e=2 src=4 pay=77", "S70 evq_push c=2 e=2 src=4 pay=77 t=10 len=1"]);
}

#[test]
fn logic_task_reports_liveness() {
    let mut s = boot_state();
    vectoros::transjector::tx_init_defaults(&mut s);
    let regs = drain_lines(&mut s);
    assert!(regs.iter().all(|l| l.starts_with("T10 tx_reg tid=")));
    assert!(!regs.is_empty());
    let mut seen = Vec::new();
    for tick in 1..=3000u64 {
        runtime_step(&mut s, tick, SOFTIRQ_SCHED);
        seen.extend(drain_lines(&mut s));
    }
    assert!(seen.iter().any(|l| l == "T01 logic alive"));
    assert!(seen.iter().any(|l| l.starts_with("S80 disp id=")));
}

#[test]
fn large_timer_gaps_are_reported() {
    let mut s = boot_state();
    timer_contract_step(&mut s, 5);
    timer_contract_step(&mut s, 50);
    assert!(drain_lines(&mut s).is_empty());
    timer_contract_step(&mut s, 120);
    assert_eq!(drain_lines(&mut s), vec!["EJ1 jitter dt=70"]);
}

#[test]
fn sleepers_wake_and_are_reported() {
    let mut s = boot_state();
    s.tick = 10;
    task_sleep(&mut s, 1, 5);
    drain_lines(&mut s);
    runtime_step(&mut s, 15, 0);
    let lines = drain_lines(&mut s);
    assert!(lines.iter().any(|l| l == "S31 wake id=1"));
    assert!(lines.iter().any(|l| l == "S20 task=1 -> Ready"));
}

#[test]
fn full_queues_report_overflow() {
    let mut s = boot_state();
    for k in 0..16u32 {
        vectoros::runtime::publish_event_ex(&mut s, EVT_BUS, 4, k);
    }
    drain_lines(&mut s);
    vectoros::runtime::publish_event_ex(&mut s, EVT_BUS, 4, 99);
    assert_eq!(drain_lines(&mut s), vec!["S52 pub e=2 src=4 pay=99", "E30 evq_ovf c=2 n=1"]);
}

#[test]
fn one_route_record_per_popped_frame() {
    let mut s = boot_state();
    task_subscribe(&mut s, 0, EVT_BUS);
    task_subscribe(&mut s, 1, EVT_BUS);
    s.tick = 3;
    vectoros::runtime::publish_event_ex(&mut s, EVT_BUS, 4, 12);
    drain_lines(&mut s);
    runtime_step(&mut s, 3, 0);
    let lines = drain_lines(&mut s);
    assert_eq!(lines.iter().filter(|l| l.starts_with("S71 evq_pop c=2")).count(), 1);
    let routes: Vec<&String> = lines.iter().filter(|l| l.starts_with("S53 route")).collect();
    assert_eq!(routes, vec!["S53 route c=2 id=0 d=2 src=4 pay=12"]);
}

#[test]
fn late_dispatch_counts_a_violation() {
    let mut s = boot_state();
    task_subscribe(&mut s, 1, EVT_BUS);
    s.tick = 1;
    s.last_irq_tick = 1;
    vectoros::runtime::publish_event_ex(&mut s, EVT_BUS, 4, 5);
    let mut tick = 40u64;
    for _ in 0..6 {
        runtime_step(&mut s, tick, 0);
        tick += 1;
    }
    assert!(s.lat_viol[vectoros::kernel_state::SLOT_BUS] >= 1);
    assert!(s.lat_max[vectoros::kernel_state::SLOT_BUS] > 8);
}

#[test]
fn adaptive_budgets_stay_in_bounds() {
    let mut s = boot_state();
    vectoros::transjector::tx_init_defaults(&mut s);
    for tick in 1..=1200u64 {
        runtime_step(&mut s, tick, SOFTIRQ_SCHED | SOFTIRQ_BUS);
        for b in &s.dispatch_budget[0..3] {
            assert!((2..=8).contains(b));
        }
    }
}
