use vectoros::boot::boot_state;
use vectoros::kernel_state::TaskState;
use vectoros::runtime_log::{
    after_step_logs, log_dispatch, log_evq_push, log_jitter, log_sched, log_task_state_change, log_tick, log_tx_out,
};
use vectoros::transjector::pack_payload;

fn s(v: Vec<u8>) -> String {
    String::from_utf8(v).unwrap()
}

#[test]
fn tick_record() {
    let mut st = boot_state();
    st.tick = 256;
    st.missed = 2;
    st.max_dt = 3;
    assert_eq!(s(log_tick(&st, 1)), "R10 tick=256 dt=1 miss=2 max=3");
}

#[test]
fn sched_record_counts_ready_tasks() {
    let st = boot_state();
    assert_eq!(s(log_sched(&st)), "S10 cur=0 ready=2");
}

#[test]
fn records_are_cut_to_capacity() {
    let line = log_jitter(u64::MAX);
    assert_eq!(s(line), "EJ1 jitter dt=18446744073709551615");
    let long = log_evq_push(3, u32::MAX, 255, u32::MAX, u32::MAX, u16::MAX);
    assert_eq!(s(long), "S70 evq_push c=3 e=4294967295 src=255 pay=4294967295 t=4294967295 len=65535");
    let d = log_dispatch(7, u32::MAX, 255, 255, 255, 255, 65535, 65535, 65535, 65535);
    assert!(d.len() <= 144);
}

#[test]
fn state_change_and_tx_records() {
    assert_eq!(s(log_task_state_change(2, TaskState::Blocked)), "S20 task=2 -> Blocked");
    let p = pack_payload(1, 5, 0, 0, 0);
    let line = s(log_tx_out(3, 2, 6, p));
    assert!(line.starts_with("T11 tx_out tid=3 e=2 src=6 p="));
    assert!(line.ends_with(" chan=5"));
}

#[test]
fn main_loop_reports_every_256_ticks() {
    let mut st = boot_state();
    st.tick = 255;
    let (lines, last) = after_step_logs(&st, 1, 0);
    assert!(lines.is_empty());
    assert_eq!(last, 0);
    st.tick = 256;
    let (lines, last) = after_step_logs(&st, 1, 0);
    assert_eq!(lines.len(), 1);
    assert_eq!(last, 256);
    let (again, _) = after_step_logs(&st, 1, 256);
    assert!(again.is_empty());
    st.tick = 512;
    let (lines, last) = after_step_logs(&st, 1, 256);
    assert_eq!(lines.len(), 2);
    assert_eq!(s(lines[1].clone()), "S10 cur=0 ready=2");
    assert_eq!(last, 512);
}

#[test]
fn analyser_reads_back_the_tick_record() {
    let mut st = boot_state();
    st.tick = 1024;
    st.missed = 7;
    st.max_dt = 9;
    let line = log_tick(&st, 3);
    let r = vectoros::boot_log::analyze("serial.log", &line, vectoros::boot_log::Mode::Diagnostic).unwrap();
    assert_eq!(r.metrics.tick_samples, 1);
    assert_eq!(r.metrics.tick_first, Some(1024));
    let ticks = vectoros::boot_log::extract_ticks(&String::from_utf8(line).unwrap().chars().collect::<Vec<char>>());
    assert_eq!(ticks, vec![1024]);
}
