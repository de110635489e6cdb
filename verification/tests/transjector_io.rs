use vectoros::boot::boot_state;
use vectoros::kernel_state::{
    RawEvent, EVT_BUS, EVT_FAB, EVT_LOG, RAWC_INTERNAL_PANIC, RAWC_MMIO_BUS_RX, RAWC_MMIO_BUS_TX, RAWC_MMIO_FAB_ALERT,
    RAWC_SOFTIRQ_BUS, RAWC_SOFTIRQ_FABRIC, RAWC_SOFTIRQ_LOG, RAW_INTERNAL, RAW_MMIO, RAW_SOFTIRQ, SRC_SOFTIRQ,
};
use vectoros::softirq::{SOFTIRQ_BUS, SOFTIRQ_FABRIC};
use vectoros::transjector::{
    make_softirq_raw, payload_get_chan, raw_kind_bit, tx_init_defaults, tx_set_enabled, tx_step, TIO_BUS_RX, TIO_BUS_SYS,
    TIO_BUS_TX, TIO_FAB_ALERT, TIO_FAB_CTRL, TIO_LOG_PANIC, TIO_LOG_TELEM,
};

fn raw(kind: u8, code: u16) -> RawEvent {
    RawEvent { src: SRC_SOFTIRQ, kind, code, arg: 0 }
}

fn out(kind: u8, code: u16) -> (u32, u8, u32) {
    let mut s = boot_state();
    tx_init_defaults(&mut s);
    let (_, ev) = tx_step(&mut s, raw(kind, code)).expect("mapped");
    (ev.evt_mask, payload_get_chan(ev.payload), (ev.payload >> 24) & 0xF)
}

#[test]
fn raw_events_map_to_their_ports() {
    assert_eq!(out(RAW_SOFTIRQ, RAWC_SOFTIRQ_BUS).0, EVT_BUS);
    assert_eq!(out(RAW_SOFTIRQ, RAWC_SOFTIRQ_BUS).1, TIO_BUS_SYS);
    assert_eq!(out(RAW_MMIO, RAWC_MMIO_BUS_RX).1, TIO_BUS_RX);
    assert_eq!(out(RAW_MMIO, RAWC_MMIO_BUS_TX).1, TIO_BUS_TX);
    assert_eq!(out(RAW_SOFTIRQ, RAWC_SOFTIRQ_FABRIC).0, EVT_FAB);
    assert_eq!(out(RAW_SOFTIRQ, RAWC_SOFTIRQ_FABRIC).1, TIO_FAB_CTRL);
    let alert = out(RAW_MMIO, RAWC_MMIO_FAB_ALERT);
    assert_eq!((alert.0, alert.1), (EVT_FAB, TIO_FAB_ALERT));
    assert!(alert.2 >= 3);
    assert_eq!(out(RAW_SOFTIRQ, RAWC_SOFTIRQ_LOG), (EVT_LOG, TIO_LOG_TELEM, out(RAW_SOFTIRQ, RAWC_SOFTIRQ_LOG).2));
    let panic = out(RAW_INTERNAL, RAWC_INTERNAL_PANIC);
    assert_eq!(panic, (EVT_LOG, TIO_LOG_PANIC, 4));
}

#[test]
fn disabled_transjector_emits_nothing() {
    let mut s = boot_state();
    tx_init_defaults(&mut s);
    let (tid, _) = tx_step(&mut s, raw(RAW_SOFTIRQ, RAWC_SOFTIRQ_BUS)).unwrap();
    assert!(tx_set_enabled(&mut s, tid, false));
    assert!(tx_step(&mut s, raw(RAW_SOFTIRQ, RAWC_SOFTIRQ_BUS)).is_none());
    assert!(!tx_set_enabled(&mut s, 200, true));
}

#[test]
fn softirq_bits_become_raw_events() {
    let r = make_softirq_raw(SRC_SOFTIRQ, SOFTIRQ_BUS).unwrap();
    assert_eq!((r.kind, r.code), (RAW_SOFTIRQ, RAWC_SOFTIRQ_BUS));
    assert_eq!(make_softirq_raw(SRC_SOFTIRQ, SOFTIRQ_FABRIC).unwrap().code, RAWC_SOFTIRQ_FABRIC);
    assert!(make_softirq_raw(SRC_SOFTIRQ, 1 << 9).is_none());
    assert_eq!(raw_kind_bit(1), 1);
    assert_eq!(raw_kind_bit(0), 0);
    assert_eq!(raw_kind_bit(32), 0);
}
