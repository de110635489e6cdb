use vectoros::boot_log::{
    analyze, chars_of, count_contains, decode_text, detect_exception_tag, extract_ticks, find,
    has_boot_repeat_after_runtime, is_tick_monotonic, parse_args, CliCommand, Mode,
};
use vectoros::boot_log::{boot_sequence_ok, run_id, verdict_line};

const GOOD_LOG: &str = "Prometheus Bootloader\nGOP OK\nDisk OK\nKernel loaded\nExitBootServices OK\nJump to kernel\n\
K00 kernel entry\nK01 bootinfo ok\nK07 fabric done\nR00 runtime start\nT01 logic alive\nT02 alive\n\
R10 tick=256 dt=1 miss=0 max=1\nS10 cur=0 ready=2\nR10 tick=512 dt=1 miss=0 max=1\n";

fn c(s: &str) -> Vec<char> {
    s.chars().collect()
}

fn args(v: &[&str]) -> Vec<String> {
    v.iter().map(|s| s.to_string()).collect()
}

#[test]
fn counting_and_finding() {
    assert_eq!(count_contains(&c("aaaa"), &c("aa")), 2);
    assert_eq!(find(&c("xx R10 tick=5"), &c("R10")), Some(3));
    assert_eq!(find(&c("abc"), &c("d")), None);
    assert_eq!(chars_of("hé"), vec!['h', 'é']);
}

#[test]
fn ticks_are_read_from_r10_lines() {
    let t = c("R10 tick=5 dt=1\nnoise\nx R10 tick=7\nR10 tick=\nR10 tick=99999999999999999999\nR10 tick=8");
    assert_eq!(extract_ticks(&t), vec![5, 7, 8]);
    assert!(is_tick_monotonic(&[5, 7, 8]));
    assert!(!is_tick_monotonic(&[5, 5]));
    assert!(!is_tick_monotonic(&[]));
}

#[test]
fn boot_repeat_is_detected_only_after_runtime() {
    assert!(!has_boot_repeat_after_runtime(&c("Prometheus Bootloader\nR00 runtime start\n")));
    assert!(has_boot_repeat_after_runtime(&c("R00 runtime start\nPrometheus Bootloader\n")));
}

#[test]
fn exception_tags_in_priority_order() {
    assert_eq!(detect_exception_tag(&c("xpf cr2=1 xud v=6")), Some("XUD"));
    assert_eq!(detect_exception_tag(&c("xdf")), Some("XDF"));
    assert_eq!(detect_exception_tag(&c("fine")), None);
}

#[test]
fn decoding_utf16_and_utf8() {
    assert_eq!(decode_text(&[0xFF, 0xFE, b'h', 0, b'i', 0]), "hi");
    assert_eq!(decode_text(&[0xFE, 0xFF, 0, b'h', 0, b'i']), "hi");
    assert_eq!(decode_text(b"plain"), "plain");
    let mut bom_less = Vec::new();
    for ch in "a long enough utf-16 text without any mark".chars() {
        bom_less.push(ch as u8);
        bom_less.push(0);
    }
    assert_eq!(decode_text(&bom_less), "a long enough utf-16 text without any mark");
    assert_eq!(decode_text(&[0x66, 0xFF, 0x6F]), "f\u{FFFD}o");
}

#[test]
fn baseline_pass_on_a_clean_log() {
    let r = analyze("boot.log", GOOD_LOG.as_bytes(), Mode::Baseline).unwrap();
    assert!(r.pass);
    assert_eq!(r.verdict, "PASS");
    assert_eq!(r.mode, "baseline");
    assert!(r.notes.is_empty());
    assert!(r.markers.required_missing.is_empty());
    assert!(r.markers.runtime_started && r.markers.liveness_ok && r.markers.tick_monotonic);
    assert_eq!((r.metrics.tick_samples, r.metrics.tick_first, r.metrics.tick_last), (2, Some(256), Some(512)));
    assert_eq!(r.metrics.hard_error_total, 0);
    assert_eq!(r.log_path, "boot.log");
    assert_eq!(r.run_id, "boot");
    assert!(r.markers.boot_sequence_ok);
    assert_eq!(verdict_line("in.log", &r), ("PASS in.log".to_string(), 0));
    let keys: Vec<&str> = r.markers.required.iter().map(|f| f.key.as_str()).collect();
    assert_eq!(keys, vec!["bootloader", "disk", "exit_bs", "gop", "jump", "k00", "k01", "k07", "kernel_loaded", "r00", "r10", "s10", "t01", "t02"]);
}

#[test]
fn baseline_failures_are_explained() {
    let log = GOOD_LOG.replace("GOP OK\n", "").replace("R10 tick=512", "R10 tick=100") + "E50 dl_viol slot=1\ncpu reset\n";
    let r = analyze("x", log.as_bytes(), Mode::Baseline).unwrap();
    assert!(!r.pass);
    assert_eq!(r.verdict, "FAIL");
    assert_eq!(
        r.notes,
        vec!["missing_required_markers:gop", "boot_sequence_not_ok", "tick_not_monotonic_or_missing", "reset_hints_detected", "hard_errors=1"]
    );
    let e50 = r.errors.iter().find(|e| e.key == "E50").unwrap();
    assert_eq!(e50.value, 1);
    assert!(r.reset_or_silent_fault);
    assert_eq!(r.reset_signals.explicit_reset_hints, 1);
}

#[test]
fn diagnostic_mode_tolerates_hard_errors() {
    let log = GOOD_LOG.to_string() + "E20 ovf id=1 e=2\n";
    let r = analyze("x", log.as_bytes(), Mode::Diagnostic).unwrap();
    assert!(r.pass);
    assert_eq!(r.notes, vec!["hard_errors=1"]);
    let panicked = GOOD_LOG.to_string() + "P00 panic\n";
    let r = analyze("x", panicked.as_bytes(), Mode::Diagnostic).unwrap();
    assert!(!r.pass);
}

#[test]
fn exception_acceptance_never_passes() {
    let log = "Prometheus Bootloader\nGOP OK\nXPF v=14 e=2 lm=580e\n";
    let r = analyze("x", log.as_bytes(), Mode::ExcAcceptance).unwrap();
    assert!(!r.pass);
    assert_eq!(r.mode, "exc_acceptance");
    assert_eq!(r.notes, vec!["exception=XPF", "missing_pre_exception:disk,kernel_loaded,exit_bs,jump,k00,k07,r00"]);
}

#[test]
fn command_line() {
    match parse_args(&args(&["lp", "--input", "a.log", "--output", "r.json", "--mode", "diagnostic"])).unwrap() {
        CliCommand::Run { input, output, mode } => {
            assert_eq!((input.as_str(), output.as_str()), ("a.log", "r.json"));
            assert!(matches!(mode, Mode::Diagnostic));
        }
        CliCommand::Help => panic!("expected run"),
    }
    assert!(matches!(parse_args(&args(&["lp", "-h"])).unwrap(), CliCommand::Help));
    assert_eq!(parse_args(&args(&["lp", "--input"])).err().unwrap(), "missing value for --input");
    assert_eq!(parse_args(&args(&["lp", "--mode", "fast"])).err().unwrap(), "--mode must be baseline|diagnostic|exc_acceptance");
    assert_eq!(parse_args(&args(&["lp", "--bogus"])).err().unwrap(), "unknown argument: --bogus");
    assert_eq!(
        parse_args(&args(&["lp", "--input", "a"])).err().unwrap(),
        "usage: --input <raw.log> --output <report.json> [--mode baseline|diagnostic|exc_acceptance]"
    );
}

#[test]
fn boot_markers_must_come_in_order() {
    let swapped = GOOD_LOG.replace("GOP OK\nDisk OK\n", "Disk OK\nGOP OK\n");
    assert!(!boot_sequence_ok(&c(&swapped)));
    assert!(boot_sequence_ok(&c(GOOD_LOG)));
    let r = analyze("x", swapped.as_bytes(), Mode::Baseline).unwrap();
    assert!(!r.pass);
    assert!(!r.markers.boot_sequence_ok);
    assert!(r.markers.required_missing.is_empty());
    assert_eq!(r.notes, vec!["boot_sequence_not_ok"]);
    assert_eq!(verdict_line("a.log", &r), ("FAIL a.log :: boot_sequence_not_ok".to_string(), 1));
}

#[test]
fn k01_is_required() {
    let log = GOOD_LOG.replace("K01 bootinfo ok\n", "");
    let r = analyze("x", log.as_bytes(), Mode::Baseline).unwrap();
    assert!(!r.pass);
    assert_eq!(r.notes, vec!["missing_required_markers:k01"]);
}

#[test]
fn run_ids_are_file_stems() {
    assert_eq!(run_id("dist/logs/baseline/boot_001.raw.log"), "boot_001");
    assert_eq!(run_id("C:\\logs\\boot_002.log"), "boot_002");
    assert_eq!(run_id("plain"), "plain");
    assert_eq!(run_id("dir.d/"), "");
}

#[test]
fn failing_runs_give_a_reason() {
    let log = "Prometheus Bootloader\n";
    let r = analyze("x", log.as_bytes(), Mode::ExcAcceptance).unwrap();
    let (line, status) = verdict_line("b.log", &r);
    assert_eq!(status, 1);
    assert!(line.starts_with("FAIL b.log :: exception=none;missing_pre_exception:"));
}

#[test]
fn utf16_surrogates_decode_or_are_replaced() {
    assert_eq!(decode_text(&[0xFF, 0xFE, 0x3D, 0xD8, 0x00, 0xDE, b'a', 0]), "\u{1F600}a");
    assert_eq!(decode_text(&[0xFF, 0xFE, 0x3D, 0xD8, b'a', 0, 0x00, 0xDE]), "\u{FFFD}a\u{FFFD}");
}
