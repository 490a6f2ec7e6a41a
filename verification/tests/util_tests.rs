use openworkbench::util::{
    civil_from_days, compact_from_secs, fmt_size, iso_from_secs, now_iso, run_outcome, sanitize, RunEnd,
};

#[test]
fn sanitize_keeps_only_name_characters() {
    assert_eq!(sanitize("/dev/ttyUSB0"), "_dev_ttyUSB0");
    assert_eq!(sanitize("192.168.1.5:5555"), "192_168_1_5_5555");
    assert_eq!(sanitize(".."), "__");
    assert_eq!(sanitize("COM3"), "COM3");
    assert_eq!(sanitize("设备"), "__");
}

#[test]
fn sizes_for_people() {
    assert_eq!(fmt_size(0), "0 B");
    assert_eq!(fmt_size(1023), "1023 B");
    assert_eq!(fmt_size(1024), "1.0 KB");
    assert_eq!(fmt_size(1536), "1.5 KB");
    assert_eq!(fmt_size(16 * 1024 * 1024), "16.0 MB");
    assert_eq!(fmt_size(3 * 1024 * 1024 * 1024 / 2), "1.5 GB");
    // ties round to even, as float formatting does
    assert_eq!(fmt_size(1024 + 51 + 1), "1.1 KB");
    assert_eq!(format!("{:.1}", 1.25f64), "1.2");
    assert_eq!(fmt_size(1280), "1.2 KB");
    assert_eq!(fmt_size(u64::MAX), "17179869184.0 GB");
}

#[test]
fn iso_times() {
    assert_eq!(iso_from_secs(0), "1970-01-01T00:00:00Z");
    assert_eq!(iso_from_secs(86399), "1970-01-01T23:59:59Z");
    assert_eq!(iso_from_secs(951782400), "2000-02-29T00:00:00Z");
    assert_eq!(iso_from_secs(1709251199), "2024-02-29T23:59:59Z");
    assert_eq!(iso_from_secs(4102444800), "2100-01-01T00:00:00Z");
    assert_eq!(compact_from_secs(1700000000), "20231114_221320");
}

#[test]
fn civil_dates_are_real_dates() {
    assert_eq!(civil_from_days(0), (1970, 1, 1));
    assert_eq!(civil_from_days(59), (1970, 3, 1));
    assert_eq!(civil_from_days(365 + 365 + 59), (1972, 2, 29));
    for days in [0u64, 58, 59, 364, 365, 10957, 11016, 19782, 47540] {
        let (_, m, d) = civil_from_days(days);
        assert!((1..=12).contains(&m) && (1..=31).contains(&d));
    }
}

#[test]
fn now_is_an_iso_time() {
    let s = now_iso();
    assert_eq!(s.len(), 20);
    assert!(s.ends_with('Z'));
}


#[test]
fn a_successful_run_gives_its_output() {
    let r = run_outcome(RunEnd::Exited { success: true, stdout: b"ok\n".to_vec(), stderr: b"warn".to_vec() }, 10);
    assert_eq!(r, Ok("ok\n".to_string()));
}

#[test]
fn a_failed_run_gives_its_error_output() {
    let r = run_outcome(RunEnd::Exited { success: false, stdout: b"out".to_vec(), stderr: b"bad \xff".to_vec() }, 10);
    assert_eq!(r, Err("bad \u{fffd}".to_string()));
    let r = run_outcome(RunEnd::Exited { success: false, stdout: b"out".to_vec(), stderr: b" \n".to_vec() }, 10);
    assert_eq!(r, Err("out".to_string()));
}

#[test]
fn a_run_past_its_time_is_reported() {
    assert_eq!(run_outcome(RunEnd::TimedOut, 30), Err("命令超时（30 秒）".to_string()));
}
