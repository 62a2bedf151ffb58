use clips::args::{find_flag, flag_secs, flag_value, mode, Mode};
use clips::local_time::LocalTime;
use clips::logging::{log_line, log_path, timestamp, LogFile, MAX_LOG_BYTES};

fn args(list: &[&str]) -> Vec<String> {
    list.iter().map(|s| s.to_string()).collect()
}

#[test]
fn flags_are_found() {
    let a = args(&["clips.exe", "--record-test", "8", "--backend", "dxgi"]);
    assert_eq!(find_flag(&a, "--backend"), Some(3));
    assert_eq!(find_flag(&a, "dxgi2"), None);
    assert_eq!(flag_secs(&a, "--record-test"), Some(8));
    assert_eq!(flag_secs(&a, "--encode-test"), None);
    assert_eq!(flag_secs(&a, "--backend"), Some(5));
    assert_eq!(flag_secs(&args(&["x", "--capture-test"]), "--capture-test"), Some(5));
    assert_eq!(flag_secs(&args(&["--t", "-3"]), "--t"), Some(5));
    assert_eq!(flag_value(&a, "--backend"), Some("dxgi".to_string()));
    assert_eq!(flag_value(&a, "dxgi"), None);
}

#[test]
fn the_first_test_wins() {
    assert!(matches!(mode(&args(&["clips.exe"])), Mode::Tray));
    assert!(matches!(mode(&args(&["clips.exe", "--help"])), Mode::Tray));
    assert!(matches!(
        mode(&args(&["c", "--encode-test", "3", "--capture-test", "4"])),
        Mode::CaptureTest(4)
    ));
    assert!(matches!(
        mode(&args(&["c", "--record-test", "3", "--encode-test"])),
        Mode::EncodeTest(5)
    ));
    assert!(matches!(mode(&args(&["c", "--record-test", "8"])), Mode::RecordTest(8, None)));
    match mode(&args(&["c", "--record-test", "--backend", "wgc"])) {
        Mode::RecordTest(5, Some(b)) => assert_eq!(b, "wgc"),
        _ => panic!("no record test"),
    }
}

#[test]
fn log_lines_are_stamped() {
    let t = LocalTime { year: 2026, month: 6, day: 1, hour: 8, minute: 4, second: 2, millis: 7 };
    assert_eq!(log_path("C:\\R"), "C:\\R\\clips.log");
    assert_eq!(timestamp(&t), "2026-06-01 08:04:02.007");
    assert_eq!(log_line(&t, "tray: quit"), "[2026-06-01 08:04:02.007] tray: quit\n");
}

#[test]
fn the_log_is_rotated() {
    let mut f = LogFile::new(MAX_LOG_BYTES);
    assert!(!f.rotate());
    f.wrote(1);
    assert!(f.rotate());
    assert_eq!(f.written, 0);
    assert!(!f.rotate());
    assert_eq!(MAX_LOG_BYTES, 2 * 1024 * 1024);
}
