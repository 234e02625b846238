use oslab::args::{
    is_threaded_invocation, memory_mode, parse_arg, parse_service_args, parse_snapshot_args,
    MemoryMode, ServiceArgsError, SnapshotArgsError,
};
use oslab::decimal::{append_decimal, decimal_string, parse_u32_bytes, parse_u32_str};
use oslab::lookup::pid_from_pgrep_output;

fn strings(items: &[&str]) -> Vec<String> {
    items.iter().map(|s| s.to_string()).collect()
}

#[test]
fn decimal_text_of_numbers() {
    assert_eq!(decimal_string(0), "0");
    assert_eq!(decimal_string(7), "7");
    assert_eq!(decimal_string(10), "10");
    assert_eq!(decimal_string(4294967295), "4294967295");
    assert_eq!(decimal_string(u64::MAX), "18446744073709551615");
    let mut s = String::from("pid=");
    append_decimal(&mut s, 1234);
    assert_eq!(s, "pid=1234");
}

#[test]
fn parse_accepts_what_std_accepts() {
    for text in ["0", "42", "+42", "007", "4294967295", "", "+", "-1", "-0", "4294967296", "12a", " 1", "1 ", "++1"] {
        assert_eq!(parse_u32_str(text), text.parse::<u32>().ok(), "text {:?}", text);
    }
    assert_eq!(parse_u32_bytes(&[0xff, b'1']), None);
    assert_eq!(parse_u32_bytes(b"99999999999999999999"), None);
}

#[test]
fn parse_of_decimal_text_gives_number_back() {
    for n in [0u32, 1, 9, 10, 99, 100, 65535, 123456789, u32::MAX] {
        assert_eq!(parse_u32_str(&decimal_string(n as u64)), Some(n));
    }
}

#[test]
fn pgrep_first_line_is_the_pid() {
    assert_eq!(pid_from_pgrep_output(b"4242\n", true), Some(4242));
    assert_eq!(pid_from_pgrep_output(b"4242\n5151\n", true), Some(4242));
    assert_eq!(pid_from_pgrep_output(b"4242\r\n", true), Some(4242));
    assert_eq!(pid_from_pgrep_output(b"4242", true), Some(4242));
}

#[test]
fn pgrep_failure_or_garbage_gives_none() {
    assert_eq!(pid_from_pgrep_output(b"4242\n", false), None);
    assert_eq!(pid_from_pgrep_output(b"", true), None);
    assert_eq!(pid_from_pgrep_output(b"\n4242\n", true), None);
    assert_eq!(pid_from_pgrep_output(b"abc\n", true), None);
    assert_eq!(pid_from_pgrep_output(b"4242\r", true), None);
    assert_eq!(pid_from_pgrep_output(b"99999999999\n", true), None);
}

#[test]
fn pgrep_output_agrees_with_lossy_lines_parse() {
    let samples: [&[u8]; 7] = [b"12\n", b"12", b"\xff12\n", b"12\xff\n3\n", b"+7\r\n", b"", b"\r\n"];
    for bytes in samples {
        let text = String::from_utf8_lossy(bytes);
        let expected = text.lines().next().and_then(|l| l.parse::<u32>().ok());
        assert_eq!(pid_from_pgrep_output(bytes, true), expected, "bytes {:?}", bytes);
    }
}

#[test]
fn service_arguments() {
    let ok = parse_service_args(&strings(&["task3", "/tmp/out", "5"])).unwrap();
    assert_eq!(ok.output_dir, "/tmp/out");
    assert_eq!(ok.max_runs, 5);
    assert_eq!(parse_service_args(&strings(&["task3", "/tmp/out"])).unwrap_err(), ServiceArgsError::Usage);
    assert_eq!(parse_service_args(&strings(&["task3"])).unwrap_err(), ServiceArgsError::Usage);
    assert_eq!(
        parse_service_args(&strings(&["task3", "/tmp/out", "five"])).unwrap_err(),
        ServiceArgsError::InvalidRunCount
    );
}

#[test]
fn snapshot_arguments() {
    let ok = parse_snapshot_args(&strings(&["task2", "77", "/tmp/maps"])).unwrap();
    assert_eq!(ok.pid, 77);
    assert_eq!(ok.output_dir, "/tmp/maps");
    assert_eq!(parse_snapshot_args(&strings(&["task2"])).unwrap_err(), SnapshotArgsError::MissingPid);
    assert_eq!(parse_snapshot_args(&strings(&["task2", "x7", "/tmp"])).unwrap_err(), SnapshotArgsError::InvalidPid);
    assert_eq!(parse_snapshot_args(&strings(&["task2", "x7"])).unwrap_err(), SnapshotArgsError::InvalidPid);
    assert_eq!(parse_snapshot_args(&strings(&["task2", "77"])).unwrap_err(), SnapshotArgsError::MissingOutputDir);
}

#[test]
fn pid_argument_is_read_back() {
    for pid in [1u32, 4242, u32::MAX] {
        assert_eq!(parse_arg(&decimal_string(pid as u64)), Some(pid));
    }
}

#[test]
fn threaded_invocation_and_memory_modes() {
    assert!(is_threaded_invocation(&strings(&["prog", "threaded"])));
    assert!(is_threaded_invocation(&strings(&["prog", "threaded", "x"])));
    assert!(!is_threaded_invocation(&strings(&["prog"])));
    assert!(!is_threaded_invocation(&strings(&["prog", "thread"])));
    assert_eq!(memory_mode(&strings(&["task1", "malloc"])), Some(MemoryMode::Allocate));
    assert_eq!(memory_mode(&strings(&["task1", "free"])), Some(MemoryMode::Release));
    assert_eq!(memory_mode(&strings(&["task1", "other"])), Some(MemoryMode::Idle));
    assert_eq!(memory_mode(&strings(&["task1"])), None);
}
