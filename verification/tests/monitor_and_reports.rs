use oslab::clock::{time_label, timestamp_label};
use oslab::memory::{allocation_block, delay_from_sample, random_delay_nanos, signal_response, stop_signals, SignalResponse, ALLOCATION_SIZE};
use oslab::monitor::{monitor_step, MonitorAction, MonitorEvent, MonitorState};
use oslab::report::{io_statistics_lines, memory_usage_line, name_or_unknown, process_info_line};
use oslab::snapshot::{capture_command_args, map_file_path, maps_path};

fn run_service(target: Option<u32>, max_runs: u32, outcomes: &[bool]) -> Vec<MonitorAction> {
    let mut state = MonitorState::new(max_runs);
    let mut actions = Vec::new();
    let mut event = MonitorEvent::Start { pid: target };
    loop {
        let (next, action) = monitor_step(state, event);
        actions.push(action);
        state = next;
        event = match action {
            MonitorAction::Capture { run, .. } => MonitorEvent::CaptureDone { success: outcomes[(run - 1) as usize] },
            MonitorAction::ReportAndWait { .. } => MonitorEvent::WaitDone,
            _ => break,
        };
    }
    actions
}

#[test]
fn service_captures_each_run_once() {
    let actions = run_service(Some(77), 3, &[true, false, true]);
    assert_eq!(
        actions,
        vec![
            MonitorAction::Capture { run: 1, max_runs: 3, pid: 77 },
            MonitorAction::ReportAndWait { failed: false },
            MonitorAction::Capture { run: 2, max_runs: 3, pid: 77 },
            MonitorAction::ReportAndWait { failed: true },
            MonitorAction::Capture { run: 3, max_runs: 3, pid: 77 },
            MonitorAction::ReportAndFinish { failed: false, runs: 3 },
        ]
    );
}

#[test]
fn service_with_no_runs_finishes_at_once() {
    assert_eq!(run_service(Some(5), 0, &[]), vec![MonitorAction::Finish { runs: 0 }]);
    assert_eq!(
        run_service(Some(5), 1, &[false]),
        vec![MonitorAction::Capture { run: 1, max_runs: 1, pid: 5 }, MonitorAction::ReportAndFinish { failed: true, runs: 1 }]
    );
}

#[test]
fn service_without_target_captures_nothing() {
    assert_eq!(run_service(None, 3, &[]), vec![MonitorAction::TargetMissing]);
    assert_eq!(run_service(None, 0, &[]), vec![MonitorAction::TargetMissing]);
}

#[test]
fn events_out_of_turn_are_ignored() {
    let idle = MonitorState::new(2);
    assert_eq!(monitor_step(idle, MonitorEvent::WaitDone), (idle, MonitorAction::Ignore));
    let capturing = MonitorState::Capturing { run: 1, max_runs: 2, pid: 9 };
    assert_eq!(monitor_step(capturing, MonitorEvent::Start { pid: Some(9) }), (capturing, MonitorAction::Ignore));
    let done = MonitorState::Finished { max_runs: 2 };
    assert_eq!(monitor_step(done, MonitorEvent::CaptureDone { success: true }), (done, MonitorAction::Ignore));
}

#[test]
fn capture_paths_and_command() {
    assert_eq!(maps_path(4242), "/proc/4242/maps");
    assert_eq!(map_file_path("/tmp/out", 4242, "2024-03-05_07:08:09"), "/tmp/out/map_4242_2024-03-05_07:08:09.txt");
    assert_eq!(
        capture_command_args(4242, "/tmp/out"),
        vec!["run", "--release", "--bin", "task2", "--", "4242", "/tmp/out"]
    );
}

#[test]
fn captures_one_second_apart_use_distinct_files() {
    let first = timestamp_label(2024, 3, 5, 7, 8, 9, "_").unwrap();
    let second = timestamp_label(2024, 3, 5, 7, 8, 10, "_").unwrap();
    let same = timestamp_label(2024, 3, 5, 7, 8, 9, "_").unwrap();
    assert_ne!(map_file_path("/tmp/out", 42, &first), map_file_path("/tmp/out", 42, &second));
    assert_eq!(map_file_path("/tmp/out", 42, &first), map_file_path("/tmp/out", 42, &same));
}

#[test]
fn clock_labels() {
    assert_eq!(time_label(7, 8, 9).as_deref(), Some("07:08:09"));
    assert_eq!(time_label(23, 59, 59).as_deref(), Some("23:59:59"));
    assert_eq!(time_label(24, 0, 0), None);
    assert_eq!(time_label(0, 60, 0), None);
    assert_eq!(time_label(0, 0, 60), None);
    assert_eq!(timestamp_label(2024, 3, 5, 7, 8, 9, "_").as_deref(), Some("2024-03-05_07:08:09"));
    assert_eq!(timestamp_label(2024, 3, 5, 17, 18, 19, " ").as_deref(), Some("2024-03-05 17:18:19"));
    assert_eq!(timestamp_label(2024, 2, 29, 0, 0, 0, "_").as_deref(), Some("2024-02-29_00:00:00"));
    assert_eq!(timestamp_label(2023, 2, 29, 0, 0, 0, "_"), None);
    assert_eq!(timestamp_label(1900, 2, 29, 0, 0, 0, "_"), None);
    assert_eq!(timestamp_label(2000, 2, 29, 0, 0, 0, "_").as_deref(), Some("2000-02-29_00:00:00"));
    assert_eq!(timestamp_label(2024, 4, 31, 0, 0, 0, "_"), None);
    assert_eq!(timestamp_label(2024, 13, 1, 0, 0, 0, "_"), None);
    assert_eq!(timestamp_label(2024, 1, 0, 0, 0, 0, "_"), None);
    assert_eq!(timestamp_label(2024, 0, 1, 0, 0, 0, "_"), None);
    assert_eq!(timestamp_label(2024, 12, 31, 23, 59, 59, "_").as_deref(), Some("2024-12-31_23:59:59"));
    assert_eq!(timestamp_label(-4, 2, 29, 0, 0, 0, "_").as_deref(), Some("-0004-02-29_00:00:00"));
    assert_eq!(timestamp_label(-100, 2, 29, 0, 0, 0, "_"), None);
    assert_eq!(timestamp_label(0, 2, 29, 0, 0, 0, "_").as_deref(), Some("0000-02-29_00:00:00"));
    assert_eq!(timestamp_label(2024, 1, 1, 24, 0, 0, "_"), None);
    assert_eq!(timestamp_label(7, 1, 1, 0, 0, 0, "_").as_deref(), Some("0007-01-01_00:00:00"));
    assert_eq!(timestamp_label(-5, 1, 1, 0, 0, 0, "_").as_deref(), Some("-0005-01-01_00:00:00"));
    assert_eq!(timestamp_label(12345, 1, 1, 0, 0, 0, "_").as_deref(), Some("+12345-01-01_00:00:00"));
    assert_eq!(timestamp_label(262143, 1, 1, 0, 0, 0, "_"), None);
    assert_eq!(timestamp_label(262142, 12, 31, 0, 0, 0, "_").as_deref(), Some("+262142-12-31_00:00:00"));
    assert_eq!(timestamp_label(-262143, 1, 1, 0, 0, 0, "_").as_deref(), Some("-262143-01-01_00:00:00"));
    assert_eq!(timestamp_label(-262144, 12, 31, 0, 0, 0, "_"), None);
}

#[test]
fn report_lines() {
    assert_eq!(
        process_info_line("Parent Process", 100, 1, 7, 8, 9).as_deref(),
        Some("Parent Process: PID = 100, PPID = 1, Time = 07:08:09")
    );
    assert_eq!(
        process_info_line("X", 0, -3, 0, 0, 0).as_deref(),
        Some("X: PID = 0, PPID = -3, Time = 00:00:00")
    );
    assert_eq!(process_info_line("X", 0, 0, 25, 0, 0), None);
    assert_eq!(memory_usage_line(2048, 8192 + 1023), "Memory Usage: 2/8 MB");
    assert_eq!(
        io_statistics_lines(12, 1, 2, 3, 4),
        vec![
            "I/O Statistics for PID 12:",
            "  Read bytes: 1",
            "  Write bytes: 2",
            "  Read operations: 3",
            "  Write operations: 4"
        ]
    );
    assert_eq!(name_or_unknown(Some("host".to_string())), "host");
    assert_eq!(name_or_unknown(None), "Unknown");
}

#[test]
fn memory_task_pieces() {
    let block = allocation_block();
    assert_eq!(block.len(), ALLOCATION_SIZE);
    assert!(block.iter().all(|&b| b == 0));
    assert_eq!(delay_from_sample(0), 100);
    assert_eq!(delay_from_sample(899), 999);
    assert_eq!(delay_from_sample(900), 100);
    assert_eq!(delay_from_sample(u64::MAX), u64::MAX % 900 + 100);
    for _ in 0..100 {
        let d = random_delay_nanos();
        assert!((100..1000).contains(&d));
    }
}

#[test]
fn signal_handling_decisions() {
    assert_eq!(stop_signals(), vec![signal_hook::consts::SIGINT, signal_hook::consts::SIGTERM]);
    assert_eq!(signal_response(signal_hook::consts::SIGINT), SignalResponse::ReleaseAndStop);
    assert_eq!(signal_response(signal_hook::consts::SIGTERM), SignalResponse::ReleaseAndStop);
    assert_eq!(signal_response(signal_hook::consts::SIGHUP), SignalResponse::Unexpected);
}
