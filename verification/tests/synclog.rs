use crate_sync::background::{cancel, schedule, SchedulerCall};
use crate_sync::config::Platform;
use crate_sync::synclog::{log_line, needs_rotation, tail_start, trim_tail, SyncLog, MAX_LOG_BYTES};
use crate_sync::types::expiring_soon;

#[test]
fn log_lines_and_rotation() {
    assert_eq!(log_line("2024-01-01T00:00:00Z", "push ok"), "2024-01-01T00:00:00Z push ok\n");
    assert!(!needs_rotation(MAX_LOG_BYTES));
    assert!(needs_rotation(MAX_LOG_BYTES + 1));
    let l = SyncLog::new("/tmp/x/logs/sync.log".into());
    assert_eq!(l.path(), "/tmp/x/logs/sync.log");
}

#[test]
fn tail_drops_partial_first_line_only_mid_file() {
    assert_eq!(tail_start(100, 200), None);
    assert_eq!(tail_start(500, 200), Some(300));
    assert_eq!(trim_tail("ial line\n2024 next\n", true), "2024 next\n");
    assert_eq!(trim_tail("ial line\n2024 next\n", false), "ial line\n2024 next\n");
    assert_eq!(trim_tail("no newline", true), "no newline");
}

#[test]
fn background_scheduler_calls() {
    assert_eq!(schedule(Platform::Ios), Some(SchedulerCall::SubmitRefreshRequest));
    assert_eq!(schedule(Platform::Android), Some(SchedulerCall::EnsureScheduled));
    assert_eq!(schedule(Platform::Other), None);
    assert_eq!(cancel(Platform::Android), Some(SchedulerCall::CancelScheduled));
    assert_eq!(cancel(Platform::Ios), None);
}

#[test]
fn refresh_skew() {
    assert!(expiring_soon(None));
    assert!(expiring_soon(Some(300_000_000_000)));
    assert!(!expiring_soon(Some(300_000_000_001)));
}
