use std::time::Instant;

use mmonitor::cli::{parse_args, usage, Command};
use mmonitor::memory::{memory_figures, MemoryFigures, VmPageCounts};
use mmonitor::runner::{
    accept_output, after_termination, all_completed, decode, failed, finish, join_strings,
    next_wait_step, saturate_millis, CaptureBuffer, WaitStatus, WaitStep, OUTPUT_LIMIT,
};
use mmonitor::storage::{
    bucket_start, compaction_due, execution_from_name, execution_name, five_minute_cutoff,
    is_due, raw_cutoff, record_plan, schema_action, snapshot_order, SchemaAction,
    FIVE_MINUTES_MS, ONE_HOUR_MS,
};
use mmonitor::text::{parse_u32, push_decimal, push_signed_decimal};
use mmonitor::{
    CheckDefinition, CheckKind, ConfigError, Execution, Fact, Monitor, MonitorError,
    StoreStrategy,
};

fn definition(kind: CheckKind, program: &str, timeout_ms: u64) -> CheckDefinition {
    CheckDefinition {
        kind,
        program: program.to_owned(),
        args: Vec::new(),
        timeout_ms,
        interval_seconds: None,
        store: None,
    }
}

fn strings(items: &[&str]) -> Vec<String> {
    items.iter().map(|item| (*item).to_owned()).collect()
}

#[test]
fn monitor_lists_checks_in_id_order() {
    let monitor = Monitor::from_definitions(vec![
        ("memory".to_owned(), definition(CheckKind::Memory, "/m", 1)),
        ("cpu".to_owned(), definition(CheckKind::CpuLoad, "/c", 1)),
        ("disk".to_owned(), definition(CheckKind::SystemDisk, "/d", 1)),
    ])
    .unwrap();
    assert_eq!(monitor.check_ids(), strings(&["cpu", "disk", "memory"]));
    assert_eq!(monitor.check_kind("disk"), Some(CheckKind::SystemDisk));
    assert_eq!(monitor.check_kind("network"), None);
}

#[test]
fn monitor_keeps_request_order_and_rejects_unknown_checks() {
    let monitor = Monitor::from_definitions(vec![
        ("b".to_owned(), definition(CheckKind::Memory, "/b", 1)),
        ("a".to_owned(), definition(CheckKind::CpuLoad, "/a", 1)),
    ])
    .unwrap();
    let definitions = monitor.definitions_for(&strings(&["b", "a", "b"])).unwrap();
    let programs: Vec<&str> = definitions.iter().map(|d| d.program.as_str()).collect();
    assert_eq!(programs, vec!["/b", "/a", "/b"]);
    let error = monitor.definitions_for(&strings(&["a", "x", "y"])).unwrap_err();
    assert_eq!(error, MonitorError::UnknownCheck("x".to_owned()));
    assert_eq!(error.message(), "unknown check: x");
}

#[test]
fn configuration_errors_name_the_first_check_in_id_order() {
    let error = Monitor::from_definitions(vec![
        ("z".to_owned(), definition(CheckKind::Memory, "relative", 1)),
        ("a".to_owned(), definition(CheckKind::Memory, "/ok", 0)),
    ])
    .err()
    .unwrap();
    assert_eq!(error, ConfigError::ZeroTimeout("a".to_owned()));
    assert_eq!(error.message(), "check a has a zero timeout");

    let error = Monitor::from_definitions(vec![(
        "z".to_owned(),
        definition(CheckKind::Memory, "relative", 1),
    )])
    .err()
    .unwrap();
    assert_eq!(error.message(), "check z has a relative program path");

    let mut with_nul = definition(CheckKind::Memory, "/x", 1);
    with_nul.args = strings(&["-a", "b\0c"]);
    let error = Monitor::from_definitions(vec![("n".to_owned(), with_nul)]).err().unwrap();
    assert_eq!(error.message(), "check n has an argument containing NUL");

    let error = Monitor::from_definitions(vec![
        ("a".to_owned(), definition(CheckKind::Memory, "/x", 1)),
        ("b".to_owned(), definition(CheckKind::Memory, "/x", 1)),
        ("a".to_owned(), definition(CheckKind::Memory, "/x", 1)),
    ])
    .err()
    .unwrap();
    assert_eq!(error.message(), "duplicate check id: a");
}

#[test]
fn definitions_fill_in_intervals_and_store_strategies() {
    let version = definition(CheckKind::MacosVersion, "/usr/bin/sw_vers", 1);
    assert_eq!(version.effective_interval_seconds(), 3600);
    assert_eq!(version.effective_store(), StoreStrategy::OnChange);
    let mut disk = definition(CheckKind::SystemDisk, "/d", 1);
    assert_eq!(disk.effective_interval_seconds(), 300);
    assert_eq!(disk.effective_store(), StoreStrategy::Always);
    disk.interval_seconds = Some(5);
    disk.store = Some(StoreStrategy::OnChange);
    assert_eq!(disk.effective_interval_seconds(), 5);
    assert_eq!(disk.effective_store(), StoreStrategy::OnChange);
}

#[test]
fn capture_keeps_only_the_limit_and_remembers_overflow() {
    let mut fits = CaptureBuffer::new();
    fits.append(&vec![1u8; OUTPUT_LIMIT - 3]);
    fits.append(&[2, 3]);
    let (bytes, exceeded) = fits.into_parts();
    assert_eq!(bytes.len(), OUTPUT_LIMIT - 1);
    assert_eq!(&bytes[OUTPUT_LIMIT - 3..], &[2, 3]);
    assert!(!exceeded);

    let mut overflows = CaptureBuffer::new();
    overflows.append(&vec![1u8; OUTPUT_LIMIT - 1]);
    overflows.append(&[4, 5, 6]);
    overflows.append(&[7]);
    let (bytes, exceeded) = overflows.into_parts();
    assert_eq!(bytes.len(), OUTPUT_LIMIT);
    assert_eq!(bytes[OUTPUT_LIMIT - 1], 4);
    assert!(exceeded);
}

#[test]
fn decoding_reports_overflow_invalid_utf8_and_read_errors() {
    let mut errors = Vec::new();
    let text = decode(Ok((b"ok".to_vec(), false)), "stdout", &mut errors);
    assert_eq!(text, "ok");
    assert!(errors.is_empty());

    let text = decode(Ok((vec![b'a', 0xff], true)), "stderr", &mut errors);
    assert_eq!(text, "a\u{fffd}");
    assert_eq!(
        errors,
        strings(&["stderr exceeded 65536 bytes", "stderr is not UTF-8"])
    );

    let text = decode(Err("broken pipe".to_owned()), "stdout", &mut errors);
    assert_eq!(text, "");
    assert_eq!(errors[2], "failed reading stdout: broken pipe");
}

#[test]
fn finishing_a_process_decides_the_execution() {
    let started = Instant::now();
    let done = finish(&started, 3000, Some(2), false, Ok((b"out".to_vec(), false)), Ok((Vec::new(), false)));
    assert_eq!(done.execution, Execution::Completed);
    assert_eq!(done.exit_code, Some(2));
    assert_eq!(done.stdout, "out");
    assert_eq!(done.error, None);

    let bad = finish(&started, 3000, Some(0), false, Ok((vec![0xfe], false)), Ok((Vec::new(), true)));
    assert_eq!(bad.execution, Execution::InvalidOutput);
    assert_eq!(
        bad.error.as_deref(),
        Some("stdout is not UTF-8; stderr exceeded 65536 bytes")
    );

    let slow = finish(&started, 10, None, true, Ok((Vec::new(), false)), Ok((Vec::new(), false)));
    assert_eq!(slow.execution, Execution::TimedOut);
    assert_eq!(slow.error.as_deref(), Some("timed out after 10 ms"));

    let gone = failed(Execution::SpawnFailed, &started, "no such file".to_owned());
    assert_eq!(gone.execution, Execution::SpawnFailed);
    assert_eq!(gone.exit_code, None);
    assert_eq!(gone.error.as_deref(), Some("no such file"));
}

#[test]
fn waiting_follows_the_deadline() {
    assert!(matches!(
        next_wait_step(WaitStatus::Exited(Some(1)), false),
        WaitStep::Finished { exit_code: Some(1), timed_out: false }
    ));
    assert!(matches!(next_wait_step(WaitStatus::Running, true), WaitStep::Poll));
    assert!(matches!(next_wait_step(WaitStatus::Running, false), WaitStep::Terminate));
    assert!(matches!(
        next_wait_step(WaitStatus::Failed("e".to_owned()), true),
        WaitStep::Abandon(message) if message == "e"
    ));
    assert_eq!(after_termination(None, Some(9)), Ok(Some(9)));
    assert_eq!(after_termination(Some("denied".to_owned()), None), Err("denied".to_owned()));
    assert_eq!(saturate_millis(u128::MAX), u64::MAX);
    assert_eq!(saturate_millis(14), 14);
}

#[test]
fn parse_failures_become_invalid_output() {
    let started = Instant::now();
    let mut raw = finish(&started, 1, Some(0), false, Ok((b"x".to_vec(), false)), Ok((Vec::new(), false)));
    let (metrics, facts) = accept_output::<u8>(&mut raw, Err("missing data".to_owned()));
    assert!(metrics.is_empty() && facts.is_empty());
    assert_eq!(raw.execution, Execution::InvalidOutput);
    assert_eq!(raw.error.as_deref(), Some("missing data"));
    assert_eq!(raw.stdout, "x");

    let fact = Fact { name: "os.name".to_owned(), value: "macOS".to_owned() };
    let (_, facts) = accept_output::<u8>(&mut raw, Ok((Vec::new(), vec![fact.clone()])));
    assert_eq!(facts, vec![fact]);
}

#[test]
fn exit_status_requires_every_check_to_complete() {
    assert!(all_completed(&vec![Execution::Completed, Execution::Completed]));
    assert!(!all_completed(&vec![Execution::Completed, Execution::TimedOut]));
    assert!(all_completed(&Vec::new()));
}

#[test]
fn schema_versions() {
    assert_eq!(schema_action(0), Ok(SchemaAction::Migrate));
    assert_eq!(schema_action(1), Ok(SchemaAction::Ready));
    assert_eq!(
        schema_action(99).unwrap_err(),
        "unsupported database schema version: 99"
    );
    assert_eq!(
        schema_action(i64::MIN).unwrap_err(),
        "unsupported database schema version: -9223372036854775808"
    );
}

#[test]
fn execution_names_round_trip() {
    for execution in [
        Execution::Completed,
        Execution::TimedOut,
        Execution::SpawnFailed,
        Execution::InvalidOutput,
    ] {
        assert_eq!(execution_from_name(execution_name(execution)), Some(execution));
    }
    assert_eq!(execution_name(Execution::TimedOut), "timed_out");
    assert_eq!(execution_from_name("ok"), None);
}

#[test]
fn checks_are_due_after_their_interval() {
    assert!(is_due(None, 5, 60));
    assert!(!is_due(Some(1_000), 60_999, 60));
    assert!(is_due(Some(1_000), 61_000, 60));
    assert!(is_due(Some(1_000), 999, 60));
    assert!(is_due(Some(i64::MIN), i64::MAX, 60));
}

#[test]
fn on_change_stores_only_changed_snapshots() {
    let (store, first) = record_plan(
        None,
        StoreStrategy::OnChange,
        Execution::Completed,
        None,
        "27.0".to_owned(),
        1,
    );
    assert!(store);
    assert_eq!(first.last_success_at, Some(1));
    let (store, second) = record_plan(
        Some(&first),
        StoreStrategy::OnChange,
        Execution::Completed,
        None,
        "27.0".to_owned(),
        2,
    );
    assert!(!store);
    assert_eq!(second.last_attempt_at, 2);
    let (store, failed) = record_plan(
        Some(&second),
        StoreStrategy::OnChange,
        Execution::SpawnFailed,
        Some("unavailable".to_owned()),
        "failed".to_owned(),
        3,
    );
    assert!(store);
    assert_eq!(failed.last_success_at, Some(2));
    assert_eq!(failed.last_execution, Execution::SpawnFailed);
    assert_eq!(failed.last_error.as_deref(), Some("unavailable"));
    let (store, _) = record_plan(
        Some(&failed),
        StoreStrategy::Always,
        Execution::SpawnFailed,
        None,
        "failed".to_owned(),
        4,
    );
    assert!(store);
}

#[test]
fn compaction_runs_at_most_hourly() {
    assert!(compaction_due(None, 0));
    assert!(!compaction_due(Some(0), ONE_HOUR_MS - 1));
    assert!(compaction_due(Some(0), ONE_HOUR_MS));
    assert!(compaction_due(Some(10), 5));
}

#[test]
fn buckets_and_cutoffs() {
    assert_eq!(bucket_start(301_000, FIVE_MINUTES_MS), 300_000);
    assert_eq!(bucket_start(-1, FIVE_MINUTES_MS), -300_000);
    assert_eq!(bucket_start(bucket_start(7_250_000, FIVE_MINUTES_MS), ONE_HOUR_MS), 7_200_000);
    let now = 40 * 24 * ONE_HOUR_MS;
    assert_eq!(raw_cutoff(now), 33 * 24 * ONE_HOUR_MS);
    assert_eq!(five_minute_cutoff(now + 1), 10 * 24 * ONE_HOUR_MS);
}

#[test]
fn snapshots_sort_by_name_then_unit_and_stay_stable() {
    let keys = vec![
        ("b".to_owned(), Some("B".to_owned())),
        ("a".to_owned(), Some("x".to_owned())),
        ("b".to_owned(), None),
        ("a".to_owned(), Some("x".to_owned())),
        ("a".to_owned(), None),
    ];
    assert_eq!(snapshot_order(&keys), vec![4, 1, 3, 2, 0]);
    assert_eq!(snapshot_order(&Vec::new()), Vec::<usize>::new());
}

#[test]
fn memory_figures_follow_the_documented_formulas() {
    let counts = VmPageCounts {
        free: 10,
        speculative: 4,
        active: 20,
        inactive: 30,
        wired: 5,
        compressor: 7,
        internal: 50,
        purgeable: 8,
    };
    assert_eq!(
        memory_figures(&counts, 16384),
        MemoryFigures {
            used: (42 + 5 + 7) * 16384,
            available: (60 + 7) * 16384,
            available_non_compressed: 60 * 16384,
            free: 6 * 16384,
            wired: 5 * 16384,
            compressed: 7 * 16384,
        }
    );
    let saturated = memory_figures(&VmPageCounts { free: u32::MAX, ..counts }, u64::MAX);
    assert_eq!(saturated.available, u64::MAX);
}

#[test]
fn command_line() {
    assert_eq!(parse_args(&strings(&["-h"])), Ok(Command::Help));
    assert_eq!(
        parse_args(&strings(&["--config", "c.toml", "check", "a", "b"])),
        Ok(Command::Check { config: "c.toml".to_owned(), ids: strings(&["a", "b"]) })
    );
    assert_eq!(
        parse_args(&strings(&["--config", "c.toml", "collect"])),
        Ok(Command::Collect { config: "c.toml".to_owned() })
    );
    assert_eq!(parse_args(&strings(&["--config", "c.toml", "check"])), Err(usage()));
    assert_eq!(usage(), "usage: mmonitor --config <path> check <id> [<id> ...]");
}

#[test]
fn numbers_as_text() {
    let mut text = String::from("v=");
    push_decimal(&mut text, 1_000_000_007);
    assert_eq!(text, "v=1000000007");
    let mut text = String::new();
    push_signed_decimal(&mut text, -42);
    assert_eq!(text, "-42");
    assert_eq!(parse_u32(&"+4294967295".chars().collect()), Some(u32::MAX));
    assert_eq!(parse_u32(&"+".chars().collect()), None);
    assert_eq!(parse_u32(&"-1".chars().collect()), None);
    assert_eq!(
        join_strings(&strings(&["a", "b", "c"]), "; "),
        "a; b; c"
    );
}
