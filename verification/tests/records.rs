use backup_home::logs::{
    is_run_artifact, keep_seconds, log_path, manifest_path, run_stem, should_prune, LogEntry,
    Pruned,
};
use backup_home::outcome::{record, Outcome};
use backup_home::status::{
    backup_status, recovery_status, HalfStatus, Moment, Pacer, Status, TICK_NANOS,
};

fn at(unix: i64) -> Moment {
    Moment { text: format!("t{unix}"), unix }
}

#[test]
fn only_timestamped_run_artifacts_are_prunable() {
    assert!(is_run_artifact("backup-home-2026-08-31_150002.log"));
    assert!(is_run_artifact("backup-home-2026-08-31_150002-replica-1.json"));
    // launchd holds these open and appends to them forever.
    assert!(!is_run_artifact("backup-home-launchd.stdout.log"));
    assert!(!is_run_artifact("backup-home-launchd.stderr.log"));
    assert!(!is_run_artifact("codex-update.log"));
}

#[test]
fn digits_are_those_of_ascii() {
    assert!(!is_run_artifact("backup-home-"));
    assert!(is_run_artifact("backup-home-9"));
    // An Arabic-Indic digit begins no timestamp.
    assert!(!is_run_artifact("backup-home-\u{0660}"));
    assert!(!is_run_artifact("Backup-home-2"));
}

fn entry(name: &str, is_file: bool, modified: Option<i128>) -> LogEntry {
    LogEntry { name: name.to_string(), is_file, modified }
}

#[test]
fn only_old_files_of_other_runs_are_pruned() {
    let stem = run_stem("2026-08-31_150002");
    assert_eq!(stem, "backup-home-2026-08-31_150002");
    let old = Some(99);
    assert!(should_prune(&entry("backup-home-2020-01-01_000000.log", true, old), &stem, 100));
    assert!(should_prune(
        &entry("backup-home-2020-01-01_000000-replica-1.json", true, old),
        &stem,
        100
    ));
    assert!(!should_prune(&entry("backup-home-launchd.stdout.log", true, old), &stem, 100));
    assert!(!should_prune(
        &entry("backup-home-2999-01-01_000000.log", true, Some(100)),
        &stem,
        100
    ));
    assert!(!should_prune(&entry("backup-home-2020-01-01_000000.log", false, old), &stem, 100));
    assert!(!should_prune(&entry("backup-home-2020-01-01_000000.log", true, None), &stem, 100));
    // Neither a log nor a manifest of this run, whatever it begins with.
    assert!(should_prune(&entry("backup-home-2026-08-31_150002.txt", true, old), &stem, 100));
    assert!(should_prune(&entry("backup-home-2026-08-31_1500021.log", true, old), &stem, 100));
    assert!(should_prune(&entry("backup-home-2026-08-31_150002-x.log", true, old), &stem, 100));
    // The files of the run itself, however old they seem.
    assert!(!should_prune(&entry(&stem, true, old), &stem, 100));
    assert!(!should_prune(&entry(&log_path(&stem), true, old), &stem, 100));
    assert!(!should_prune(&entry(&manifest_path(&stem, "replica-1"), true, old), &stem, 100));
}

#[test]
fn files_of_a_run_are_named_after_it() {
    assert_eq!(log_path("/l/backup-home-1"), "/l/backup-home-1.log");
    assert_eq!(
        manifest_path("/l/backup-home-1", "pre-old-snapshot"),
        "/l/backup-home-1-pre-old-snapshot.json"
    );
    assert!(is_run_artifact(&log_path(&run_stem("2026"))));
    assert!(is_run_artifact(&manifest_path(&run_stem("2026"), "x")));
}

#[test]
fn retention_of_logs_is_counted_in_days() {
    assert_eq!(keep_seconds(0), None);
    assert_eq!(keep_seconds(30), Some(2_592_000));
    assert_eq!(keep_seconds(u32::MAX), Some(371_085_174_288_000));
    let mut p = Pruned::none();
    p.count(5);
    p.count(7);
    assert_eq!((p.files, p.bytes), (2, 12));
}

#[test]
fn halves_carry_the_last_success_forward() {
    let mut first = HalfStatus::running(None);
    assert_eq!(first.status, "running");
    assert_eq!(first.last_ok_unix, None);
    first.finish("ok", &at(10));
    assert_eq!(first.status, "ok");
    assert_eq!(first.last_ok_at.as_deref(), Some("t10"));
    assert_eq!(first.last_ok_unix, Some(10));
    first.failures.push("x".to_string());
    first.checks_ok = 3;

    let mut next = HalfStatus::running(Some(&first));
    assert!(next.failures.is_empty());
    assert_eq!(next.checks_ok, 0);
    next.finish("failed", &at(20));
    assert_eq!(next.status, "failed");
    assert_eq!(next.last_ok_unix, Some(10));
    let mut third = HalfStatus::running(Some(&next));
    third.finish("untested", &at(30));
    assert_eq!(third.last_ok_at.as_deref(), Some("t10"));
    third.finish("ok", &at(40));
    assert_eq!(third.last_ok_unix, Some(40));
}

#[test]
fn verdicts_tell_what_was_proved() {
    assert_eq!(recovery_status(false, true, 3, 9), "disabled");
    assert_eq!(recovery_status(true, true, 3, 9), "failed");
    assert_eq!(recovery_status(true, false, 0, 0), "untested");
    // Checks that had nothing to read back prove nothing.
    assert_eq!(recovery_status(true, false, 2, 0), "untested");
    assert_eq!(recovery_status(true, false, 1, 1), "ok");
    assert_eq!(backup_status(true), "failed");
    assert_eq!(backup_status(false), "ok");
}

#[test]
fn status_follows_a_run() {
    let replicas = vec!["a".to_string()];
    let mut s = Status::start("r", &replicas, None, &at(1));
    assert_eq!(s.schema, 1);
    assert_eq!(s.state, "running");
    assert_eq!((s.started_at.as_str(), s.started_unix), ("t1", 1));
    assert_eq!(s.replica_repos, replicas);
    assert_eq!(s.heartbeat_unix, None);
    s.beat(&at(2));
    assert_eq!(s.heartbeat_at.as_deref(), Some("t2"));
    assert_eq!(s.heartbeat_unix, Some(2));

    let mut failures = Outcome::default();
    record(&mut failures, "pre-backup restore", "boom");
    s.conclude(Some("093147cd".to_string()), true, 2, 600, &failures, &at(3));
    assert_eq!(s.state, "finished");
    assert_eq!(s.finished_unix, Some(3));
    assert_eq!(s.heartbeat_unix, None);
    assert_eq!(s.backup.status, "ok");
    assert_eq!(s.backup.snapshot.as_deref(), Some("093147cd"));
    assert_eq!(s.backup.last_ok_unix, Some(3));
    assert_eq!(s.recovery.status, "failed");
    assert_eq!(s.recovery.last_ok_unix, None);
    assert_eq!((s.recovery.checks_ok, s.recovery.checks_failed), (2, 1));
    assert_eq!(s.recovery.files_verified, 600);
    assert_eq!(s.recovery.failures.len(), 1);

    let mut t = Status::start("r", &[], Some(&s), &at(4));
    assert_eq!(t.backup.last_ok_unix, Some(3));
    assert_eq!(t.backup.snapshot, None);
    t.refuse("locked", true, &at(5));
    assert_eq!(t.state, "finished");
    assert_eq!(t.backup.status, "failed");
    assert_eq!(t.backup.failures, vec!["FATAL: locked".to_string()]);
    assert_eq!(t.backup.last_ok_unix, Some(3));
    assert_eq!(t.recovery.status, "untested");
    let mut u = Status::start("r", &[], Some(&s), &at(6));
    u.refuse("locked", false, &at(7));
    assert_eq!(u.backup.status, "failed");
    assert_eq!(u.recovery.status, "disabled");
}

#[test]
fn heart_beats_once_per_interval() {
    let mut p = Pacer::new(3 * TICK_NANOS);
    let beats: Vec<bool> = (0..7).map(|_| p.tick()).collect();
    assert_eq!(beats, vec![false, false, true, false, false, true, false]);
    let mut fast = Pacer::new(1);
    assert!(fast.tick() && fast.tick());
    assert_eq!(TICK_NANOS, 200_000_000);
}
