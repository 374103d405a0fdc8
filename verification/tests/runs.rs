use backup_home::config::{Config, Retention, Verification};
use backup_home::manifest::RestoredFile;
use backup_home::outcome::exit_code;
use backup_home::plan::{Phase, Reply, Request, Sync};
use backup_home::report::{banner, conclude_status, fatal_line, summary};
use backup_home::run::Run;
use backup_home::snapshot::Snapshot;
use backup_home::status::{Moment, Status};

fn owned(texts: &[&str]) -> Vec<String> {
    texts.iter().map(|s| s.to_string()).collect()
}

fn config(replicas: &[&str], enable: bool) -> Config {
    Config {
        home: "/home/x".to_string(),
        repo: "primary".to_string(),
        password_command: "pass".to_string(),
        exclude_file: "/ex".to_string(),
        replica_repos: owned(replicas),
        retention: Retention { daily: 7, weekly: 4, monthly: 12, yearly: 3 },
        verification: Verification { enable, sample_size: 2 },
        log_dir: "/log".to_string(),
        log_retention_days: 30,
        status_file: String::new(),
        restic_bin: "restic".to_string(),
        extra_backup_args: Vec::new(),
    }
}

fn snap(id: &str, day: u32, original: Option<&str>) -> Snapshot {
    Snapshot {
        id: id.to_string(),
        time: format!("2026-07-{day:02}T10:00:00Z"),
        paths: owned(&["/home/x"]),
        original: original.map(|s| s.to_string()),
    }
}

fn file(path: &str, sha: &str) -> RestoredFile {
    RestoredFile { path: path.to_string(), sha256: sha.to_string(), size: 1 }
}

fn failed(e: &str) -> Reply {
    Reply::Failed(e.to_string())
}

/// A short name for a request.
fn name(request: &Request) -> String {
    match request {
        Request::Password(c) => format!("password {c}"),
        Request::Capture { repo, args } => format!("{repo}: {}", args.join(" ")),
        Request::List { repo, .. } => format!("{repo}: list"),
        Request::Logged { repo, args } => format!("{repo}: {}", args[0]),
        Request::Sample { repo, snapshot_id, size, without, .. } => {
            format!("{repo}: sample {size} of {snapshot_id} without {}", without.join(","))
        }
        Request::Restore { repo, snapshot_id, paths, label } => {
            format!("{repo}: restore {} of {snapshot_id} [{label}]", paths.join(","))
        }
        Request::Manifest { name, files } => format!("manifest {name} of {}", files.len()),
        Request::Pause { secs } => format!("pause {secs}"),
        Request::Finish => "finish".to_string(),
        Request::Refuse(e) => format!("refuse: {e}"),
    }
}

/// Plays a run to its end; gives the names of its requests and its log.
fn play(run: &mut Run, world: &mut dyn FnMut(&str, Phase) -> Reply) -> (Vec<String>, Vec<String>) {
    let mut requests = Vec::new();
    let mut log = Vec::new();
    loop {
        let asked = name(&run.request());
        requests.push(asked.clone());
        if matches!(run.phase(), Phase::Finished | Phase::Refused) {
            return (requests, log);
        }
        let reply = world(&asked, run.phase());
        assert!(run.offer(reply), "{asked}");
        log.extend(run.take_log());
    }
}

/// A world in which everything goes well: `old1` is there, `new1` is written.
fn good(phase: Phase) -> Reply {
    match phase {
        Phase::Unlock | Phase::Locks | Phase::PruneUnlock => Reply::Output(String::new()),
        Phase::PreListing => Reply::Snapshots(vec![snap("old1", 1, None)]),
        Phase::NewListing | Phase::PostListing => {
            Reply::Snapshots(vec![snap("old1", 1, None), snap("new1", 2, None)])
        }
        Phase::PreSample => Reply::Sample(owned(&["/a", "/b"])),
        Phase::NewSample => Reply::Sample(owned(&["/c"])),
        Phase::PreRestore | Phase::PostRestore => {
            Reply::Files(vec![file("/a", "1"), file("/b", "2")])
        }
        Phase::NewRestore | Phase::CheckRestore(_) => Reply::Files(vec![file("/c", "3")]),
        Phase::CheckListing(_) => Reply::Snapshots(vec![snap("copy1", 2, Some("new1"))]),
        Phase::Replica(_, Sync::Unlock)
        | Phase::Replica(_, Sync::PruneUnlock)
        | Phase::Replica(_, Sync::RetryUnlock { .. }) => Reply::Output(String::new()),
        Phase::Replica(_, Sync::Listing) => {
            Reply::Snapshots(vec![snap("copy0", 1, Some("old1"))])
        }
        _ => Reply::Done,
    }
}

#[test]
fn good_run_does_everything_in_order() {
    let mut run = Run::new(config(&["rep"], true));
    let (requests, log) = play(&mut run, &mut |_, phase| good(phase));
    assert_eq!(
        requests,
        owned(&[
            "password pass",
            "primary: unlock",
            "primary: list locks --no-lock",
            "primary: list",
            "primary: sample 2 of old1 without ",
            "primary: restore /a,/b of old1 [pre-backup]",
            "manifest pre-old-snapshot of 2",
            "primary: backup",
            "primary: list",
            "primary: unlock",
            "primary: forget",
            "rep: unlock",
            "rep: list",
            "rep: copy",
            "rep: unlock",
            "rep: forget",
            "primary: list",
            "primary: restore /a,/b of old1 [post-backup original sample]",
            "manifest post-old-snapshot of 2",
            "primary: sample 2 of new1 without /a,/b",
            "primary: restore /c of new1 [new-snapshot sample]",
            "manifest post-new-snapshot of 1",
            "rep: list",
            "rep: restore /c of copy1 [replica retrieval rep]",
            "manifest replica-1 of 1",
            "finish",
        ])
    );
    assert_eq!(
        log,
        owned(&[
            "--- pre-backup retrieval test (snapshot old1) ---",
            "--- backup ---",
            "new snapshot: new1",
            "--- retention (primary) ---",
            "--- replica sync: rep ---",
            "--- post-backup retrieval test: original sample, snapshot old1 ---",
            "original sample manifests match byte-for-byte",
            "--- post-backup retrieval test: fresh sample from new snapshot new1 ---",
            "--- replica retrieval test: rep ---",
            "replica sample matches the primary manifest",
        ])
    );
    assert_eq!(run.checks_ok(), 4);
    assert_eq!(run.files_verified(), 6);
    assert_eq!(run.new_snapshot().as_deref(), Some("new1"));
    assert_eq!(exit_code(run.failures()), 0);
    assert_eq!(
        summary(&run, "NOW"),
        owned(&[
            "=== recovery: OK — 4 check(s) passed, 0 failed, 6 file(s) restored and compared ===",
            "=== backup-home complete: NOW (all stages OK) ===",
        ])
    );
}

#[test]
fn corruption_fails_the_run_but_backup_is_still_attempted() {
    let mut run = Run::new(config(&[], true));
    let (requests, log) = play(&mut run, &mut |_, phase| match phase {
        Phase::PreRestore => failed("bad pack"),
        _ => good(phase),
    });
    assert!(requests.contains(&"primary: backup".to_string()));
    assert!(log.contains(&"FAILURE [pre-backup restore]: bad pack".to_string()));
    // Nothing was restored before the backup, so there is nothing to compare.
    assert!(!requests.iter().any(|r| r.contains("post-backup original")));
    assert!(run.failures().backup.is_empty());
    assert_eq!(run.failures().recovery.len(), 1);
    assert_eq!(run.checks_ok(), 1);
    assert_eq!(exit_code(run.failures()), 1);
    assert_eq!(
        summary(&run, "NOW"),
        owned(&[
            "=== recovery: FAILED — 1 check(s) passed, 1 failed, 1 file(s) restored and compared ===",
            "=== backup-home finished with 1 FAILURE(S): NOW ===",
            "    FAILURE [pre-backup restore]: bad pack",
        ])
    );
    let start = Moment { text: "t".to_string(), unix: 1 };
    let end = Moment { text: "u".to_string(), unix: 2 };
    let mut status = Status::start("primary", &[], None, &start);
    conclude_status(&run, &mut status, &end);
    assert_eq!(status.backup.status, "ok");
    assert_eq!(status.backup.snapshot.as_deref(), Some("new1"));
    assert_eq!(status.recovery.status, "failed");
    assert_eq!(status.recovery.checks_failed, 1);
}

#[test]
fn everything_is_attempted_when_everything_fails() {
    let mut run = Run::new(config(&["r1", "r2"], true));
    let (requests, _) = play(&mut run, &mut |_, phase| match phase {
        Phase::Password | Phase::Init => Reply::Done,
        Phase::Replica(_, Sync::Pause { .. }) => Reply::Done,
        _ => failed("no"),
    });
    assert_eq!(
        requests,
        owned(&[
            "password pass",
            "primary: unlock",
            "primary: list locks --no-lock",
            "primary: list",
            "primary: init",
            "primary: backup",
            "primary: list",
            "primary: unlock",
            "primary: forget",
            "r1: unlock",
            "r1: list",
            "r1: init",
            "r2: unlock",
            "r2: list",
            "r2: init",
            "finish",
        ])
    );
    assert_eq!(
        run.failures().backup,
        owned(&[
            "FAILURE [backup]: no",
            "FAILURE [snapshot listing]: no",
            "FAILURE [prune]: no",
            "FAILURE [replica sync r1]: cannot reach or initialize replica r1: no",
            "FAILURE [replica sync r2]: cannot reach or initialize replica r2: no",
        ])
    );
    assert!(run.failures().recovery.is_empty());
    assert!(summary(&run, "NOW")[0].starts_with("=== recovery: UNTESTED — 0 check(s) passed"));
}

#[test]
fn first_run_bootstraps_replicas() {
    let mut run = Run::new(config(&["rep"], true));
    let (requests, log) = play(&mut run, &mut |asked, phase| match phase {
        Phase::PreListing | Phase::Replica(_, Sync::Listing) => failed("no repository"),
        Phase::NewListing => Reply::Snapshots(vec![snap("new1", 2, None)]),
        Phase::Replica(_, Sync::Copy { bootstrap, .. }) => {
            assert!(bootstrap, "{asked}");
            Reply::Done
        }
        _ => good(phase),
    });
    assert!(requests.contains(&"primary: init".to_string()));
    assert!(requests.contains(&"rep: init".to_string()));
    assert_eq!(
        log[..4].to_vec(),
        owned(&[
            "Initializing restic repository...",
            "no previous home snapshot — skipping pre-backup retrieval test",
            "--- backup ---",
            "new snapshot: new1",
        ])
    );
    assert!(log.contains(
        &"initializing replica repository rep (chunker params copied from primary)".to_string()
    ));
    assert!(log.contains(&"bootstrapping replica with all retained home snapshots".to_string()));
    assert_eq!(run.checks_ok(), 2);
    assert_eq!(exit_code(run.failures()), 0);
}

#[test]
fn copies_are_retried_five_times() {
    let mut run = Run::new(config(&["r1", "r2"], false));
    let (requests, log) = play(&mut run, &mut |asked, phase| match phase {
        Phase::Replica(_, Sync::Copy { .. }) if asked.starts_with("r1") => failed("timeout"),
        _ => good(phase),
    });
    assert_eq!(requests.iter().filter(|r| *r == "r1: copy").count(), 5);
    assert_eq!(requests.iter().filter(|r| *r == "pause 60").count(), 4);
    assert_eq!(requests.iter().filter(|r| *r == "r1: unlock").count(), 5);
    assert!(!requests.contains(&"r1: forget".to_string()));
    assert!(requests.contains(&"r2: forget".to_string()));
    assert_eq!(
        log.iter().filter(|l| l.starts_with("replica copy attempt ")).cloned().collect::<Vec<_>>()
            [1],
        "replica copy attempt 2/5 failed (timeout); retrying in 60s — already-copied data is skipped on resume"
    );
    assert_eq!(run.failures().backup, owned(&["FAILURE [replica sync r1]: timeout"]));
    assert!(summary(&run, "NOW")[0].starts_with("=== recovery: DISABLED — 0"));
}

#[test]
fn longest_run_ends_after_a_bounded_number_of_requests() {
    // Everything that can be done again is done again: each replica has to be
    // made, is reached at the fifth try, and is checked.
    let mut run = Run::new(config(&["r1", "r2"], true));
    let (requests, _) = play(&mut run, &mut |_, phase| match phase {
        Phase::Replica(_, Sync::Listing) => failed("no repository"),
        Phase::Replica(_, Sync::Copy { attempt, .. }) if attempt < 5 => failed("timeout"),
        _ => good(phase),
    });
    // The making of the primary repository excludes the test before the backup.
    assert_eq!(requests.len() - 1, 21 * 2 + 18 - 1);
    assert_eq!(exit_code(run.failures()), 0);
}

#[test]
fn copy_that_works_later_is_no_failure() {
    let mut run = Run::new(config(&["rep"], false));
    let mut tries = 0;
    play(&mut run, &mut |_, phase| match phase {
        Phase::Replica(_, Sync::Copy { attempt, bootstrap }) => {
            tries += 1;
            assert_eq!((attempt, bootstrap), (tries, false));
            if tries < 5 { failed("timeout") } else { Reply::Done }
        }
        _ => good(phase),
    });
    assert_eq!(tries, 5);
    assert_eq!(exit_code(run.failures()), 0);
}

#[test]
fn locked_repository_refuses_the_run() {
    let mut run = Run::new(config(&["rep"], true));
    let (requests, log) = play(&mut run, &mut |_, phase| match phase {
        Phase::Locks => Reply::Output("abcdef\n".to_string()),
        _ => good(phase),
    });
    assert_eq!(requests.len(), 4);
    let refusal = "restic repo is locked — another backup is still running";
    assert_eq!(requests[3], format!("refuse: {refusal}"));
    assert!(log.is_empty());
    assert_eq!(fatal_line(refusal), format!("FATAL: {refusal}"));
}

#[test]
fn preflight_failures_refuse_the_run() {
    let mut run = Run::new(config(&[], true));
    let (requests, _) = play(&mut run, &mut |_, _| failed("gone"));
    assert_eq!(
        requests[1],
        "refuse: cannot resolve restic password via configured passwordCommand: gone"
    );
    let mut run = Run::new(config(&[], true));
    let (requests, _) = play(&mut run, &mut |_, phase| match phase {
        Phase::PreListing | Phase::Init => failed("gone"),
        _ => good(phase),
    });
    assert_eq!(
        requests.last().unwrap(),
        "refuse: cannot reach or initialize the primary repository: gone"
    );
}

#[test]
fn missing_lock_listing_is_passed_over() {
    let mut run = Run::new(config(&[], false));
    let (requests, _) = play(&mut run, &mut |_, phase| match phase {
        Phase::Unlock | Phase::Locks | Phase::PruneUnlock => failed("no repository"),
        _ => good(phase),
    });
    assert!(requests.contains(&"primary: backup".to_string()));
    assert_eq!(exit_code(run.failures()), 0);
}

#[test]
fn backup_without_a_new_snapshot_is_a_failure() {
    for (listed, complaint) in [
        (vec![snap("old1", 1, None)], "backup reported success but produced no new snapshot"),
        (vec![], "no home snapshot found after backup"),
    ] {
        let mut run = Run::new(config(&["rep"], false));
        let (_, log) = play(&mut run, &mut |_, phase| match phase {
            Phase::NewListing => Reply::Snapshots(listed.clone()),
            _ => good(phase),
        });
        assert_eq!(run.failures().backup, vec![format!("FAILURE [backup]: {complaint}")]);
        assert!(log.contains(
            &"no new snapshot this run — nothing to copy to the replica".to_string()
        ));
        assert_eq!(run.new_snapshot(), None);
        // A backup that failed is not complained about twice.
        let mut run = Run::new(config(&[], false));
        play(&mut run, &mut |_, phase| match phase {
            Phase::Backup => failed("disk full"),
            Phase::NewListing => Reply::Snapshots(listed.clone()),
            _ => good(phase),
        });
        assert_eq!(run.failures().backup, owned(&["FAILURE [backup]: disk full"]));
    }
}

#[test]
fn selected_snapshot_can_be_handed_in() {
    let mut run = Run::new(config(&[], true));
    assert!(run.offer(Reply::Done));
    assert!(run.offer(Reply::Output(String::new())));
    assert!(run.offer(Reply::Output(String::new())));
    assert!(run.offer_selected(Reply::Snapshots(vec![]), Some("chosen".to_string())));
    assert_eq!(name(&run.request()), "primary: sample 2 of chosen without ");
}

#[test]
fn differences_fail_the_check() {
    let mut run = Run::new(config(&["rep"], true));
    play(&mut run, &mut |_, phase| match phase {
        Phase::PostRestore => Reply::Files(vec![file("/a", "1"), file("/b", "x")]),
        Phase::CheckRestore(_) => Reply::Files(vec![]),
        _ => good(phase),
    });
    assert_eq!(
        run.failures().recovery,
        owned(&[
            "FAILURE [post-backup original sample]: 1 difference(s): sha256 mismatch: /b (2 -> x)",
            "FAILURE [replica retrieval rep]: 1 difference(s): missing after: /c",
        ])
    );
    assert_eq!(run.checks_ok(), 2);
    assert_eq!(run.files_verified(), 3);
}

#[test]
fn unwritten_manifests_fail_but_the_check_counts() {
    let mut run = Run::new(config(&["rep"], true));
    play(&mut run, &mut |_, phase| match phase {
        Phase::PreManifest
        | Phase::PostManifest
        | Phase::NewManifest
        | Phase::CheckManifest(_) => failed("disk full"),
        _ => good(phase),
    });
    assert_eq!(run.checks_ok(), 4);
    assert_eq!(
        run.failures().recovery,
        owned(&[
            "FAILURE [pre-backup manifest]: disk full",
            "FAILURE [post-backup manifest]: disk full",
            "FAILURE [new-snapshot manifest]: disk full",
            "FAILURE [replica retrieval rep]: disk full",
        ])
    );
}

#[test]
fn retrieval_failures_are_recorded_by_stage() {
    let mut run = Run::new(config(&["r1", "r2", "r3"], true));
    let (_, log) = play(&mut run, &mut |_, phase| match phase {
        Phase::PostListing => failed("a"),
        Phase::CheckListing(0) => failed("b"),
        Phase::CheckListing(1) => Reply::Snapshots(vec![]),
        Phase::CheckRestore(2) => failed("c"),
        _ => good(phase),
    });
    assert_eq!(
        run.failures().recovery,
        owned(&[
            "FAILURE [post-backup original sample]: a",
            "FAILURE [replica retrieval r1]: b",
            "FAILURE [replica retrieval r2]: replica has no copy of the new snapshot",
            "FAILURE [replica retrieval r3]: c",
        ])
    );
    assert!(log.contains(&"--- replica retrieval test: r3 ---".to_string()));
    let mut run = Run::new(config(&["r1"], true));
    let (_, log) = play(&mut run, &mut |_, phase| match phase {
        Phase::PreSample | Phase::NewSample => failed("d"),
        _ => good(phase),
    });
    assert_eq!(
        run.failures().recovery,
        owned(&["FAILURE [pre-backup sample]: d", "FAILURE [new-snapshot sample]: d"])
    );
    assert!(log.contains(
        &"skipping replica retrieval tests — no new snapshot or no fresh sample this run"
            .to_string()
    ));
    let mut run = Run::new(config(&[], true));
    play(&mut run, &mut |_, phase| match phase {
        Phase::PostRestore | Phase::NewRestore => failed("e"),
        _ => good(phase),
    });
    assert_eq!(
        run.failures().recovery,
        owned(&["FAILURE [post-backup original sample]: e", "FAILURE [new-snapshot restore]: e"])
    );
}

#[test]
fn pruned_old_snapshot_and_empty_sample_are_passed_over() {
    let mut run = Run::new(config(&[], true));
    let (requests, log) = play(&mut run, &mut |_, phase| match phase {
        Phase::PostListing => Reply::Snapshots(vec![snap("new1", 2, None)]),
        Phase::NewSample => Reply::Sample(vec![]),
        _ => good(phase),
    });
    assert!(log.contains(
        &"old snapshot was removed by the retention policy — skipping original-sample comparison"
            .to_string()
    ));
    assert!(log.contains(
        &"no eligible files outside the original sample — skipping new-snapshot restore test"
            .to_string()
    ));
    assert!(!requests.iter().any(|r| r.contains("restore  of new1")));
    assert_eq!(run.checks_ok(), 1);
    assert_eq!(exit_code(run.failures()), 0);
}

#[test]
fn snapshots_without_files_leave_recovery_untested() {
    let mut run = Run::new(config(&[], true));
    let (requests, _) = play(&mut run, &mut |_, phase| match phase {
        Phase::PreSample | Phase::NewSample => Reply::Sample(vec![]),
        Phase::PreRestore | Phase::PostRestore => Reply::Files(vec![]),
        _ => good(phase),
    });
    assert!(requests.contains(&"manifest post-old-snapshot of 0".to_string()));
    assert_eq!((run.checks_ok(), run.files_verified()), (2, 0));
    assert_eq!(exit_code(run.failures()), 0);
    assert_eq!(
        summary(&run, "NOW")[0],
        "=== recovery: UNTESTED — 2 check(s) passed, 0 failed, 0 file(s) restored and compared ==="
    );
    let start = Moment { text: "t".to_string(), unix: 1 };
    let end = Moment { text: "u".to_string(), unix: 2 };
    let mut status = Status::start("primary", &[], None, &start);
    conclude_status(&run, &mut status, &end);
    assert_eq!(status.recovery.status, "untested");
    assert_eq!(status.recovery.last_ok_unix, None);
    assert_eq!(status.backup.status, "ok");
}

#[test]
fn empty_checks_count_beside_others() {
    // The old snapshot holds no file, the new one does.
    let mut run = Run::new(config(&[], true));
    play(&mut run, &mut |_, phase| match phase {
        Phase::PreSample => Reply::Sample(vec![]),
        Phase::PreRestore | Phase::PostRestore => Reply::Files(vec![]),
        _ => good(phase),
    });
    assert_eq!((run.checks_ok(), run.files_verified()), (3, 1));
    assert!(summary(&run, "NOW")[0].starts_with("=== recovery: OK — 3 check(s) passed, 0 failed"));
}

#[test]
fn disabled_verification_only_stores() {
    let mut run = Run::new(config(&["rep"], false));
    let (requests, _) = play(&mut run, &mut |_, phase| good(phase));
    assert!(!requests.iter().any(|r| r.contains("restore") || r.contains("sample")));
    assert_eq!(run.checks_ok(), 0);
    assert_eq!(requests.len(), 14);
}

#[test]
fn replies_that_do_not_answer_change_nothing() {
    let mut run = Run::new(config(&[], true));
    assert!(!run.offer(Reply::Output("x".to_string())));
    assert!(!run.offer(Reply::Snapshots(vec![])));
    assert_eq!(run.phase(), Phase::Password);
    play(&mut run, &mut |_, phase| good(phase));
    assert!(!run.offer(Reply::Done));
    assert_eq!(run.phase(), Phase::Finished);
    // An identifier that has no short form cannot be shown.
    let mut run = Run::new(config(&[], true));
    assert!(run.offer(Reply::Done));
    assert!(run.offer(Reply::Output(String::new())));
    assert!(run.offer(Reply::Output(String::new())));
    assert!(!run.offer(Reply::Snapshots(vec![snap("1234567é", 1, None)])));
    assert_eq!(run.phase(), Phase::PreListing);
    assert!(run.offer(Reply::Snapshots(vec![])));
}

#[test]
fn log_begins_with_the_settings() {
    assert_eq!(
        banner(&config(&["r1", "r2"], true), "START", "/l/x.log"),
        owned(&[
            "=== backup-home started: START ===",
            "    primary repo: primary",
            "    replica repo: r1",
            "    replica repo: r2",
            "    verification: enabled, sample size 2",
            "    log file: /l/x.log",
        ])
    );
    assert_eq!(
        banner(&config(&[], false), "START", "/l/x.log")[2..].to_vec(),
        owned(&["    verification: disabled", "    log file: /l/x.log"])
    );
}
