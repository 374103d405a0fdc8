use backup_home::outcome::{
    exit_code, is_recovery_stage, record, stage_name, Outcome, Stage,
};

/// Every stage that a run can fail in, and whether it tells of recovery.
const STAGES: [(&str, bool); 13] = [
    ("pre-backup sample", true),
    ("pre-backup restore", true),
    ("pre-backup manifest", true),
    ("post-backup original sample", true),
    ("post-backup manifest", true),
    ("new-snapshot sample", true),
    ("new-snapshot restore", true),
    ("new-snapshot manifest", true),
    ("replica retrieval sftp:user@host:repo", true),
    ("backup", false),
    ("snapshot listing", false),
    ("prune", false),
    ("replica sync sftp:user@host:repo", false),
];

#[test]
fn failures_accumulate_with_stage_labels() {
    let mut failures = Outcome::default();
    assert!(failures.is_empty());
    assert_eq!(exit_code(&failures), 0);
    let first = record(&mut failures, "pre-backup restore", "boom");
    assert_eq!(first, "FAILURE [pre-backup restore]: boom");
    record(&mut failures, "prune", "bang");
    assert_eq!(failures.len(), 2);
    assert_eq!(failures.recovery.len(), 1);
    assert_eq!(failures.backup.len(), 1);
    assert!(failures.recovery[0].contains("FAILURE [pre-backup restore]: boom"));
    assert!(failures.backup[0].contains("FAILURE [prune]: bang"));
    assert_eq!(failures.all().len(), 2);
    assert_eq!(failures.all()[0], "FAILURE [prune]: bang");
    assert!(!failures.is_empty());
    assert_eq!(exit_code(&failures), 1);
}

#[test]
fn recovery_stages_are_classified_as_recovery() {
    for (stage, is_recovery) in STAGES {
        assert_eq!(
            is_recovery_stage(stage),
            is_recovery,
            "stage {stage:?} classified wrongly"
        );
    }
}

#[test]
fn every_stage_is_classified() {
    let replicas = vec!["sftp:user@host:repo".to_string()];
    let stages = [
        Stage::PreSample,
        Stage::PreRestore,
        Stage::PreManifest,
        Stage::Backup,
        Stage::Listing,
        Stage::Prune,
        Stage::ReplicaSync(0),
        Stage::PostOriginal,
        Stage::PostManifest,
        Stage::NewSample,
        Stage::NewRestore,
        Stage::NewManifest,
        Stage::ReplicaRetrieval(0),
    ];
    assert_eq!(stages.len(), STAGES.len());
    for stage in stages {
        let name = stage_name(stage, &replicas);
        assert!(
            STAGES.iter().any(|(known, _)| *known == name),
            "stage {name:?} of a run is missing from STAGES"
        );
    }
}

#[test]
fn outcome_of_one_half_fails_the_run() {
    let mut recovery_only = Outcome::default();
    record(&mut recovery_only, "replica retrieval x", "lost");
    assert!(recovery_only.backup.is_empty());
    assert_eq!(exit_code(&recovery_only), 1);
    let mut backup_only = Outcome::default();
    record(&mut backup_only, "replica sync x", "lost");
    assert!(backup_only.recovery.is_empty());
    assert_eq!(exit_code(&backup_only), 1);
}
