//! What a run does, step by step: what it asks for in each phase, and what it
//! makes of each reply.

use vstd::prelude::*;
use crate::compare;
use crate::config;
use crate::manifest::FileView;
use crate::manifest::RestoredFile;
use crate::manifest;
use crate::outcome::Stage;
use crate::outcome;
use crate::restic;
use crate::snapshot::Snapshot;
use crate::snapshot;
use crate::text;

verus! {

/// How often a copy to a replica is tried.
pub const COPY_ATTEMPTS: u32 = 5;

/// How many seconds pass between two tries.
pub const COPY_PAUSE_SECS: u64 = 60;

/// The phases of bringing one replica up to date.
#[derive(Clone, Copy, PartialEq, Eq, Structural, Debug)]
pub enum Sync {
    /// Dropping stale locks.
    Unlock,
    /// Listing what the replica holds.
    Listing,
    /// Making the replica.
    Init,
    /// Copying for the given time: all snapshots of the home directory to
    /// bootstrap the replica, else the new one.
    Copy { attempt: u32, bootstrap: bool },
    /// Waiting after a failed copy.
    Pause { attempt: u32, bootstrap: bool },
    /// Dropping the lock that a failed copy left.
    RetryUnlock { attempt: u32, bootstrap: bool },
    /// Dropping stale locks before retention.
    PruneUnlock,
    /// Applying the retention policy.
    Prune,
}

/// The phases of a run. A replica is given by its place in the configuration.
#[derive(Clone, Copy, PartialEq, Eq, Structural, Debug)]
pub enum Phase {
    /// Checking that the password can be had.
    Password,
    /// Dropping stale locks of the primary repository.
    Unlock,
    /// Looking whether another backup is running.
    Locks,
    /// Listing what the primary repository holds before the backup.
    PreListing,
    /// Making the primary repository.
    Init,
    /// Sampling the latest snapshot before the backup.
    PreSample,
    /// Restoring that sample.
    PreRestore,
    /// Writing down what was restored.
    PreManifest,
    /// Writing the new snapshot.
    Backup,
    /// Listing what the primary repository holds after the backup.
    NewListing,
    /// Dropping stale locks before retention.
    PruneUnlock,
    /// Applying the retention policy.
    Prune,
    /// Bringing a replica up to date.
    Replica(usize, Sync),
    /// Listing what the primary repository holds after retention.
    PostListing,
    /// Restoring the first sample again.
    PostRestore,
    /// Writing down what was restored.
    PostManifest,
    /// Sampling the new snapshot.
    NewSample,
    /// Restoring that sample.
    NewRestore,
    /// Writing down what was restored.
    NewManifest,
    /// Listing what a replica holds.
    CheckListing(usize),
    /// Restoring the sample of the new snapshot from the replica.
    CheckRestore(usize),
    /// Writing down what was restored.
    CheckManifest(usize),
    /// The run came to its end.
    Finished,
    /// The run was refused before it began its work.
    Refused,
}

/// What came of a request.
pub enum Reply {
    /// It was done.
    Done,
    /// It failed, for the reason given.
    Failed(String),
    /// What restic printed.
    Output(String),
    /// What a repository holds.
    Snapshots(Vec<Snapshot>),
    /// The paths that were sampled.
    Sample(Vec<String>),
    /// The files that were restored and read back.
    Files(Vec<RestoredFile>),
}

/// What a [`Reply`] holds.
pub enum ReplyView {
    Done,
    Failed(Seq<char>),
    Output(Seq<char>),
    Snapshots(Seq<snapshot::SnapshotView>),
    Sample(Seq<Seq<char>>),
    Files(Seq<FileView>),
}

impl View for Reply {
    type V = ReplyView;

    open spec fn view(&self) -> ReplyView {
        match self {
            Reply::Done => ReplyView::Done,
            Reply::Failed(e) => ReplyView::Failed(e@),
            Reply::Output(s) => ReplyView::Output(s@),
            Reply::Snapshots(v) => ReplyView::Snapshots(snapshot::snapshot_views(v@)),
            Reply::Sample(v) => ReplyView::Sample(text::texts(v@)),
            Reply::Files(v) => ReplyView::Files(manifest::file_views(v@)),
        }
    }
}

/// What a run asks for.
pub enum Request {
    /// To run the password command, and to judge what comes of it.
    Password(String),
    /// To run restic on a repository and to hand back what it prints.
    Capture { repo: String, args: Vec<String> },
    /// To run restic on a repository and to hand back the snapshots that it
    /// prints.
    List { repo: String, args: Vec<String> },
    /// To run restic on a repository, with its output in the log.
    Logged { repo: String, args: Vec<String> },
    /// To sample at most `size` of the files that restic prints, none of
    /// which is among those to leave out.
    Sample {
        repo: String,
        snapshot_id: String,
        args: Vec<String>,
        size: usize,
        without: Vec<String>,
    },
    /// To restore these paths of a snapshot and to read them back.
    Restore { repo: String, snapshot_id: String, paths: Vec<String>, label: String },
    /// To write these files down under the given name.
    Manifest { name: String, files: Vec<RestoredFile> },
    /// To wait.
    Pause { secs: u64 },
    /// Nothing more: the run came to its end.
    Finish,
    /// Nothing more: the run was refused, for the reason given.
    Refuse(String),
}

/// What a [`Request`] holds.
pub enum RequestView {
    Password(Seq<char>),
    Capture { repo: Seq<char>, args: Seq<Seq<char>> },
    List { repo: Seq<char>, args: Seq<Seq<char>> },
    Logged { repo: Seq<char>, args: Seq<Seq<char>> },
    Sample {
        repo: Seq<char>,
        snapshot_id: Seq<char>,
        args: Seq<Seq<char>>,
        size: usize,
        without: Seq<Seq<char>>,
    },
    Restore {
        repo: Seq<char>,
        snapshot_id: Seq<char>,
        paths: Seq<Seq<char>>,
        label: Seq<char>,
    },
    Manifest { name: Seq<char>, files: Seq<FileView> },
    Pause { secs: u64 },
    Finish,
    Refuse(Seq<char>),
}

impl View for Request {
    type V = RequestView;

    open spec fn view(&self) -> RequestView {
        match self {
            Request::Password(c) => RequestView::Password(c@),
            Request::Capture { repo, args } => RequestView::Capture {
                repo: repo@,
                args: text::texts(args@),
            },
            Request::List { repo, args } => RequestView::List {
                repo: repo@,
                args: text::texts(args@),
            },
            Request::Logged { repo, args } => RequestView::Logged {
                repo: repo@,
                args: text::texts(args@),
            },
            Request::Sample { repo, snapshot_id, args, size, without } => RequestView::Sample {
                repo: repo@,
                snapshot_id: snapshot_id@,
                args: text::texts(args@),
                size: *size,
                without: text::texts(without@),
            },
            Request::Restore { repo, snapshot_id, paths, label } => RequestView::Restore {
                repo: repo@,
                snapshot_id: snapshot_id@,
                paths: text::texts(paths@),
                label: label@,
            },
            Request::Manifest { name, files } => RequestView::Manifest {
                name: name@,
                files: manifest::file_views(files@),
            },
            Request::Pause { secs } => RequestView::Pause { secs: *secs },
            Request::Finish => RequestView::Finish,
            Request::Refuse(e) => RequestView::Refuse(e@),
        }
    }
}

// ---------------------------------------------------------------------------
// The state of a run

/// The state of a run.
pub struct RunView {
    pub cfg: config::ConfigView,
    pub phase: Phase,
    /// The latest snapshot of the home directory before the backup.
    pub old: Option<Seq<char>>,
    /// The snapshot that the backup wrote.
    pub new: Option<Seq<char>>,
    /// Whether the backup reported success.
    pub backup_ok: bool,
    /// The sample of the old snapshot, and what was restored of it before the
    /// backup.
    pub sample_a: Seq<Seq<char>>,
    pub manifest_a: Option<Seq<FileView>>,
    /// The sample of the new snapshot, and what was restored of it.
    pub sample_b: Seq<Seq<char>>,
    pub manifest_b: Option<Seq<FileView>>,
    /// What was restored last.
    pub pending: Seq<FileView>,
    /// The copy of the new snapshot in the replica that is being checked.
    pub target: Seq<char>,
    pub failures: outcome::OutcomeView,
    /// How many retrieval checks passed, and how many files they compared.
    pub checks_ok: u32,
    pub files_verified: u64,
    /// Why the run was refused.
    pub refusal: Seq<char>,
    /// The lines for the log that have not been handed out.
    pub log: Seq<Seq<char>>,
}

/// What is said of manifests that differ.
pub open spec fn difference_text(diffs: Seq<Seq<char>>) -> Seq<char> {
    text::decimal(diffs.len()) + " difference(s): "@ + manifest::first_ten(diffs)
}

/// What is said when no snapshot of the home directory, or no new one, is
/// listed after a backup that reported success; nothing if there is a new one.
pub open spec fn backup_complaint(old: Option<Seq<char>>, latest: Option<Seq<char>>) -> Option<
    Seq<char>,
> {
    if latest is None {
        Some("no home snapshot found after backup"@)
    } else if latest == old {
        Some("backup reported success but produced no new snapshot"@)
    } else {
        None
    }
}

/// Whether a phase comes before the backup.
pub open spec fn before_backup(phase: Phase) -> bool {
    match phase {
        Phase::Password | Phase::Unlock | Phase::Locks | Phase::PreListing | Phase::Init => true,
        Phase::PreSample | Phase::PreRestore | Phase::PreManifest => true,
        _ => false,
    }
}

impl RunView {
    /// The state in which a run begins.
    pub open spec fn initial(cfg: config::ConfigView) -> RunView {
        RunView {
            cfg,
            phase: Phase::Password,
            old: None,
            new: None,
            backup_ok: false,
            sample_a: seq![],
            manifest_a: None,
            sample_b: seq![],
            manifest_b: None,
            pending: seq![],
            target: seq![],
            failures: outcome::OutcomeView::none(),
            checks_ok: 0,
            files_verified: 0,
            refusal: seq![],
            log: seq![],
        }
    }

    /// The latest snapshot of the home directory in a reply that lists
    /// snapshots.
    pub open spec fn latest_in(self, reply: ReplyView) -> Option<Seq<char>> {
        match reply {
            ReplyView::Snapshots(list) => match snapshot::latest_of(
                list,
                snapshot::order_nanos_of(list),
                self.cfg.home,
            ) {
                Some(s) => Some(s.id),
                None => None,
            },
            _ => None,
        }
    }

    // -----------------------------------------------------------------------
    // Small steps

    /// The same, in another phase.
    pub open spec fn at(self, phase: Phase) -> RunView {
        RunView { phase, ..self }
    }

    /// The same, with one more line for the log.
    pub open spec fn say(self, line: Seq<char>) -> RunView {
        RunView { log: self.log.push(line), ..self }
    }

    /// A stage failed: that is recorded and logged.
    pub open spec fn fail(self, stage: Stage, detail: Seq<char>) -> RunView {
        let name = outcome::stage_text(stage, self.cfg.replica_repos);
        RunView { failures: self.failures.recorded(name, detail), ..self }.say(
            outcome::failure_text(name, detail),
        )
    }

    /// A stage failed if the reply says so.
    pub open spec fn fail_if(self, stage: Stage, reply: ReplyView) -> RunView {
        match reply {
            ReplyView::Failed(e) => self.fail(stage, e),
            _ => self,
        }
    }

    /// What was restored last passed a retrieval check.
    pub open spec fn pass(self) -> RunView {
        RunView {
            checks_ok: (self.checks_ok + 1) as u32,
            files_verified: (self.files_verified + self.pending.len()) as u64,
            ..self
        }
    }

    /// What was restored last is compared with what it has to be.
    pub open spec fn compare(
        self,
        expected: Seq<FileView>,
        stage: Stage,
        praise: Seq<char>,
    ) -> RunView {
        let diffs = compare::differences(expected, self.pending);
        if diffs.len() == 0 {
            self.pass().say(praise)
        } else {
            self.fail(stage, difference_text(diffs))
        }
    }

    /// The run is refused.
    pub open spec fn refuse(self, message: Seq<char>) -> RunView {
        RunView { refusal: message, ..self }.at(Phase::Refused)
    }

    // -----------------------------------------------------------------------
    // Going on to the next part of the run

    /// The repository is at hand, and `old` is the latest snapshot in it: it
    /// is tested, if it can be and shall be.
    pub open spec fn with_old(self, old: Option<Seq<char>>) -> RunView {
        let s = RunView { old, ..self };
        if !self.cfg.verification.enable {
            s.to_backup()
        } else {
            match old {
                None => s.say(
                    "no previous home snapshot — skipping pre-backup retrieval test"@,
                ).to_backup(),
                Some(id) => s.say(
                    "--- pre-backup retrieval test (snapshot "@ + snapshot::shortened(id)
                        + ") ---"@,
                ).at(Phase::PreSample),
            }
        }
    }

    /// On to the backup, whatever came before it.
    pub open spec fn to_backup(self) -> RunView {
        self.say("--- backup ---"@).at(Phase::Backup)
    }

    /// The backup is over, and `latest` is the latest snapshot that is listed.
    pub open spec fn with_latest(self, latest: Option<Seq<char>>) -> RunView {
        match backup_complaint(self.old, latest) {
            Some(complaint) => if self.backup_ok {
                self.fail(Stage::Backup, complaint).with_new(None)
            } else {
                self.with_new(None)
            },
            None => self.with_new(latest),
        }
    }

    /// It is settled which snapshot is new.
    pub open spec fn with_new(self, new: Option<Seq<char>>) -> RunView {
        let s = RunView { new, ..self };
        let t = match new {
            Some(id) => s.say("new snapshot: "@ + snapshot::shortened(id)),
            None => s,
        };
        t.say("--- retention (primary) ---"@).at(Phase::PruneUnlock)
    }

    /// On to the replica at `i`, or past the last one.
    pub open spec fn to_replica(self, i: int) -> RunView {
        if i < self.cfg.replica_repos.len() {
            self.say("--- replica sync: "@ + self.cfg.replica_repos[i] + " ---"@).at(
                Phase::Replica(i as usize, Sync::Unlock),
            )
        } else {
            self.to_post()
        }
    }

    /// The replica is at hand: what is missing there is copied.
    pub open spec fn to_copy(self, i: usize, has_home: bool) -> RunView {
        if !has_home {
            self.say("bootstrapping replica with all retained home snapshots"@).at(
                Phase::Replica(i, Sync::Copy { attempt: 1, bootstrap: true }),
            )
        } else if self.new is Some {
            self.at(Phase::Replica(i, Sync::Copy { attempt: 1, bootstrap: false }))
        } else {
            self.say("no new snapshot this run — nothing to copy to the replica"@).to_replica(
                i + 1,
            )
        }
    }

    /// On to the second restore of the first sample, if there was a first one.
    pub open spec fn to_post(self) -> RunView {
        if self.manifest_a is Some && self.old is Some {
            self.say(
                "--- post-backup retrieval test: original sample, snapshot "@
                    + snapshot::shortened(self.old->0) + " ---"@,
            ).at(Phase::PostListing)
        } else {
            self.to_new()
        }
    }

    /// On to the sample of the new snapshot, if there is one.
    pub open spec fn to_new(self) -> RunView {
        if self.cfg.verification.enable && self.new is Some {
            self.say(
                "--- post-backup retrieval test: fresh sample from new snapshot "@
                    + snapshot::shortened(self.new->0) + " ---"@,
            ).at(Phase::NewSample)
        } else {
            self.to_checks()
        }
    }

    /// On to the checks of the replicas, if there is something to check.
    pub open spec fn to_checks(self) -> RunView {
        if self.cfg.verification.enable {
            if self.new is Some && self.manifest_b is Some {
                self.to_check(0)
            } else if self.cfg.replica_repos.len() > 0 {
                self.say(
                    "skipping replica retrieval tests — no new snapshot or no fresh sample this run"@,
                ).at(Phase::Finished)
            } else {
                self.at(Phase::Finished)
            }
        } else {
            self.at(Phase::Finished)
        }
    }

    /// On to the check of the replica at `i`, or to the end.
    pub open spec fn to_check(self, i: int) -> RunView {
        if i < self.cfg.replica_repos.len() {
            self.say("--- replica retrieval test: "@ + self.cfg.replica_repos[i] + " ---"@).at(
                Phase::CheckListing(i as usize),
            )
        } else {
            self.at(Phase::Finished)
        }
    }

    // -----------------------------------------------------------------------
    // What is made of a reply

    /// The next state while a replica is brought up to date.
    pub open spec fn sync_step(self, i: usize, sync: Sync, reply: ReplyView) -> RunView {
        let replica = self.cfg.replica_repos[i as int];
        match sync {
            Sync::Unlock => self.at(Phase::Replica(i, Sync::Listing)),
            Sync::Listing => match reply {
                ReplyView::Snapshots(list) => self.to_copy(
                    i,
                    snapshot::some_of_home(list, self.cfg.home),
                ),
                _ => self.say(
                    "initializing replica repository "@ + replica
                        + " (chunker params copied from primary)"@,
                ).at(Phase::Replica(i, Sync::Init)),
            },
            Sync::Init => match reply {
                ReplyView::Failed(e) => self.fail(
                    Stage::ReplicaSync(i),
                    restic::in_context("cannot reach or initialize replica "@ + replica, e),
                ).to_replica(i + 1),
                _ => self.to_copy(i, false),
            },
            Sync::Copy { attempt, bootstrap } => match reply {
                ReplyView::Failed(e) => if attempt < COPY_ATTEMPTS {
                    self.say(
                        "replica copy attempt "@ + text::decimal(attempt as nat) + "/"@
                            + text::decimal(COPY_ATTEMPTS as nat) + " failed ("@ + e
                            + "); retrying in 60s — already-copied data is skipped on resume"@,
                    ).at(Phase::Replica(i, Sync::Pause { attempt, bootstrap }))
                } else {
                    self.fail(Stage::ReplicaSync(i), e).to_replica(i + 1)
                },
                _ => self.at(Phase::Replica(i, Sync::PruneUnlock)),
            },
            Sync::Pause { attempt, bootstrap } => self.at(
                Phase::Replica(i, Sync::RetryUnlock { attempt, bootstrap }),
            ),
            Sync::RetryUnlock { attempt, bootstrap } => self.at(
                Phase::Replica(i, Sync::Copy { attempt: (attempt + 1) as u32, bootstrap }),
            ),
            Sync::PruneUnlock => self.at(Phase::Replica(i, Sync::Prune)),
            Sync::Prune => self.fail_if(Stage::ReplicaSync(i), reply).to_replica(i + 1),
        }
    }

    /// The next state while a replica is checked.
    pub open spec fn check_step(self, i: usize, reply: ReplyView) -> RunView {
        let stage = Stage::ReplicaRetrieval(i);
        match (self.phase, reply) {
            (Phase::CheckManifest(_), _) => self.fail_if(stage, reply).compare(
                self.manifest_b->0,
                stage,
                "replica sample matches the primary manifest"@,
            ).to_check(i + 1),
            (_, ReplyView::Snapshots(list)) => match snapshot::first_copy(list, self.new->0) {
                Some(copy) => RunView { target: copy.id, ..self }.at(Phase::CheckRestore(i)),
                None => self.fail(stage, "replica has no copy of the new snapshot"@).to_check(
                    i + 1,
                ),
            },
            (_, ReplyView::Files(m)) => RunView { pending: m, ..self }.at(Phase::CheckManifest(i)),
            _ => self.fail_if(stage, reply).to_check(i + 1),
        }
    }

    /// The next state, where `latest` is the latest snapshot of the home
    /// directory that the reply lists.
    pub open spec fn step(self, reply: ReplyView, latest: Option<Seq<char>>) -> RunView {
        match self.phase {
            Phase::Password => match reply {
                ReplyView::Failed(e) => self.refuse(
                    restic::in_context(
                        "cannot resolve restic password via configured passwordCommand"@,
                        e,
                    ),
                ),
                _ => self.at(Phase::Unlock),
            },
            Phase::Unlock => self.at(Phase::Locks),
            Phase::Locks => match reply {
                ReplyView::Output(listing) if restic::shows_lock(listing) => self.refuse(
                    "restic repo is locked — another backup is still running"@,
                ),
                _ => self.at(Phase::PreListing),
            },
            Phase::PreListing => match reply {
                ReplyView::Snapshots(_) => self.with_old(latest),
                _ => self.say("Initializing restic repository..."@).at(Phase::Init),
            },
            Phase::Init => match reply {
                ReplyView::Failed(e) => self.refuse(
                    restic::in_context("cannot reach or initialize the primary repository"@, e),
                ),
                _ => self.with_old(None),
            },
            Phase::PreSample => match reply {
                ReplyView::Sample(paths) => RunView { sample_a: paths, ..self }.at(
                    Phase::PreRestore,
                ),
                _ => self.fail_if(Stage::PreSample, reply).to_backup(),
            },
            Phase::PreRestore => match reply {
                ReplyView::Files(m) => RunView { pending: m, ..self }.at(Phase::PreManifest),
                _ => self.fail_if(Stage::PreRestore, reply).to_backup(),
            },
            Phase::PreManifest => RunView {
                manifest_a: Some(self.pending),
                ..self.fail_if(Stage::PreManifest, reply).pass()
            }.to_backup(),
            Phase::Backup => RunView {
                backup_ok: !(reply is Failed),
                ..self.fail_if(Stage::Backup, reply)
            }.at(Phase::NewListing),
            Phase::NewListing => match reply {
                ReplyView::Snapshots(_) => self.with_latest(latest),
                _ => self.fail_if(Stage::Listing, reply).with_new(None),
            },
            Phase::PruneUnlock => self.at(Phase::Prune),
            Phase::Prune => self.fail_if(Stage::Prune, reply).to_replica(0),
            Phase::Replica(i, sync) => self.sync_step(i, sync, reply),
            Phase::PostListing => match reply {
                ReplyView::Snapshots(list) => if snapshot::id_listed(list, self.old->0) {
                    self.at(Phase::PostRestore)
                } else {
                    self.say(
                        "old snapshot was removed by the retention policy — skipping original-sample comparison"@,
                    ).to_new()
                },
                _ => self.fail_if(Stage::PostOriginal, reply).to_new(),
            },
            Phase::PostRestore => match reply {
                ReplyView::Files(m) => RunView { pending: m, ..self }.at(Phase::PostManifest),
                _ => self.fail_if(Stage::PostOriginal, reply).to_new(),
            },
            Phase::PostManifest => self.fail_if(Stage::PostManifest, reply).compare(
                self.manifest_a->0,
                Stage::PostOriginal,
                "original sample manifests match byte-for-byte"@,
            ).to_new(),
            Phase::NewSample => match reply {
                ReplyView::Sample(paths) => {
                    let s = RunView { sample_b: paths, ..self };
                    if paths.len() == 0 {
                        s.say(
                            "no eligible files outside the original sample — skipping new-snapshot restore test"@,
                        ).to_checks()
                    } else {
                        s.at(Phase::NewRestore)
                    }
                },
                _ => self.fail_if(Stage::NewSample, reply).to_checks(),
            },
            Phase::NewRestore => match reply {
                ReplyView::Files(m) => RunView { pending: m, ..self }.at(Phase::NewManifest),
                _ => self.fail_if(Stage::NewRestore, reply).to_checks(),
            },
            Phase::NewManifest => RunView {
                manifest_b: Some(self.pending),
                ..self.fail_if(Stage::NewManifest, reply).pass()
            }.to_checks(),
            Phase::CheckListing(i) => self.check_step(i, reply),
            Phase::CheckRestore(i) => self.check_step(i, reply),
            Phase::CheckManifest(i) => self.check_step(i, reply),
            Phase::Finished => self,
            Phase::Refused => self,
        }
    }

    // -----------------------------------------------------------------------
    // What is asked for

    /// What is asked for while a replica is brought up to date.
    pub open spec fn sync_request(self, i: usize, sync: Sync) -> RequestView {
        let repo = self.cfg.replica_repos[i as int];
        match sync {
            Sync::Unlock | Sync::RetryUnlock { .. } | Sync::PruneUnlock => RequestView::Capture {
                repo,
                args: restic::unlock_arguments(),
            },
            Sync::Listing => RequestView::List { repo, args: restic::snapshots_arguments() },
            Sync::Init => RequestView::Logged {
                repo,
                args: restic::replica_init_arguments(self.cfg),
            },
            Sync::Copy { bootstrap, .. } => RequestView::Logged {
                repo,
                args: restic::copy_arguments(
                    self.cfg,
                    if bootstrap {
                        None
                    } else {
                        self.new
                    },
                ),
            },
            Sync::Pause { .. } => RequestView::Pause { secs: COPY_PAUSE_SECS },
            Sync::Prune => RequestView::Logged {
                repo,
                args: restic::forget_arguments(self.cfg.retention),
            },
        }
    }

    /// What is asked for.
    pub open spec fn request(self) -> RequestView {
        let repo = self.cfg.repo;
        let size = self.cfg.verification.sample_size;
        match self.phase {
            Phase::Password => RequestView::Password(self.cfg.password_command),
            Phase::Unlock | Phase::PruneUnlock => RequestView::Capture {
                repo,
                args: restic::unlock_arguments(),
            },
            Phase::Locks => RequestView::Capture { repo, args: restic::locks_arguments() },
            Phase::PreListing | Phase::NewListing | Phase::PostListing => RequestView::List {
                repo,
                args: restic::snapshots_arguments(),
            },
            Phase::Init => RequestView::Logged { repo, args: restic::init_arguments() },
            Phase::PreSample => RequestView::Sample {
                repo,
                snapshot_id: self.old->0,
                args: restic::ls_arguments(self.old->0),
                size,
                without: seq![],
            },
            Phase::PreRestore => RequestView::Restore {
                repo,
                snapshot_id: self.old->0,
                paths: self.sample_a,
                label: "pre-backup"@,
            },
            Phase::PreManifest => RequestView::Manifest {
                name: "pre-old-snapshot"@,
                files: self.pending,
            },
            Phase::Backup => RequestView::Logged {
                repo,
                args: restic::backup_arguments(self.cfg),
            },
            Phase::Prune => RequestView::Logged {
                repo,
                args: restic::forget_arguments(self.cfg.retention),
            },
            Phase::Replica(i, sync) => self.sync_request(i, sync),
            Phase::PostRestore => RequestView::Restore {
                repo,
                snapshot_id: self.old->0,
                paths: self.sample_a,
                label: "post-backup original sample"@,
            },
            Phase::PostManifest => RequestView::Manifest {
                name: "post-old-snapshot"@,
                files: self.pending,
            },
            Phase::NewSample => RequestView::Sample {
                repo,
                snapshot_id: self.new->0,
                args: restic::ls_arguments(self.new->0),
                size,
                without: self.sample_a,
            },
            Phase::NewRestore => RequestView::Restore {
                repo,
                snapshot_id: self.new->0,
                paths: self.sample_b,
                label: "new-snapshot sample"@,
            },
            Phase::NewManifest => RequestView::Manifest {
                name: "post-new-snapshot"@,
                files: self.pending,
            },
            Phase::CheckListing(i) => RequestView::List {
                repo: self.cfg.replica_repos[i as int],
                args: restic::snapshots_arguments(),
            },
            Phase::CheckRestore(i) => RequestView::Restore {
                repo: self.cfg.replica_repos[i as int],
                snapshot_id: self.target,
                paths: self.sample_b,
                label: outcome::stage_text(
                    Stage::ReplicaRetrieval(i),
                    self.cfg.replica_repos,
                ),
            },
            Phase::CheckManifest(i) => RequestView::Manifest {
                name: "replica-"@ + text::decimal((i + 1) as nat),
                files: self.pending,
            },
            Phase::Finished => RequestView::Finish,
            Phase::Refused => RequestView::Refuse(self.refusal),
        }
    }

    // -----------------------------------------------------------------------
    // Validity

    /// Whether the state is one that a run can be in.
    pub open spec fn wf(self) -> bool {
        self.phase_fits() && self.sound()
    }

    /// Whether the parts of the state go together, in any phase.
    pub open spec fn sound(self) -> bool {
        &&& self.cfg.replica_repos.len() <= usize::MAX
        &&& self.failures.backup.len() + self.failures.recovery.len() <= usize::MAX
        &&& self.manifest_a is Some ==> self.old is Some
        &&& self.old is Some && self.cfg.verification.enable ==> snapshot::can_shorten(self.old->0)
        &&& self.new is Some ==> snapshot::can_shorten(self.new->0) && self.old != self.new
        &&& !self.cfg.verification.enable ==> self.manifest_a is None && self.checks_ok == 0
            && self.files_verified == 0 && self.failures.recovery.len() == 0
    }

    /// Whether the snapshots that are still to be shown have short forms.
    pub open spec fn shows_ids(self) -> bool {
        &&& self.manifest_a is Some && self.old is Some ==> snapshot::can_shorten(self.old->0)
        &&& self.new is Some ==> snapshot::can_shorten(self.new->0)
    }

    /// Whether what the phase speaks of is there.
    pub open spec fn phase_fits(self) -> bool {
        let enabled = self.cfg.verification.enable;
        match self.phase {
            Phase::Password | Phase::Unlock | Phase::Locks | Phase::PreListing
            | Phase::Init => self.old is None && self.new is None && self.manifest_a is None
                && self.failures == outcome::OutcomeView::none(),
            Phase::PreSample | Phase::PreRestore | Phase::PreManifest => enabled && self.old is Some
                && self.new is None,
            Phase::Backup | Phase::NewListing => self.new is None,
            Phase::Replica(i, sync) => i < self.cfg.replica_repos.len() && match sync {
                Sync::Copy { attempt, bootstrap } => 1 <= attempt <= COPY_ATTEMPTS && (bootstrap
                    || self.new is Some),
                Sync::Pause { attempt, bootstrap } | Sync::RetryUnlock { attempt, bootstrap } => 1
                    <= attempt < COPY_ATTEMPTS && (bootstrap || self.new is Some),
                _ => true,
            },
            Phase::PostListing | Phase::PostRestore | Phase::PostManifest => enabled
                && self.manifest_a is Some,
            Phase::NewSample | Phase::NewRestore | Phase::NewManifest => enabled && self.new is Some,
            Phase::CheckListing(i) | Phase::CheckRestore(i) | Phase::CheckManifest(i) => enabled
                && self.new is Some && self.manifest_b is Some && i < self.cfg.replica_repos.len(),
            _ => true,
        }
    }

    /// Whether the reply is one to what was asked for.
    pub open spec fn answers(self, reply: ReplyView) -> bool {
        match self.request() {
            RequestView::Password(_) => reply is Done || reply is Failed,
            RequestView::Capture { .. } => reply is Output || reply is Failed,
            RequestView::List { .. } => reply is Snapshots || reply is Failed,
            RequestView::Logged { .. } => reply is Done || reply is Failed,
            RequestView::Sample { .. } => reply is Sample || reply is Failed,
            RequestView::Restore { .. } => reply is Files || reply is Failed,
            RequestView::Manifest { .. } => reply is Done || reply is Failed,
            RequestView::Pause { .. } => reply is Done,
            RequestView::Finish => false,
            RequestView::Refuse(_) => false,
        }
    }

    /// Whether the reply can be gone on with: it is one to what was asked for,
    /// the snapshot that is selected has a short form, and the counts of
    /// failures, checks and files stay within their types.
    pub open spec fn accepts(self, reply: ReplyView, latest: Option<Seq<char>>) -> bool {
        &&& self.answers(reply)
        &&& self.failures.backup.len() + self.failures.recovery.len() + 2 <= usize::MAX
        &&& self.request() is Manifest ==> self.checks_ok < u32::MAX && self.files_verified
            + self.pending.len() <= u64::MAX
        &&& self.shows(reply, latest) ==> snapshot::can_shorten(latest->0)
    }

    /// Whether the short form of the latest snapshot is shown once this reply
    /// has come.
    pub open spec fn shows(self, reply: ReplyView, latest: Option<Seq<char>>) -> bool {
        &&& reply is Snapshots
        &&& latest is Some
        &&& match self.phase {
            Phase::PreListing => self.cfg.verification.enable,
            Phase::NewListing => latest != self.old,
            _ => false,
        }
    }
}

proof fn lemma_to_checks(s: RunView)
    requires
        s.sound(),
    ensures
        s.to_checks().wf(),
        s.to_checks().cfg == s.cfg,
{
}

proof fn lemma_to_new(s: RunView)
    requires
        s.sound(),
    ensures
        s.to_new().wf(),
        s.to_new().cfg == s.cfg,
{
    lemma_to_checks(s);
}

proof fn lemma_to_replica(s: RunView, i: int)
    requires
        s.sound(),
        0 <= i <= usize::MAX,
    ensures
        s.to_replica(i).wf(),
        s.to_replica(i).cfg == s.cfg,
{
    lemma_to_new(s);
}

proof fn lemma_fail(s: RunView, stage: Stage, detail: Seq<char>)
    ensures
        ({
            let t = s.fail(stage, detail);
            &&& t == (RunView { failures: t.failures, log: t.log, ..s })
            &&& t.failures.backup.len() + t.failures.recovery.len() == s.failures.backup.len()
                + s.failures.recovery.len() + 1
            &&& !outcome::tells_of_recovery(stage) ==> t.failures.recovery == s.failures.recovery
        }),
{
    outcome::law_every_stage_is_classified(stage, s.cfg.replica_repos);
}

proof fn lemma_valid_replica(s: RunView, i: usize, sync: Sync, reply: ReplyView)
    requires
        s.wf(),
        s.accepts(reply, None),
        s.phase == Phase::Replica(i, sync),
    ensures
        s.sync_step(i, sync, reply).wf(),
        s.sync_step(i, sync, reply).cfg == s.cfg,
{
    match sync {
        Sync::Listing => {
            let t = s.say("no new snapshot this run — nothing to copy to the replica"@);
            lemma_to_replica(t, i + 1);
        },
        Sync::Init => {
            let t = s.sync_step(i, sync, reply);
            if let ReplyView::Failed(e) = reply {
                let detail = restic::in_context(
                    "cannot reach or initialize replica "@ + s.cfg.replica_repos[i as int],
                    e,
                );
                lemma_fail(s, Stage::ReplicaSync(i), detail);
                lemma_to_replica(s.fail(Stage::ReplicaSync(i), detail), i + 1);
            }
        },
        Sync::Copy { attempt, bootstrap } => {
            if let ReplyView::Failed(e) = reply {
                lemma_fail(s, Stage::ReplicaSync(i), e);
                lemma_to_replica(s.fail(Stage::ReplicaSync(i), e), i + 1);
            }
        },
        Sync::Prune => {
            if let ReplyView::Failed(e) = reply {
                lemma_fail(s, Stage::ReplicaSync(i), e);
            }
            lemma_to_replica(s.fail_if(Stage::ReplicaSync(i), reply), i + 1);
        },
        _ => {},
    }
}

proof fn lemma_valid_before(s: RunView, reply: ReplyView, latest: Option<Seq<char>>)
    requires
        s.wf(),
        s.accepts(reply, latest),
        before_backup(s.phase),
    ensures
        s.step(reply, latest).wf(),
        s.step(reply, latest).cfg == s.cfg,
{
    match (s.phase, reply) {
        (Phase::PreSample, ReplyView::Failed(e)) => {
            lemma_fail(s, Stage::PreSample, e);
        },
        (Phase::PreRestore, ReplyView::Failed(e)) => {
            lemma_fail(s, Stage::PreRestore, e);
        },
        (Phase::PreManifest, ReplyView::Failed(e)) => {
            lemma_fail(s, Stage::PreManifest, e);
        },
        _ => {},
    }
}

proof fn lemma_valid_backup(s: RunView, reply: ReplyView, latest: Option<Seq<char>>)
    requires
        s.wf(),
        s.accepts(reply, latest),
        s.phase == Phase::Backup || s.phase == Phase::NewListing || s.phase == Phase::PruneUnlock
            || s.phase == Phase::Prune,
    ensures
        s.step(reply, latest).wf(),
        s.step(reply, latest).cfg == s.cfg,
{
    match (s.phase, reply) {
        (Phase::Backup, ReplyView::Failed(e)) => {
            lemma_fail(s, Stage::Backup, e);
        },
        (Phase::NewListing, ReplyView::Failed(e)) => {
            lemma_fail(s, Stage::Listing, e);
        },
        (Phase::NewListing, ReplyView::Snapshots(list)) => {
            if let Some(complaint) = backup_complaint(s.old, latest) {
                lemma_fail(s, Stage::Backup, complaint);
            }
        },
        (Phase::Prune, _) => {
            if let ReplyView::Failed(e) = reply {
                lemma_fail(s, Stage::Prune, e);
            }
            lemma_to_replica(s.fail_if(Stage::Prune, reply), 0);
        },
        _ => {},
    }
}

proof fn lemma_compared(s: RunView, expected: Seq<FileView>, stage: Stage, praise: Seq<char>)
    requires
        s.checks_ok < u32::MAX,
        s.files_verified + s.pending.len() <= u64::MAX,
    ensures
        ({
            let t = s.compare(expected, stage, praise);
            &&& t == (RunView {
                failures: t.failures,
                log: t.log,
                checks_ok: t.checks_ok,
                files_verified: t.files_verified,
                ..s
            })
            &&& t.failures.backup.len() + t.failures.recovery.len() <= s.failures.backup.len()
                + s.failures.recovery.len() + 1
        }),
{
    lemma_fail(s, stage, difference_text(compare::differences(expected, s.pending)));
}

proof fn lemma_valid_post(s: RunView, reply: ReplyView)
    requires
        s.wf(),
        s.accepts(reply, None),
        s.phase == Phase::PostListing || s.phase == Phase::PostRestore || s.phase
            == Phase::PostManifest,
    ensures
        s.step(reply, None).wf(),
        s.step(reply, None).cfg == s.cfg,
{
    if let ReplyView::Failed(e) = reply {
        lemma_fail(s, Stage::PostOriginal, e);
        lemma_fail(s, Stage::PostManifest, e);
    }
    if s.phase == Phase::PostManifest {
        let t = s.fail_if(Stage::PostManifest, reply);
        let praise = "original sample manifests match byte-for-byte"@;
        lemma_compared(t, s.manifest_a->0, Stage::PostOriginal, praise);
        lemma_to_new(t.compare(s.manifest_a->0, Stage::PostOriginal, praise));
    } else {
        lemma_to_new(s.fail_if(Stage::PostOriginal, reply));
        lemma_to_new(
            s.say(
                "old snapshot was removed by the retention policy — skipping original-sample comparison"@,
            ),
        );
    }
}

proof fn lemma_valid_new(s: RunView, reply: ReplyView)
    requires
        s.wf(),
        s.accepts(reply, None),
        s.phase == Phase::NewSample || s.phase == Phase::NewRestore || s.phase
            == Phase::NewManifest,
    ensures
        s.step(reply, None).wf(),
        s.step(reply, None).cfg == s.cfg,
{
    match s.phase {
        Phase::NewSample => {
            if let ReplyView::Failed(e) = reply {
                lemma_fail(s, Stage::NewSample, e);
                lemma_to_checks(s.fail(Stage::NewSample, e));
            }
            if let ReplyView::Sample(paths) = reply {
                lemma_to_checks(
                    RunView { sample_b: paths, ..s }.say(
                        "no eligible files outside the original sample — skipping new-snapshot restore test"@,
                    ),
                );
            }
        },
        Phase::NewRestore => {
            if let ReplyView::Failed(e) = reply {
                lemma_fail(s, Stage::NewRestore, e);
                lemma_to_checks(s.fail(Stage::NewRestore, e));
            }
        },
        _ => {
            if let ReplyView::Failed(e) = reply {
                lemma_fail(s, Stage::NewManifest, e);
            }
            lemma_to_checks(
                RunView {
                    manifest_b: Some(s.pending),
                    ..s.fail_if(Stage::NewManifest, reply).pass()
                },
            );
        },
    }
}

proof fn lemma_valid_check(s: RunView, i: usize, reply: ReplyView)
    requires
        s.wf(),
        s.accepts(reply, None),
        s.phase == Phase::CheckListing(i) || s.phase == Phase::CheckRestore(i) || s.phase
            == Phase::CheckManifest(i),
    ensures
        s.step(reply, None).wf(),
        s.step(reply, None).cfg == s.cfg,
{
    let stage = Stage::ReplicaRetrieval(i);
    if let ReplyView::Failed(e) = reply {
        lemma_fail(s, stage, e);
    }
    if s.phase == Phase::CheckManifest(i) {
        let t = s.fail_if(stage, reply);
        lemma_compared(
            t,
            s.manifest_b->0,
            stage,
            "replica sample matches the primary manifest"@,
        );
    } else {
        lemma_fail(s, stage, "replica has no copy of the new snapshot"@);
    }
}

/// A run stays in a state that a run can be in.
pub proof fn law_validity_is_kept(s: RunView, reply: ReplyView, latest: Option<Seq<char>>)
    requires
        s.wf(),
        s.accepts(reply, latest),
    ensures
        s.step(reply, latest).wf(),
        s.step(reply, latest).cfg == s.cfg,
{
    match s.phase {
        Phase::Backup | Phase::NewListing | Phase::PruneUnlock | Phase::Prune => {
            lemma_valid_backup(s, reply, latest);
        },
        Phase::Replica(i, sync) => {
            lemma_valid_replica(s, i, sync, reply);
        },
        Phase::PostListing | Phase::PostRestore | Phase::PostManifest => {
            lemma_valid_post(s, reply);
        },
        Phase::NewSample | Phase::NewRestore | Phase::NewManifest => {
            lemma_valid_new(s, reply);
        },
        Phase::CheckListing(i) | Phase::CheckRestore(i) | Phase::CheckManifest(i) => {
            lemma_valid_check(s, i, reply);
        },
        _ => {
            lemma_valid_before(s, reply, latest);
        },
    }
}

} // verus!
