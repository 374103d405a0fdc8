//! A run of the backup: it says what to do next, and is told what came of it.

use vstd::prelude::*;
use vstd::string::*;
use crate::compare;
use crate::config::Config;
use crate::config;
use crate::manifest::FileView;
use crate::manifest::RestoredFile;
use crate::manifest;
use crate::outcome::Outcome;
use crate::outcome::Stage;
use crate::outcome;
use crate::plan::Phase;
use crate::plan::Reply;
use crate::plan::Request;
use crate::plan::Sync;
use crate::plan::COPY_ATTEMPTS;
use crate::plan::COPY_PAUSE_SECS;
use crate::plan;
use crate::restic;
use crate::snapshot;
use crate::text;

verus! {

/// What an optional manifest holds.
pub open spec fn opt_files(o: Option<Vec<RestoredFile>>) -> Option<Seq<FileView>> {
    match o {
        Some(v) => Some(manifest::file_views(v@)),
        None => None,
    }
}

/// Whether two optional texts are the same.
fn same_opt(a: &Option<String>, b: &Option<String>) -> (r: bool)
    ensures
        r == (text::opt_text(*a) == text::opt_text(*b)),
{
    match (a, b) {
        (Some(x), Some(y)) => text::same_text(x.as_str(), y.as_str()),
        (None, None) => true,
        _ => false,
    }
}

/// A run of the backup.
pub struct Run {
    cfg: Config,
    phase: Phase,
    old: Option<String>,
    new: Option<String>,
    backup_ok: bool,
    sample_a: Vec<String>,
    manifest_a: Option<Vec<RestoredFile>>,
    sample_b: Vec<String>,
    manifest_b: Option<Vec<RestoredFile>>,
    pending: Vec<RestoredFile>,
    target: String,
    failures: Outcome,
    checks_ok: u32,
    files_verified: u64,
    refusal: String,
    log: Vec<String>,
}

impl View for Run {
    type V = plan::RunView;

    closed spec fn view(&self) -> plan::RunView {
        plan::RunView {
            cfg: self.cfg@,
            phase: self.phase,
            old: text::opt_text(self.old),
            new: text::opt_text(self.new),
            backup_ok: self.backup_ok,
            sample_a: text::texts(self.sample_a@),
            manifest_a: opt_files(self.manifest_a),
            sample_b: text::texts(self.sample_b@),
            manifest_b: opt_files(self.manifest_b),
            pending: manifest::file_views(self.pending@),
            target: self.target@,
            failures: self.failures@,
            checks_ok: self.checks_ok,
            files_verified: self.files_verified,
            refusal: self.refusal@,
            log: text::texts(self.log@),
        }
    }
}

impl Run {
    /// A run with the given settings, before its first request.
    pub fn new(cfg: Config) -> (r: Run)
        ensures
            r@ == plan::RunView::initial(cfg@),
            r@.wf(),
    {
        let r = Run {
            cfg,
            phase: Phase::Password,
            old: None,
            new: None,
            backup_ok: false,
            sample_a: Vec::new(),
            manifest_a: None,
            sample_b: Vec::new(),
            manifest_b: None,
            pending: Vec::new(),
            target: String::new(),
            failures: Outcome::default(),
            checks_ok: 0,
            files_verified: 0,
            refusal: String::new(),
            log: Vec::new(),
        };
        assert(r@.cfg.replica_repos.len() == r.cfg.replica_repos.len());
        assert(r@.sample_a =~= Seq::<Seq<char>>::empty());
        assert(r@.sample_b =~= Seq::<Seq<char>>::empty());
        assert(r@.log =~= Seq::<Seq<char>>::empty());
        assert(r@.pending =~= Seq::<FileView>::empty());
        assert(r@.target =~= Seq::<char>::empty());
        assert(r@.refusal =~= Seq::<char>::empty());
        r
    }

    /// The settings of the run.
    pub fn config(&self) -> (cfg: &Config)
        ensures
            cfg@ == self@.cfg,
    {
        &self.cfg
    }

    /// The phase that the run is in.
    pub fn phase(&self) -> (p: Phase)
        ensures
            p == self@.phase,
    {
        self.phase
    }

    /// The failures so far.
    pub fn failures(&self) -> (out: &Outcome)
        ensures
            out@ == self@.failures,
    {
        &self.failures
    }

    /// How many retrieval checks passed.
    pub fn checks_ok(&self) -> (n: u32)
        ensures
            n == self@.checks_ok,
    {
        self.checks_ok
    }

    /// How many files the checks that passed compared.
    pub fn files_verified(&self) -> (n: u64)
        ensures
            n == self@.files_verified,
    {
        self.files_verified
    }

    /// The short form of the snapshot that the backup wrote, if it wrote one.
    pub fn new_snapshot(&self) -> (r: Option<String>)
        requires
            self@.wf(),
        ensures
            text::opt_text(r) == match self@.new {
                Some(id) => Some(snapshot::shortened(id)),
                None => None,
            },
    {
        match &self.new {
            Some(id) => Some(snapshot::short_id(id.as_str()).to_owned()),
            None => None,
        }
    }

    /// Hands out the lines for the log.
    pub fn take_log(&mut self) -> (lines: Vec<String>)
        ensures
            text::texts(lines@) == old(self)@.log,
            final(self)@ == (plan::RunView { log: Seq::empty(), ..old(self)@ }),
    {
        let mut lines: Vec<String> = Vec::new();
        lines.append(&mut self.log);
        assert(lines@ =~= old(self).log@);
        assert(self@.log =~= Seq::<Seq<char>>::empty());
        lines
    }

    // -----------------------------------------------------------------------
    // Small steps

    fn say(&mut self, line: String)
        ensures
            final(self)@ == old(self)@.say(line@),
    {
        broadcast use text::lemma_texts_push;

        self.log.push(line);
    }

    fn fail(&mut self, stage: Stage, detail: &str)
        requires
            outcome::stage_fits(stage, old(self)@.cfg.replica_repos.len()),
        ensures
            final(self)@ == old(self)@.fail(stage, detail@),
    {
        let name: String = outcome::stage_name(stage, self.cfg.replica_repos.as_slice());
        let msg: String = outcome::record(&mut self.failures, name.as_str(), detail);
        self.say(msg);
    }

    fn fail_if(&mut self, stage: Stage, reply: &Reply)
        requires
            outcome::stage_fits(stage, old(self)@.cfg.replica_repos.len()),
        ensures
            final(self)@ == old(self)@.fail_if(stage, reply@),
    {
        match reply {
            Reply::Failed(e) => {
                self.fail(stage, e.as_str());
            },
            _ => {},
        }
    }

    fn pass(&mut self)
        requires
            old(self)@.checks_ok < u32::MAX,
            old(self)@.files_verified + old(self)@.pending.len() <= u64::MAX,
        ensures
            final(self)@ == old(self)@.pass(),
    {
        self.checks_ok = self.checks_ok + 1;
        self.files_verified = self.files_verified + self.pending.len() as u64;
    }

    /// Goes on from the differences between what was restored last and what
    /// it has to be.
    fn judge(&mut self, diffs: Vec<String>, stage: Stage, praise: &str)
        requires
            outcome::stage_fits(stage, old(self)@.cfg.replica_repos.len()),
            old(self)@.checks_ok < u32::MAX,
            old(self)@.files_verified + old(self)@.pending.len() <= u64::MAX,
        ensures
            final(self)@ == if diffs@.len() == 0 {
                old(self)@.pass().say(praise@)
            } else {
                old(self)@.fail(stage, plan::difference_text(text::texts(diffs@)))
            },
    {
        if diffs.len() == 0 {
            self.pass();
            self.say(praise.to_owned());
        } else {
            let mut detail: String = text::decimal_text(diffs.len() as u64);
            detail.append(" difference(s): ");
            detail.append(manifest::show_ten(diffs.as_slice()).as_str());
            assert(text::texts(diffs@).len() == diffs@.len());
            self.fail(stage, detail.as_str());
        }
    }

    fn refuse(&mut self, message: String)
        ensures
            final(self)@ == old(self)@.refuse(message@),
    {
        self.refusal = message;
        self.phase = Phase::Refused;
    }

    // -----------------------------------------------------------------------
    // Going on to the next part of the run

    fn with_old(&mut self, old_id: Option<String>)
        requires
            old_id is Some && old(self)@.cfg.verification.enable ==> snapshot::can_shorten(
                old_id->0@,
            ),
        ensures
            final(self)@ == old(self)@.with_old(text::opt_text(old_id)),
    {
        let shown: Option<String> = if self.cfg.verification.enable {
            match &old_id {
                Some(id) => Some(snapshot::short_id(id.as_str()).to_owned()),
                None => None,
            }
        } else {
            None
        };
        self.old = old_id;
        if !self.cfg.verification.enable {
            self.to_backup();
            return;
        }
        match shown {
            None => {
                self.say(
                    "no previous home snapshot — skipping pre-backup retrieval test".to_owned(),
                );
                self.to_backup();
            },
            Some(short) => {
                let mut line = "--- pre-backup retrieval test (snapshot ".to_owned();
                line.append(short.as_str());
                line.append(") ---");
                self.say(line);
                self.phase = Phase::PreSample;
            },
        }
    }

    fn to_backup(&mut self)
        ensures
            final(self)@ == old(self)@.to_backup(),
    {
        self.say("--- backup ---".to_owned());
        self.phase = Phase::Backup;
    }

    fn with_latest(&mut self, latest: Option<String>)
        requires
            latest is Some && text::opt_text(latest) != old(self)@.old ==> snapshot::can_shorten(
                latest->0@,
            ),
        ensures
            final(self)@ == old(self)@.with_latest(text::opt_text(latest)),
    {
        if latest.is_none() {
            if self.backup_ok {
                self.fail(Stage::Backup, "no home snapshot found after backup");
            }
            self.with_new(None);
        } else if same_opt(&latest, &self.old) {
            if self.backup_ok {
                self.fail(Stage::Backup, "backup reported success but produced no new snapshot");
            }
            self.with_new(None);
        } else {
            self.with_new(latest);
        }
    }

    fn with_new(&mut self, new: Option<String>)
        requires
            new is Some ==> snapshot::can_shorten(new->0@),
        ensures
            final(self)@ == old(self)@.with_new(text::opt_text(new)),
    {
        match &new {
            Some(id) => {
                let mut line = "new snapshot: ".to_owned();
                line.append(snapshot::short_id(id.as_str()));
                self.say(line);
            },
            None => {},
        }
        self.new = new;
        self.say("--- retention (primary) ---".to_owned());
        self.phase = Phase::PruneUnlock;
    }

    fn to_replica(&mut self, i: usize)
        requires
            old(self)@.shows_ids(),
        ensures
            final(self)@ == old(self)@.to_replica(i as int),
    {
        if i < self.cfg.replica_repos.len() {
            let mut line = "--- replica sync: ".to_owned();
            line.append(self.cfg.replica_repos[i].as_str());
            line.append(" ---");
            self.say(line);
            self.phase = Phase::Replica(i, Sync::Unlock);
        } else {
            self.to_post();
        }
    }

    fn to_copy(&mut self, i: usize, has_home: bool)
        requires
            old(self)@.shows_ids(),
            i < old(self)@.cfg.replica_repos.len(),
        ensures
            final(self)@ == old(self)@.to_copy(i, has_home),
    {
        if !has_home {
            self.say("bootstrapping replica with all retained home snapshots".to_owned());
            self.phase = Phase::Replica(i, Sync::Copy { attempt: 1, bootstrap: true });
        } else if self.new.is_some() {
            self.phase = Phase::Replica(i, Sync::Copy { attempt: 1, bootstrap: false });
        } else {
            self.say("no new snapshot this run — nothing to copy to the replica".to_owned());
            assert(i < self.cfg.replica_repos.len());
            self.to_replica(i + 1);
        }
    }

    fn to_post(&mut self)
        requires
            old(self)@.shows_ids(),
        ensures
            final(self)@ == old(self)@.to_post(),
    {
        if self.manifest_a.is_some() {
            match &self.old {
                Some(id) => {
                    let mut line =
                        "--- post-backup retrieval test: original sample, snapshot ".to_owned();
                    line.append(snapshot::short_id(id.as_str()));
                    line.append(" ---");
                    self.say(line);
                    self.phase = Phase::PostListing;
                },
                None => {
                    self.to_new();
                },
            }
        } else {
            self.to_new();
        }
    }

    fn to_new(&mut self)
        requires
            old(self)@.shows_ids(),
        ensures
            final(self)@ == old(self)@.to_new(),
    {
        if self.cfg.verification.enable {
            match &self.new {
                Some(id) => {
                    let mut line =
                        "--- post-backup retrieval test: fresh sample from new snapshot ".to_owned();
                    line.append(snapshot::short_id(id.as_str()));
                    line.append(" ---");
                    self.say(line);
                    self.phase = Phase::NewSample;
                },
                None => {
                    self.to_checks();
                },
            }
        } else {
            self.to_checks();
        }
    }

    fn to_checks(&mut self)
        ensures
            final(self)@ == old(self)@.to_checks(),
    {
        if self.cfg.verification.enable {
            if self.new.is_some() && self.manifest_b.is_some() {
                self.to_check(0);
            } else if self.cfg.replica_repos.len() > 0 {
                self.say(
                    "skipping replica retrieval tests — no new snapshot or no fresh sample this run".to_owned(),
                );
                self.phase = Phase::Finished;
            } else {
                self.phase = Phase::Finished;
            }
        } else {
            self.phase = Phase::Finished;
        }
    }

    fn to_check(&mut self, i: usize)
        ensures
            final(self)@ == old(self)@.to_check(i as int),
    {
        if i < self.cfg.replica_repos.len() {
            let mut line = "--- replica retrieval test: ".to_owned();
            line.append(self.cfg.replica_repos[i].as_str());
            line.append(" ---");
            self.say(line);
            self.phase = Phase::CheckListing(i);
        } else {
            self.phase = Phase::Finished;
        }
    }

    // -----------------------------------------------------------------------
    // What is made of a reply

    fn advance_replica(&mut self, i: usize, sync: Sync, reply: Reply)
        requires
            old(self)@.wf(),
            old(self)@.phase == Phase::Replica(i, sync),
        ensures
            final(self)@ == old(self)@.sync_step(i, sync, reply@),
    {
        assert(i < self.cfg.replica_repos.len());
        assert(self@.cfg.replica_repos[i as int] == self.cfg.replica_repos@[i as int]@);
        match sync {
            Sync::Unlock => {
                self.phase = Phase::Replica(i, Sync::Listing);
            },
            Sync::Listing => match reply {
                Reply::Snapshots(list) => {
                    let has_home: bool = snapshot::any_of_home(
                        list.as_slice(),
                        self.cfg.home.as_str(),
                    );
                    self.to_copy(i, has_home);
                },
                _ => {
                    let mut line = "initializing replica repository ".to_owned();
                    line.append(self.cfg.replica_repos[i].as_str());
                    line.append(" (chunker params copied from primary)");
                    self.say(line);
                    self.phase = Phase::Replica(i, Sync::Init);
                },
            },
            Sync::Init => match reply {
                Reply::Failed(e) => {
                    let mut context = "cannot reach or initialize replica ".to_owned();
                    context.append(self.cfg.replica_repos[i].as_str());
                    let detail: String = restic::with_context(context.as_str(), e.as_str());
                    self.fail(Stage::ReplicaSync(i), detail.as_str());
                    self.to_replica(i + 1);
                },
                _ => {
                    self.to_copy(i, false);
                },
            },
            Sync::Copy { attempt, bootstrap } => match reply {
                Reply::Failed(e) => {
                    if attempt < COPY_ATTEMPTS {
                        let mut line = "replica copy attempt ".to_owned();
                        text::push_decimal(&mut line, attempt as u64);
                        line.append("/");
                        text::push_decimal(&mut line, COPY_ATTEMPTS as u64);
                        line.append(" failed (");
                        line.append(e.as_str());
                        line.append(
                            "); retrying in 60s — already-copied data is skipped on resume",
                        );
                        self.say(line);
                        self.phase = Phase::Replica(i, Sync::Pause { attempt, bootstrap });
                    } else {
                        self.fail(Stage::ReplicaSync(i), e.as_str());
                        self.to_replica(i + 1);
                    }
                },
                _ => {
                    self.phase = Phase::Replica(i, Sync::PruneUnlock);
                },
            },
            Sync::Pause { attempt, bootstrap } => {
                self.phase = Phase::Replica(i, Sync::RetryUnlock { attempt, bootstrap });
            },
            Sync::RetryUnlock { attempt, bootstrap } => {
                self.phase = Phase::Replica(i, Sync::Copy { attempt: attempt + 1, bootstrap });
            },
            Sync::PruneUnlock => {
                self.phase = Phase::Replica(i, Sync::Prune);
            },
            Sync::Prune => {
                self.fail_if(Stage::ReplicaSync(i), &reply);
                self.to_replica(i + 1);
            },
        }
    }

    fn advance_check(&mut self, i: usize, reply: Reply)
        requires
            old(self)@.wf(),
            old(self)@.accepts(reply@, None),
            old(self)@.phase == Phase::CheckListing(i) || old(self)@.phase == Phase::CheckRestore(i)
                || old(self)@.phase == Phase::CheckManifest(i),
        ensures
            final(self)@ == old(self)@.check_step(i, reply@),
    {
        assert(i < self.cfg.replica_repos.len());
        let stage: Stage = Stage::ReplicaRetrieval(i);
        match self.phase {
            Phase::CheckManifest(_) => {
                self.fail_if(stage, &reply);
                match &self.manifest_b {
                    Some(expected) => {
                        let diffs: Vec<String> = compare::manifest_diff(
                            expected.as_slice(),
                            self.pending.as_slice(),
                        );
                        assert(text::texts(diffs@).len() == diffs@.len());
                        self.judge(diffs, stage, "replica sample matches the primary manifest");
                    },
                    None => {},
                }
                self.to_check(i + 1);
            },
            _ => match reply {
                Reply::Snapshots(list) => {
                    let found: Option<String> = match &self.new {
                        Some(id) => match snapshot::resolve_copied_snapshot(
                            list.as_slice(),
                            id.as_str(),
                        ) {
                            Some(copy) => Some(copy.id.clone()),
                            None => None,
                        },
                        None => None,
                    };
                    match found {
                        Some(id) => {
                            self.target = id;
                            self.phase = Phase::CheckRestore(i);
                        },
                        None => {
                            self.fail(stage, "replica has no copy of the new snapshot");
                            self.to_check(i + 1);
                        },
                    }
                },
                Reply::Files(m) => {
                    self.pending = m;
                    self.phase = Phase::CheckManifest(i);
                },
                _ => {
                    self.fail_if(stage, &reply);
                    self.to_check(i + 1);
                },
            },
        }
    }

    /// Goes on before the backup.
    fn advance_before(&mut self, reply: Reply, latest: Option<String>)
        requires
            old(self)@.wf(),
            old(self)@.accepts(reply@, text::opt_text(latest)),
            plan::before_backup(old(self)@.phase),
        ensures
            final(self)@ == old(self)@.step(reply@, text::opt_text(latest)),
    {
        match self.phase {
            Phase::Password => match reply {
                Reply::Failed(e) => {
                    self.refuse(
                        restic::with_context(
                            "cannot resolve restic password via configured passwordCommand",
                            e.as_str(),
                        ),
                    );
                },
                _ => {
                    self.phase = Phase::Unlock;
                },
            },
            Phase::Unlock => {
                self.phase = Phase::Locks;
            },
            Phase::Locks => {
                let locked: bool = match &reply {
                    Reply::Output(listing) => restic::listing_shows_lock(listing.as_str()),
                    _ => false,
                };
                if locked {
                    self.refuse(
                        "restic repo is locked — another backup is still running".to_owned(),
                    );
                } else {
                    self.phase = Phase::PreListing;
                }
            },
            Phase::PreListing => match reply {
                Reply::Snapshots(_) => {
                    self.with_old(latest);
                },
                _ => {
                    self.say("Initializing restic repository...".to_owned());
                    self.phase = Phase::Init;
                },
            },
            Phase::Init => match reply {
                Reply::Failed(e) => {
                    self.refuse(
                        restic::with_context(
                            "cannot reach or initialize the primary repository",
                            e.as_str(),
                        ),
                    );
                },
                _ => {
                    self.with_old(None);
                },
            },
            Phase::PreSample => match reply {
                Reply::Sample(paths) => {
                    self.sample_a = paths;
                    self.phase = Phase::PreRestore;
                },
                _ => {
                    self.fail_if(Stage::PreSample, &reply);
                    self.to_backup();
                },
            },
            Phase::PreRestore => match reply {
                Reply::Files(m) => {
                    self.pending = m;
                    self.phase = Phase::PreManifest;
                },
                _ => {
                    self.fail_if(Stage::PreRestore, &reply);
                    self.to_backup();
                },
            },
            _ => {
                self.fail_if(Stage::PreManifest, &reply);
                self.pass();
                self.manifest_a = Some(manifest::copy_files(self.pending.as_slice()));
                self.to_backup();
            },
        }
    }

    /// Goes on from the backup.
    fn advance_after(&mut self, reply: Reply, latest: Option<String>)
        requires
            old(self)@.wf(),
            old(self)@.accepts(reply@, text::opt_text(latest)),
            !plan::before_backup(old(self)@.phase),
        ensures
            final(self)@ == old(self)@.step(reply@, text::opt_text(latest)),
    {
        match self.phase {
            Phase::Backup => {
                let ok: bool = match &reply {
                    Reply::Failed(_) => false,
                    _ => true,
                };
                self.fail_if(Stage::Backup, &reply);
                self.backup_ok = ok;
                self.phase = Phase::NewListing;
            },
            Phase::NewListing => match reply {
                Reply::Snapshots(_) => {
                    self.with_latest(latest);
                },
                _ => {
                    self.fail_if(Stage::Listing, &reply);
                    self.with_new(None);
                },
            },
            Phase::PruneUnlock => {
                self.phase = Phase::Prune;
            },
            Phase::Prune => {
                self.fail_if(Stage::Prune, &reply);
                self.to_replica(0);
            },
            Phase::Replica(i, sync) => {
                self.advance_replica(i, sync, reply);
            },
            Phase::PostListing => match reply {
                Reply::Snapshots(list) => {
                    let listed: bool = match &self.old {
                        Some(id) => snapshot::holds_id(list.as_slice(), id.as_str()),
                        None => false,
                    };
                    if listed {
                        self.phase = Phase::PostRestore;
                    } else {
                        self.say(
                            "old snapshot was removed by the retention policy — skipping original-sample comparison".to_owned(),
                        );
                        self.to_new();
                    }
                },
                _ => {
                    self.fail_if(Stage::PostOriginal, &reply);
                    self.to_new();
                },
            },
            Phase::PostRestore => match reply {
                Reply::Files(m) => {
                    self.pending = m;
                    self.phase = Phase::PostManifest;
                },
                _ => {
                    self.fail_if(Stage::PostOriginal, &reply);
                    self.to_new();
                },
            },
            Phase::PostManifest => {
                self.fail_if(Stage::PostManifest, &reply);
                match &self.manifest_a {
                    Some(expected) => {
                        let diffs: Vec<String> = compare::manifest_diff(
                            expected.as_slice(),
                            self.pending.as_slice(),
                        );
                        assert(text::texts(diffs@).len() == diffs@.len());
                        self.judge(
                            diffs,
                            Stage::PostOriginal,
                            "original sample manifests match byte-for-byte",
                        );
                    },
                    None => {},
                }
                self.to_new();
            },
            Phase::NewSample => match reply {
                Reply::Sample(paths) => {
                    let nothing: bool = paths.len() == 0;
                    assert(text::texts(paths@).len() == paths@.len());
                    self.sample_b = paths;
                    if nothing {
                        self.say(
                            "no eligible files outside the original sample — skipping new-snapshot restore test".to_owned(),
                        );
                        self.to_checks();
                    } else {
                        self.phase = Phase::NewRestore;
                    }
                },
                _ => {
                    self.fail_if(Stage::NewSample, &reply);
                    self.to_checks();
                },
            },
            Phase::NewRestore => match reply {
                Reply::Files(m) => {
                    self.pending = m;
                    self.phase = Phase::NewManifest;
                },
                _ => {
                    self.fail_if(Stage::NewRestore, &reply);
                    self.to_checks();
                },
            },
            Phase::NewManifest => {
                self.fail_if(Stage::NewManifest, &reply);
                self.pass();
                self.manifest_b = Some(manifest::copy_files(self.pending.as_slice()));
                self.to_checks();
            },
            Phase::CheckListing(i) => {
                self.advance_check(i, reply);
            },
            Phase::CheckRestore(i) => {
                self.advance_check(i, reply);
            },
            Phase::CheckManifest(i) => {
                self.advance_check(i, reply);
            },
            _ => {},
        }
    }

    /// Whether the reply is one to what was asked for.
    fn is_answer(&self, reply: &Reply) -> (r: bool)
        ensures
            r == self@.answers(reply@),
    {
        match self.phase {
            Phase::Finished | Phase::Refused => false,
            Phase::Unlock | Phase::Locks | Phase::PruneUnlock => matches!(
                reply,
                Reply::Output(_) | Reply::Failed(_)
            ),
            Phase::PreListing | Phase::NewListing | Phase::PostListing
            | Phase::CheckListing(_) => matches!(reply, Reply::Snapshots(_) | Reply::Failed(_)),
            Phase::PreSample | Phase::NewSample => matches!(
                reply,
                Reply::Sample(_) | Reply::Failed(_)
            ),
            Phase::PreRestore | Phase::PostRestore | Phase::NewRestore
            | Phase::CheckRestore(_) => matches!(reply, Reply::Files(_) | Reply::Failed(_)),
            Phase::Replica(_, sync) => match sync {
                Sync::Unlock | Sync::RetryUnlock { .. } | Sync::PruneUnlock => matches!(
                    reply,
                    Reply::Output(_) | Reply::Failed(_)
                ),
                Sync::Listing => matches!(reply, Reply::Snapshots(_) | Reply::Failed(_)),
                Sync::Pause { .. } => matches!(reply, Reply::Done),
                Sync::Init | Sync::Copy { .. } | Sync::Prune => matches!(
                    reply,
                    Reply::Done | Reply::Failed(_)
                ),
            },
            _ => matches!(reply, Reply::Done | Reply::Failed(_)),
        }
    }

    /// Whether the reply can be gone on with.
    fn can_accept(&self, reply: &Reply, latest: &Option<String>) -> (r: bool)
        ensures
            r == self@.accepts(reply@, text::opt_text(*latest)),
    {
        if !self.is_answer(reply) {
            return false;
        }
        let backup: usize = self.failures.backup.len();
        let recovery: usize = self.failures.recovery.len();
        if backup > usize::MAX - 2 || recovery > usize::MAX - 2 - backup {
            return false;
        }
        let writes: bool = match self.phase {
            Phase::PreManifest | Phase::PostManifest | Phase::NewManifest
            | Phase::CheckManifest(_) => true,
            _ => false,
        };
        if writes && (self.checks_ok == u32::MAX || self.pending.len() as u64 > u64::MAX
            - self.files_verified) {
            return false;
        }
        match (reply, latest) {
            (Reply::Snapshots(_), Some(id)) => {
                let shown: bool = match self.phase {
                    Phase::PreListing => self.cfg.verification.enable,
                    Phase::NewListing => !same_opt(latest, &self.old),
                    _ => false,
                };
                !shown || snapshot::has_short_form(id.as_str())
            },
            _ => true,
        }
    }

    /// Tells the run what came of its request, where `latest` is the latest
    /// snapshot of the home directory that the reply lists. A reply that
    /// cannot be gone on with changes nothing.
    pub fn offer_selected(&mut self, reply: Reply, latest: Option<String>) -> (accepted: bool)
        requires
            old(self)@.wf(),
        ensures
            final(self)@.wf(),
            final(self)@.cfg == old(self)@.cfg,
            accepted == old(self)@.accepts(reply@, text::opt_text(latest)),
            final(self)@ == if accepted {
                old(self)@.step(reply@, text::opt_text(latest))
            } else {
                old(self)@
            },
    {
        if !self.can_accept(&reply, &latest) {
            return false;
        }
        proof {
            plan::law_validity_is_kept(self@, reply@, text::opt_text(latest));
        }
        match self.phase {
            Phase::Password | Phase::Unlock | Phase::Locks | Phase::PreListing | Phase::Init
            | Phase::PreSample | Phase::PreRestore | Phase::PreManifest => {
                self.advance_before(reply, latest);
            },
            _ => {
                self.advance_after(reply, latest);
            },
        }
        true
    }

    /// Tells the run what came of its request. A reply that cannot be gone on
    /// with changes nothing.
    pub fn offer(&mut self, reply: Reply) -> (accepted: bool)
        requires
            old(self)@.wf(),
        ensures
            final(self)@.wf(),
            final(self)@.cfg == old(self)@.cfg,
            accepted == old(self)@.accepts(reply@, old(self)@.latest_in(reply@)),
            final(self)@ == if accepted {
                old(self)@.step(reply@, old(self)@.latest_in(reply@))
            } else {
                old(self)@
            },
    {
        let latest: Option<String> = match &reply {
            Reply::Snapshots(list) => match snapshot::latest_home_snapshot(
                list.as_slice(),
                self.cfg.home.as_str(),
            ) {
                Some(s) => Some(s.id),
                None => None,
            },
            _ => None,
        };
        self.offer_selected(reply, latest)
    }

    // -----------------------------------------------------------------------
    // What is asked for

    fn replica_request(&self, i: usize, sync: Sync) -> (r: Request)
        requires
            self@.wf(),
            self@.phase == Phase::Replica(i, sync),
        ensures
            r@ == self@.sync_request(i, sync),
    {
        assert(i < self.cfg.replica_repos.len());
        assert(self@.cfg.replica_repos[i as int] == self.cfg.replica_repos@[i as int]@);
        let repo: String = self.cfg.replica_repos[i].clone();
        match sync {
            Sync::Unlock | Sync::RetryUnlock { .. } | Sync::PruneUnlock => Request::Capture {
                repo,
                args: restic::unlock_args(),
            },
            Sync::Listing => Request::List { repo, args: restic::snapshots_args() },
            Sync::Init => Request::Logged { repo, args: restic::replica_init_args(&self.cfg) },
            Sync::Copy { bootstrap, .. } => {
                let id: Option<&String> = if bootstrap {
                    None
                } else {
                    self.new.as_ref()
                };
                Request::Logged { repo, args: restic::copy_args(&self.cfg, id) }
            },
            Sync::Pause { .. } => Request::Pause { secs: COPY_PAUSE_SECS },
            Sync::Prune => Request::Logged {
                repo,
                args: restic::forget_args(&self.cfg.retention),
            },
        }
    }

    /// What the run asks for next.
    pub fn request(&self) -> (r: Request)
        requires
            self@.wf(),
        ensures
            r@ == self@.request(),
    {
        let repo: String = self.cfg.repo.clone();
        let size: usize = self.cfg.verification.sample_size;
        let old_id: String = match &self.old {
            Some(id) => id.clone(),
            None => String::new(),
        };
        let new_id: String = match &self.new {
            Some(id) => id.clone(),
            None => String::new(),
        };
        match self.phase {
            Phase::Password => Request::Password(self.cfg.password_command.clone()),
            Phase::Unlock | Phase::PruneUnlock => Request::Capture {
                repo,
                args: restic::unlock_args(),
            },
            Phase::Locks => Request::Capture { repo, args: restic::locks_args() },
            Phase::PreListing | Phase::NewListing | Phase::PostListing => Request::List {
                repo,
                args: restic::snapshots_args(),
            },
            Phase::Init => Request::Logged { repo, args: restic::init_args() },
            Phase::PreSample => {
                let args: Vec<String> = restic::ls_args(old_id.as_str());
                let without: Vec<String> = Vec::new();
                assert(text::texts(without@) =~= Seq::<Seq<char>>::empty());
                Request::Sample { repo, snapshot_id: old_id, args, size, without }
            },
            Phase::PreRestore => Request::Restore {
                repo,
                snapshot_id: old_id,
                paths: text::copy_texts(self.sample_a.as_slice()),
                label: "pre-backup".to_owned(),
            },
            Phase::PreManifest => Request::Manifest {
                name: "pre-old-snapshot".to_owned(),
                files: manifest::copy_files(self.pending.as_slice()),
            },
            Phase::Backup => Request::Logged { repo, args: restic::backup_args(&self.cfg) },
            Phase::Prune => Request::Logged {
                repo,
                args: restic::forget_args(&self.cfg.retention),
            },
            Phase::Replica(i, sync) => self.replica_request(i, sync),
            Phase::PostRestore => Request::Restore {
                repo,
                snapshot_id: old_id,
                paths: text::copy_texts(self.sample_a.as_slice()),
                label: "post-backup original sample".to_owned(),
            },
            Phase::PostManifest => Request::Manifest {
                name: "post-old-snapshot".to_owned(),
                files: manifest::copy_files(self.pending.as_slice()),
            },
            Phase::NewSample => {
                let args: Vec<String> = restic::ls_args(new_id.as_str());
                Request::Sample {
                    repo,
                    snapshot_id: new_id,
                    args,
                    size,
                    without: text::copy_texts(self.sample_a.as_slice()),
                }
            },
            Phase::NewRestore => Request::Restore {
                repo,
                snapshot_id: new_id,
                paths: text::copy_texts(self.sample_b.as_slice()),
                label: "new-snapshot sample".to_owned(),
            },
            Phase::NewManifest => Request::Manifest {
                name: "post-new-snapshot".to_owned(),
                files: manifest::copy_files(self.pending.as_slice()),
            },
            Phase::CheckListing(i) => {
                assert(self@.cfg.replica_repos[i as int] == self.cfg.replica_repos@[i as int]@);
                Request::List {
                    repo: self.cfg.replica_repos[i].clone(),
                    args: restic::snapshots_args(),
                }
            },
            Phase::CheckRestore(i) => {
                assert(self@.cfg.replica_repos[i as int] == self.cfg.replica_repos@[i as int]@);
                Request::Restore {
                    repo: self.cfg.replica_repos[i].clone(),
                    snapshot_id: self.target.clone(),
                    paths: text::copy_texts(self.sample_b.as_slice()),
                    label: outcome::stage_name(
                        Stage::ReplicaRetrieval(i),
                        self.cfg.replica_repos.as_slice(),
                    ),
                }
            },
            Phase::CheckManifest(i) => {
                assert(i < self.cfg.replica_repos.len());
                let mut name = "replica-".to_owned();
                text::push_decimal(&mut name, (i + 1) as u64);
                Request::Manifest {
                    name,
                    files: manifest::copy_files(self.pending.as_slice()),
                }
            },
            Phase::Finished => Request::Finish,
            Phase::Refused => Request::Refuse(self.refusal.clone()),
        }
    }
}

} // verus!
