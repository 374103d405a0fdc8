//! The status document: what a monitor is told of the last run, and of the
//! last run that worked.

use vstd::prelude::*;
use vstd::string::*;
use crate::outcome::Outcome;
use crate::outcome;
use crate::text;

verus! {

/// A point in time, as it is written and as seconds since the epoch.
#[derive(Debug)]
pub struct Moment {
    pub text: String,
    pub unix: i64,
}

/// One half of the outcome of a run. The backup half answers whether the data
/// was stored, the recovery half whether it can be got back.
#[derive(Debug)]
pub struct HalfStatus {
    /// `running`, `ok`, `failed`, `untested` or `disabled`.
    pub status: String,
    /// When this half last succeeded, kept over runs in which it did not.
    pub last_ok_at: Option<String>,
    pub last_ok_unix: Option<i64>,
    /// The newest snapshot written (backup half only).
    pub snapshot: Option<String>,
    /// The checks of this run that passed and failed (recovery half only).
    pub checks_ok: u32,
    pub checks_failed: u32,
    /// How many files were read back and compared (recovery half only).
    pub files_verified: u64,
    pub failures: Vec<String>,
}

/// What a [`HalfStatus`] holds.
pub struct HalfView {
    pub status: Seq<char>,
    pub last_ok_at: Option<Seq<char>>,
    pub last_ok_unix: Option<i64>,
    pub snapshot: Option<Seq<char>>,
    pub checks_ok: u32,
    pub checks_failed: u32,
    pub files_verified: u64,
    pub failures: Seq<Seq<char>>,
}

impl View for HalfStatus {
    type V = HalfView;

    open spec fn view(&self) -> HalfView {
        HalfView {
            status: self.status@,
            last_ok_at: text::opt_text(self.last_ok_at),
            last_ok_unix: self.last_ok_unix,
            snapshot: text::opt_text(self.snapshot),
            checks_ok: self.checks_ok,
            checks_failed: self.checks_failed,
            files_verified: self.files_verified,
            failures: text::texts(self.failures@),
        }
    }
}

impl HalfView {
    /// A half that nothing is known of.
    pub open spec fn blank() -> HalfView {
        HalfView {
            status: seq![],
            last_ok_at: None,
            last_ok_unix: None,
            snapshot: None,
            checks_ok: 0,
            checks_failed: 0,
            files_verified: 0,
            failures: seq![],
        }
    }

    /// A half of a run that has begun, after `previous`.
    pub open spec fn begun(previous: Option<HalfView>) -> HalfView {
        HalfView {
            status: "running"@,
            last_ok_at: match previous {
                Some(p) => p.last_ok_at,
                None => None,
            },
            last_ok_unix: match previous {
                Some(p) => p.last_ok_unix,
                None => None,
            },
            ..HalfView::blank()
        }
    }

    /// This half, finished at `now`: a success is stamped, anything else keeps
    /// the stamp that was there.
    pub open spec fn finished(self, status: Seq<char>, at: Seq<char>, unix: i64) -> HalfView {
        if status == "ok"@ {
            HalfView { status, last_ok_at: Some(at), last_ok_unix: Some(unix), ..self }
        } else {
            HalfView { status, ..self }
        }
    }
}

impl Default for HalfStatus {
    fn default() -> (r: Self)
        ensures
            r@ == HalfView::blank(),
    {
        let r = HalfStatus {
            status: String::new(),
            last_ok_at: None,
            last_ok_unix: None,
            snapshot: None,
            checks_ok: 0,
            checks_failed: 0,
            files_verified: 0,
            failures: Vec::new(),
        };
        assert(r@.failures =~= Seq::<Seq<char>>::empty());
        r
    }
}

impl Clone for HalfStatus {
    fn clone(&self) -> (r: Self)
        ensures
            r@ == self@,
    {
        HalfStatus {
            status: self.status.clone(),
            last_ok_at: text::copy_opt_text(&self.last_ok_at),
            last_ok_unix: self.last_ok_unix,
            snapshot: text::copy_opt_text(&self.snapshot),
            checks_ok: self.checks_ok,
            checks_failed: self.checks_failed,
            files_verified: self.files_verified,
            failures: text::copy_texts(&self.failures),
        }
    }
}

/// What an optional half holds.
pub open spec fn opt_half(o: Option<&HalfStatus>) -> Option<HalfView> {
    match o {
        Some(h) => Some(h@),
        None => None,
    }
}

impl HalfStatus {
    /// A half of a run that has begun; the last success is that of `previous`.
    pub fn running(previous: Option<&HalfStatus>) -> (r: HalfStatus)
        ensures
            r@ == HalfView::begun(opt_half(previous)),
    {
        let mut r: HalfStatus = HalfStatus::default();
        r.status = "running".to_owned();
        match previous {
            Some(p) => {
                r.last_ok_at = text::copy_opt_text(&p.last_ok_at);
                r.last_ok_unix = p.last_ok_unix;
            },
            None => {},
        }
        r
    }

    /// Finishes this half. The last success becomes `now` if this is one, and
    /// stays what it was otherwise.
    pub fn finish(&mut self, status: &str, now: &Moment)
        ensures
            final(self)@ == old(self)@.finished(status@, now.text@, now.unix),
    {
        self.status = status.to_owned();
        if text::same_text(status, "ok") {
            self.last_ok_at = Some(now.text.clone());
            self.last_ok_unix = Some(now.unix);
        }
    }
}

/// The last success outlives the runs that follow it without one: whatever
/// such a run ends as, it passes on the stamp that it found.
pub proof fn law_last_success_is_carried_forward(
    previous: HalfView,
    status: Seq<char>,
    at: Seq<char>,
    unix: i64,
)
    ensures
        status != "ok"@ ==> {
            let next = HalfView::begun(Some(previous)).finished(status, at, unix);
            next.last_ok_at == previous.last_ok_at && next.last_ok_unix == previous.last_ok_unix
                && next.status == status
        },
        status == "ok"@ ==> {
            let next = HalfView::begun(Some(previous)).finished(status, at, unix);
            next.last_ok_at == Some(at) && next.last_ok_unix == Some(unix)
        },
{
}

/// What a monitor is told.
#[derive(Debug)]
pub struct Status {
    pub schema: u32,
    /// `running` or `finished`.
    pub state: String,
    pub started_at: String,
    pub started_unix: i64,
    pub finished_at: Option<String>,
    pub finished_unix: Option<i64>,
    /// When the run last said that it is alive.
    pub heartbeat_at: Option<String>,
    pub heartbeat_unix: Option<i64>,
    pub repo: String,
    pub replica_repos: Vec<String>,
    pub backup: HalfStatus,
    pub recovery: HalfStatus,
}

/// What a [`Status`] holds.
pub struct StatusView {
    pub schema: u32,
    pub state: Seq<char>,
    pub started_at: Seq<char>,
    pub started_unix: i64,
    pub finished_at: Option<Seq<char>>,
    pub finished_unix: Option<i64>,
    pub heartbeat_at: Option<Seq<char>>,
    pub heartbeat_unix: Option<i64>,
    pub repo: Seq<char>,
    pub replica_repos: Seq<Seq<char>>,
    pub backup: HalfView,
    pub recovery: HalfView,
}

impl View for Status {
    type V = StatusView;

    open spec fn view(&self) -> StatusView {
        StatusView {
            schema: self.schema,
            state: self.state@,
            started_at: self.started_at@,
            started_unix: self.started_unix,
            finished_at: text::opt_text(self.finished_at),
            finished_unix: self.finished_unix,
            heartbeat_at: text::opt_text(self.heartbeat_at),
            heartbeat_unix: self.heartbeat_unix,
            repo: self.repo@,
            replica_repos: text::texts(self.replica_repos@),
            backup: self.backup@,
            recovery: self.recovery@,
        }
    }
}

impl Clone for Status {
    fn clone(&self) -> (r: Self)
        ensures
            r@ == self@,
    {
        Status {
            schema: self.schema,
            state: self.state.clone(),
            started_at: self.started_at.clone(),
            started_unix: self.started_unix,
            finished_at: text::copy_opt_text(&self.finished_at),
            finished_unix: self.finished_unix,
            heartbeat_at: text::copy_opt_text(&self.heartbeat_at),
            heartbeat_unix: self.heartbeat_unix,
            repo: self.repo.clone(),
            replica_repos: text::copy_texts(&self.replica_repos),
            backup: self.backup.clone(),
            recovery: self.recovery.clone(),
        }
    }
}

/// What the recovery half ends as, given how many checks passed and how many
/// files they read back. Without any file it is not `ok`: nothing has shown
/// that the repository can be read.
pub open spec fn recovery_verdict(
    enabled: bool,
    failed: bool,
    checks_ok: u32,
    files_verified: u64,
) -> Seq<char> {
    if !enabled {
        "disabled"@
    } else if failed {
        "failed"@
    } else if checks_ok == 0 || files_verified == 0 {
        "untested"@
    } else {
        "ok"@
    }
}

/// What the recovery half ends as.
pub fn recovery_status(enabled: bool, failed: bool, checks_ok: u32, files_verified: u64) -> (r:
    &'static str)
    ensures
        r@ == recovery_verdict(enabled, failed, checks_ok, files_verified),
{
    if !enabled {
        "disabled"
    } else if failed {
        "failed"
    } else if checks_ok == 0 || files_verified == 0 {
        "untested"
    } else {
        "ok"
    }
}

/// What the backup half ends as.
pub open spec fn backup_verdict(failed: bool) -> Seq<char> {
    if failed {
        "failed"@
    } else {
        "ok"@
    }
}

/// What the backup half ends as.
pub fn backup_status(failed: bool) -> (r: &'static str)
    ensures
        r@ == backup_verdict(failed),
{
    if failed {
        "failed"
    } else {
        "ok"
    }
}

/// Recovery is reported as a success exactly if checks were wanted, at least
/// one passed, files were read back by them, and none failed.
pub proof fn law_recovery_is_ok_only_if_proved(
    enabled: bool,
    failed: bool,
    checks_ok: u32,
    files_verified: u64,
)
    ensures
        recovery_verdict(enabled, failed, checks_ok, files_verified) == "ok"@ <==> enabled
            && !failed && checks_ok > 0 && files_verified > 0,
{
    reveal_strlit("ok");
    reveal_strlit("failed");
    reveal_strlit("untested");
    reveal_strlit("disabled");
    assert("failed"@.len() != "ok"@.len());
    assert("untested"@.len() != "ok"@.len());
    assert("disabled"@.len() != "ok"@.len());
}

/// What a run found out, as the status tells it.
pub struct Verdict {
    pub snapshot: Option<Seq<char>>,
    pub enabled: bool,
    pub checks_ok: u32,
    pub files_verified: u64,
    pub failures: outcome::OutcomeView,
}

impl StatusView {
    /// The status of a run that has begun.
    pub open spec fn started(
        repo: Seq<char>,
        replicas: Seq<Seq<char>>,
        previous: Option<StatusView>,
        at: Seq<char>,
        unix: i64,
    ) -> StatusView {
        StatusView {
            schema: 1,
            state: "running"@,
            started_at: at,
            started_unix: unix,
            finished_at: None,
            finished_unix: None,
            heartbeat_at: None,
            heartbeat_unix: None,
            repo,
            replica_repos: replicas,
            backup: HalfView::begun(
                match previous {
                    Some(p) => Some(p.backup),
                    None => None,
                },
            ),
            recovery: HalfView::begun(
                match previous {
                    Some(p) => Some(p.recovery),
                    None => None,
                },
            ),
        }
    }

    /// The status of a run that has said that it is alive.
    pub open spec fn alive(self, at: Seq<char>, unix: i64) -> StatusView {
        StatusView { heartbeat_at: Some(at), heartbeat_unix: Some(unix), ..self }
    }

    /// The status of a run that came to its end.
    pub open spec fn concluded(self, v: Verdict, at: Seq<char>, unix: i64) -> StatusView {
        StatusView {
            state: "finished"@,
            finished_at: Some(at),
            finished_unix: Some(unix),
            heartbeat_at: None,
            heartbeat_unix: None,
            backup: HalfView {
                snapshot: if v.snapshot is Some {
                    v.snapshot
                } else {
                    self.backup.snapshot
                },
                failures: v.failures.backup,
                ..self.backup
            }.finished(backup_verdict(v.failures.backup.len() > 0), at, unix),
            recovery: HalfView {
                checks_ok: v.checks_ok,
                checks_failed: v.failures.recovery.len() as u32,
                files_verified: v.files_verified,
                failures: v.failures.recovery,
                ..self.recovery
            }.finished(
                recovery_verdict(
                    v.enabled,
                    v.failures.recovery.len() > 0,
                    v.checks_ok,
                    v.files_verified,
                ),
                at,
                unix,
            ),
            ..self
        }
    }

    /// The status of a run that was refused before it began its work. Nothing
    /// was tested, whether or not that was wanted.
    pub open spec fn refused(
        self,
        message: Seq<char>,
        enabled: bool,
        at: Seq<char>,
        unix: i64,
    ) -> StatusView {
        StatusView {
            state: "finished"@,
            finished_at: Some(at),
            finished_unix: Some(unix),
            backup: HalfView { failures: seq!["FATAL: "@ + message], ..self.backup }.finished(
                "failed"@,
                at,
                unix,
            ),
            recovery: self.recovery.finished(recovery_verdict(enabled, false, 0, 0), at, unix),
            ..self
        }
    }
}

impl Status {
    /// The status of a run that begins at `now`, after the run that `previous`
    /// tells of.
    pub fn start(
        repo: &str,
        replicas: &[String],
        previous: Option<&Status>,
        now: &Moment,
    ) -> (r: Status)
        ensures
            r@ == StatusView::started(
                repo@,
                text::texts(replicas@),
                match previous {
                    Some(p) => Some(p@),
                    None => None,
                },
                now.text@,
                now.unix,
            ),
    {
        let backup: HalfStatus = match previous {
            Some(p) => HalfStatus::running(Some(&p.backup)),
            None => HalfStatus::running(None),
        };
        let recovery: HalfStatus = match previous {
            Some(p) => HalfStatus::running(Some(&p.recovery)),
            None => HalfStatus::running(None),
        };
        Status {
            schema: 1,
            state: "running".to_owned(),
            started_at: now.text.clone(),
            started_unix: now.unix,
            finished_at: None,
            finished_unix: None,
            heartbeat_at: None,
            heartbeat_unix: None,
            repo: repo.to_owned(),
            replica_repos: text::copy_texts(replicas),
            backup,
            recovery,
        }
    }

    /// Notes that the run is alive.
    pub fn beat(&mut self, now: &Moment)
        ensures
            final(self)@ == old(self)@.alive(now.text@, now.unix),
    {
        self.heartbeat_at = Some(now.text.clone());
        self.heartbeat_unix = Some(now.unix);
    }

    /// Concludes the status of a run that came to its end.
    pub fn conclude(
        &mut self,
        snapshot: Option<String>,
        enabled: bool,
        checks_ok: u32,
        files_verified: u64,
        failures: &Outcome,
        end: &Moment,
    )
        ensures
            final(self)@ == old(self)@.concluded(
                (Verdict {
                    snapshot: text::opt_text(snapshot),
                    enabled,
                    checks_ok,
                    files_verified,
                    failures: failures@,
                }),
                end.text@,
                end.unix,
            ),
    {
        self.state = "finished".to_owned();
        self.finished_at = Some(end.text.clone());
        self.finished_unix = Some(end.unix);
        self.heartbeat_at = None;
        self.heartbeat_unix = None;
        if snapshot.is_some() {
            self.backup.snapshot = snapshot;
        }
        self.backup.failures = text::copy_texts(&failures.backup);
        self.backup.finish(backup_status(failures.backup.len() > 0), end);
        self.recovery.checks_ok = checks_ok;
        self.recovery.checks_failed = failures.recovery.len() as u32;
        self.recovery.files_verified = files_verified;
        self.recovery.failures = text::copy_texts(&failures.recovery);
        self.recovery.finish(
            recovery_status(enabled, failures.recovery.len() > 0, checks_ok, files_verified),
            end,
        );
    }

    /// Concludes the status of a run that was refused before it began its work.
    pub fn refuse(&mut self, message: &str, enabled: bool, end: &Moment)
        ensures
            final(self)@ == old(self)@.refused(message@, enabled, end.text@, end.unix),
    {
        broadcast use text::lemma_texts_push;

        self.state = "finished".to_owned();
        self.finished_at = Some(end.text.clone());
        self.finished_unix = Some(end.unix);
        let mut m = "FATAL: ".to_owned();
        m.append(message);
        let mut failures: Vec<String> = Vec::new();
        failures.push(m);
        assert(text::texts(failures@) =~= seq!["FATAL: "@ + message@]);
        self.backup.failures = failures;
        self.backup.finish("failed", end);
        self.recovery.finish(recovery_status(enabled, false, 0, 0), end);
    }
}

/// A refused run never counts as a success, and passes the last successes on.
/// Recovery is told as untested only where a test was wanted.
pub proof fn law_refused_run_keeps_last_successes(
    s: StatusView,
    message: Seq<char>,
    enabled: bool,
    at: Seq<char>,
    unix: i64,
)
    ensures
        ({
            let t = s.refused(message, enabled, at, unix);
            &&& t.backup.last_ok_unix == s.backup.last_ok_unix
            &&& t.recovery.last_ok_unix == s.recovery.last_ok_unix
            &&& t.backup.last_ok_at == s.backup.last_ok_at
            &&& t.recovery.last_ok_at == s.recovery.last_ok_at
            &&& t.backup.status == "failed"@
            &&& t.recovery.status == if enabled {
                "untested"@
            } else {
                "disabled"@
            }
        }),
{
    reveal_strlit("ok");
    reveal_strlit("failed");
    reveal_strlit("untested");
    reveal_strlit("disabled");
    assert("failed"@.len() != "ok"@.len());
    assert("untested"@.len() != "ok"@.len());
    assert("disabled"@.len() != "ok"@.len());
}

/// The two halves are judged apart: what failed in one does not touch the
/// other, and the stamp of a half moves exactly if that half succeeded.
pub proof fn law_halves_are_independent(s: StatusView, v: Verdict, at: Seq<char>, unix: i64)
    ensures
        s.concluded(v, at, unix).backup.last_ok_unix == if v.failures.backup.len() == 0 {
            Some(unix)
        } else {
            s.backup.last_ok_unix
        },
        s.concluded(v, at, unix).recovery.last_ok_unix == if v.enabled && v.failures.recovery.len()
            == 0 && v.checks_ok > 0 && v.files_verified > 0 {
            Some(unix)
        } else {
            s.recovery.last_ok_unix
        },
{
    law_recovery_is_ok_only_if_proved(
        v.enabled,
        v.failures.recovery.len() > 0,
        v.checks_ok,
        v.files_verified,
    );
    reveal_strlit("ok");
    reveal_strlit("failed");
    assert("failed"@.len() != "ok"@.len());
}

/// A run that has ended is told of in the words that a monitor knows, and no
/// longer as running.
pub proof fn law_finished_status_is_final(s: StatusView, v: Verdict, at: Seq<char>, unix: i64)
    ensures
        ({
            let t = s.concluded(v, at, unix);
            &&& t.state == "finished"@
            &&& t.backup.status == "ok"@ || t.backup.status == "failed"@
            &&& t.recovery.status == "ok"@ || t.recovery.status == "failed"@ || t.recovery.status
                == "untested"@ || t.recovery.status == "disabled"@
            &&& t.heartbeat_at is None && t.heartbeat_unix is None
            &&& t.finished_at == Some(at) && t.finished_unix == Some(unix)
        }),
{
}

/// Whether one more tick of sleep brings a beat, and for how long it was slept
/// since the last one then.
pub open spec fn paced(every: int, waited: int) -> (bool, int) {
    if waited + TICK_NANOS < every {
        (false, waited + TICK_NANOS)
    } else {
        (true, 0)
    }
}

/// How often a sleeping heartbeat looks whether it is to stop, in nanoseconds.
pub const TICK_NANOS: u128 = 200_000_000;

/// How long a heartbeat has slept since it last beat.
pub struct Pacer {
    pub every: u128,
    pub waited: u128,
}

impl Pacer {
    /// Beats once at least `every` nanoseconds have been slept.
    pub fn new(every: u128) -> (p: Pacer)
        ensures
            p.every == every,
            p.waited == 0,
    {
        Pacer { every, waited: 0 }
    }

    /// After one more tick of sleep: whether to beat. A beat starts the count
    /// anew.
    pub fn tick(&mut self) -> (beat: bool)
        requires
            old(self).waited + TICK_NANOS <= u128::MAX,
        ensures
            final(self).every == old(self).every,
            beat == (old(self).waited + TICK_NANOS >= old(self).every),
            final(self).waited == if beat {
                0
            } else {
                old(self).waited + TICK_NANOS
            },
            final(self).waited == 0 || final(self).waited < final(self).every,
            (beat, final(self).waited as int) == paced(
                old(self).every as int,
                old(self).waited as int,
            ),
    {
        self.waited = self.waited + TICK_NANOS;
        if self.waited < self.every {
            return false;
        }
        self.waited = 0;
        true
    }
}

/// The status of a run that begins tells nothing yet but where it runs and
/// since when; each half has the last success of the same half of the run
/// before, or none.
pub proof fn law_new_status_keeps_each_last_success(
    repo: Seq<char>,
    replicas: Seq<Seq<char>>,
    previous: StatusView,
    at: Seq<char>,
    unix: i64,
)
    ensures
        ({
            let s = StatusView::started(repo, replicas, Some(previous), at, unix);
            let first = StatusView::started(repo, replicas, None, at, unix);
            &&& s.backup.last_ok_at == previous.backup.last_ok_at
            &&& s.backup.last_ok_unix == previous.backup.last_ok_unix
            &&& s.recovery.last_ok_at == previous.recovery.last_ok_at
            &&& s.recovery.last_ok_unix == previous.recovery.last_ok_unix
            &&& first.backup.last_ok_at is None && first.backup.last_ok_unix is None
            &&& first.recovery.last_ok_at is None && first.recovery.last_ok_unix is None
            &&& tells_of_a_start(s, repo, replicas, at, unix)
            &&& tells_of_a_start(first, repo, replicas, at, unix)
        }),
{
}

/// Whether a status tells of a run that has just begun.
pub open spec fn tells_of_a_start(
    s: StatusView,
    repo: Seq<char>,
    replicas: Seq<Seq<char>>,
    at: Seq<char>,
    unix: i64,
) -> bool {
    &&& s.schema == 1
    &&& s.state == "running"@
    &&& s.started_at == at && s.started_unix == unix
    &&& s.finished_at is None && s.finished_unix is None
    &&& s.heartbeat_at is None && s.heartbeat_unix is None
    &&& s.repo == repo && s.replica_repos == replicas
    &&& tells_nothing(s.backup) && tells_nothing(s.recovery)
}

/// Whether a half is that of a run that has just begun.
pub open spec fn tells_nothing(h: HalfView) -> bool {
    &&& h.status == "running"@
    &&& h.snapshot is None
    &&& h.checks_ok == 0 && h.checks_failed == 0 && h.files_verified == 0
    &&& h.failures.len() == 0
}

/// Over a whole run each half keeps its own last success unless it succeeded
/// itself, and then has the end of the run.
pub proof fn law_each_half_keeps_its_own_success(
    repo: Seq<char>,
    replicas: Seq<Seq<char>>,
    previous: StatusView,
    start: (Seq<char>, i64),
    v: Verdict,
    end: (Seq<char>, i64),
)
    ensures
        ({
            let t = StatusView::started(
                repo,
                replicas,
                Some(previous),
                start.0,
                start.1,
            ).concluded(v, end.0, end.1);
            let stored = v.failures.backup.len() == 0;
            let proved = v.enabled && v.failures.recovery.len() == 0 && v.checks_ok > 0
                && v.files_verified > 0;
            &&& t.backup.last_ok_at == if stored {
                Some(end.0)
            } else {
                previous.backup.last_ok_at
            }
            &&& t.backup.last_ok_unix == if stored {
                Some(end.1)
            } else {
                previous.backup.last_ok_unix
            }
            &&& t.recovery.last_ok_at == if proved {
                Some(end.0)
            } else {
                previous.recovery.last_ok_at
            }
            &&& t.recovery.last_ok_unix == if proved {
                Some(end.1)
            } else {
                previous.recovery.last_ok_unix
            }
        }),
{
    law_recovery_is_ok_only_if_proved(
        v.enabled,
        v.failures.recovery.len() > 0,
        v.checks_ok,
        v.files_verified,
    );
    reveal_strlit("ok");
    reveal_strlit("failed");
    assert("failed"@.len() != "ok"@.len());
}

/// A concluded status tells in each half what the run found there, and keeps
/// what was known at its start.
pub proof fn law_concluded_status_tells_what_was_found(
    s: StatusView,
    v: Verdict,
    at: Seq<char>,
    unix: i64,
)
    ensures
        ({
            let t = s.concluded(v, at, unix);
            &&& t.state == "finished"@
            &&& t.finished_at == Some(at) && t.finished_unix == Some(unix)
            &&& t.heartbeat_at is None && t.heartbeat_unix is None
            &&& t.schema == s.schema
            &&& t.started_at == s.started_at && t.started_unix == s.started_unix
            &&& t.repo == s.repo && t.replica_repos == s.replica_repos
            &&& t.backup.failures == v.failures.backup
            &&& t.backup.status == if v.failures.backup.len() > 0 {
                "failed"@
            } else {
                "ok"@
            }
            &&& v.snapshot is Some ==> t.backup.snapshot == v.snapshot
            &&& v.snapshot is None ==> t.backup.snapshot == s.backup.snapshot
            &&& t.recovery.failures == v.failures.recovery
            &&& v.failures.recovery.len() <= u32::MAX ==> t.recovery.checks_failed
                == v.failures.recovery.len()
            &&& t.recovery.checks_ok == v.checks_ok
            &&& t.recovery.files_verified == v.files_verified
            &&& t.recovery.snapshot == s.recovery.snapshot
            &&& t.backup.checks_ok == s.backup.checks_ok
            &&& t.backup.checks_failed == s.backup.checks_failed
            &&& t.backup.files_verified == s.backup.files_verified
            &&& t.recovery.status == if !v.enabled {
                "disabled"@
            } else if v.failures.recovery.len() > 0 {
                "failed"@
            } else if v.checks_ok == 0 || v.files_verified == 0 {
                "untested"@
            } else {
                "ok"@
            }
        }),
{
}

/// A refused run is told as failed, with the reason and nothing else, and
/// keeps what was known at its start.
pub proof fn law_refused_status_tells_why(
    s: StatusView,
    message: Seq<char>,
    enabled: bool,
    at: Seq<char>,
    unix: i64,
)
    ensures
        ({
            let t = s.refused(message, enabled, at, unix);
            &&& t.state == "finished"@
            &&& t.finished_at == Some(at) && t.finished_unix == Some(unix)
            &&& t.schema == s.schema
            &&& t.started_at == s.started_at && t.started_unix == s.started_unix
            &&& t.heartbeat_at == s.heartbeat_at && t.heartbeat_unix == s.heartbeat_unix
            &&& t.repo == s.repo && t.replica_repos == s.replica_repos
            &&& t.backup.failures.len() == 1
            &&& t.backup.failures[0] == "FATAL: "@ + message
            &&& t.backup.snapshot == s.backup.snapshot
            &&& t.recovery.failures == s.recovery.failures
            &&& t.recovery.checks_ok == s.recovery.checks_ok
            &&& t.recovery.checks_failed == s.recovery.checks_failed
            &&& t.recovery.files_verified == s.recovery.files_verified
            &&& t.recovery.snapshot == s.recovery.snapshot
            &&& t.backup.checks_ok == s.backup.checks_ok
            &&& t.backup.checks_failed == s.backup.checks_failed
            &&& t.backup.files_verified == s.backup.files_verified
        }),
{
}

/// A heartbeat changes when the run was last heard of, and nothing else.
pub proof fn law_heartbeat_changes_nothing_else(s: StatusView, at: Seq<char>, unix: i64)
    ensures
        ({
            let t = s.alive(at, unix);
            &&& t.heartbeat_at == Some(at) && t.heartbeat_unix == Some(unix)
            &&& t.schema == s.schema && t.state == s.state
            &&& t.started_at == s.started_at && t.started_unix == s.started_unix
            &&& t.finished_at == s.finished_at && t.finished_unix == s.finished_unix
            &&& t.repo == s.repo && t.replica_repos == s.replica_repos
            &&& t.backup == s.backup && t.recovery == s.recovery
        }),
{
}

/// Finishing a half sets its status and, on success only, its stamp; a half
/// that nothing is known of is empty.
pub proof fn law_finishing_stamps_success_only(
    h: HalfView,
    status: Seq<char>,
    at: Seq<char>,
    unix: i64,
)
    ensures
        ({
            let t = h.finished(status, at, unix);
            &&& t.status == status
            &&& status == "ok"@ ==> t.last_ok_at == Some(at) && t.last_ok_unix == Some(unix)
            &&& status != "ok"@ ==> t.last_ok_at == h.last_ok_at && t.last_ok_unix
                == h.last_ok_unix
            &&& t.snapshot == h.snapshot
            &&& t.checks_ok == h.checks_ok && t.checks_failed == h.checks_failed
            &&& t.files_verified == h.files_verified
            &&& t.failures == h.failures
        }),
        HalfView::blank().status.len() == 0,
        HalfView::blank().last_ok_at is None && HalfView::blank().last_ok_unix is None,
        HalfView::blank().snapshot is None && HalfView::blank().failures.len() == 0,
        HalfView::begun(None).status == "running"@,
        HalfView::begun(Some(h)).last_ok_unix == h.last_ok_unix,
        HalfView::begun(Some(h)).last_ok_at == h.last_ok_at,
        tells_nothing(HalfView::begun(Some(h))),
        tells_nothing(HalfView::begun(None)),
{
}

/// A tick is a fifth of a second; the beat comes with the tick that makes the
/// sleep since the last one as long as it is to be, and not before.
pub proof fn law_beats_come_in_time(every: int, waited: int)
    ensures
        waited + 200_000_000 >= every ==> paced(every, waited) == (true, 0int),
        waited + 200_000_000 < every ==> paced(every, waited) == (false, waited + 200_000_000),
{
}

} // verus!
