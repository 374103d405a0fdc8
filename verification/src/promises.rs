//! What holds of every run, whatever replies it gets.

use vstd::prelude::*;
use crate::compare;
use crate::manifest::FileView;
use crate::outcome::Stage;
use crate::outcome;
use crate::plan::Phase;
use crate::plan::Sync;
use crate::plan::COPY_ATTEMPTS;
use crate::plan;
use crate::restic;
use crate::snapshot;

verus! {

// ---------------------------------------------------------------------------
// Runs

/// The state after a reply.
#[verifier::opaque]
pub open spec fn next(s: plan::RunView, e: (plan::ReplyView, Option<Seq<char>>)) -> plan::RunView {
    s.step(e.0, e.1)
}

/// The state after a series of replies, each given with the latest snapshot
/// that it lists.
pub open spec fn played(
    s: plan::RunView,
    events: Seq<(plan::ReplyView, Option<Seq<char>>)>,
) -> plan::RunView
    decreases events.len(),
{
    if events.len() == 0 {
        s
    } else {
        next(played(s, events.drop_last()), events.last())
    }
}

/// Whether every reply of a series can be gone on with.
pub open spec fn accepted(
    s: plan::RunView,
    events: Seq<(plan::ReplyView, Option<Seq<char>>)>,
) -> bool
    decreases events.len(),
{
    events.len() > 0 ==> accepted(s, events.drop_last()) && played(
        s,
        events.drop_last(),
    ).accepts(events.last().0, events.last().1)
}

/// Whether the run is in the given phase after some of the replies.
pub open spec fn passes(
    s: plan::RunView,
    events: Seq<(plan::ReplyView, Option<Seq<char>>)>,
    phase: Phase,
) -> bool {
    exists|n: int|
        0 <= n <= events.len() && (#[trigger] played(s, events.take(n))).phase == phase
}

/// Whether the run has ended.
pub open spec fn ended(phase: Phase) -> bool {
    phase == Phase::Finished || phase == Phase::Refused
}

proof fn lemma_next_is_valid(s: plan::RunView, e: (plan::ReplyView, Option<Seq<char>>))
    requires
        s.wf(),
        s.accepts(e.0, e.1),
    ensures
        next(s, e).wf(),
        next(s, e).cfg == s.cfg,
{
    reveal(next);
    plan::law_validity_is_kept(s, e.0, e.1);
}

proof fn lemma_played_is_valid(
    s: plan::RunView,
    events: Seq<(plan::ReplyView, Option<Seq<char>>)>,
)
    requires
        s.wf(),
        accepted(s, events),
    ensures
        played(s, events).wf(),
        played(s, events).cfg == s.cfg,
    decreases events.len(),
{
    if events.len() > 0 {
        lemma_played_is_valid(s, events.drop_last());
        lemma_next_is_valid(played(s, events.drop_last()), events.last());
    }
}

proof fn lemma_passes_extends(
    s: plan::RunView,
    events: Seq<(plan::ReplyView, Option<Seq<char>>)>,
    phase: Phase,
)
    requires
        events.len() > 0,
        passes(s, events.drop_last(), phase) || played(s, events).phase == phase,
    ensures
        passes(s, events, phase),
{
    let front = events.drop_last();
    if passes(s, front, phase) {
        let n = choose|n: int|
            0 <= n <= front.len() && (#[trigger] played(s, front.take(n))).phase == phase;
        assert(events.take(n) =~= front.take(n));
    } else {
        assert(events.take(events.len() as int) =~= events);
    }
}

// ---------------------------------------------------------------------------
// The run ends

/// How many more requests are made at most while a replica is brought up to
/// date.
pub open spec fn sync_budget(sync: Sync) -> int {
    match sync {
        Sync::Unlock => 18,
        Sync::Listing => 17,
        Sync::Init => 16,
        Sync::Copy { attempt, .. } => 3 * (COPY_ATTEMPTS - attempt) + 3,
        Sync::Pause { attempt, .. } => 3 * (COPY_ATTEMPTS - attempt) + 2,
        Sync::RetryUnlock { attempt, .. } => 3 * (COPY_ATTEMPTS - attempt) + 1,
        Sync::PruneUnlock => 2,
        Sync::Prune => 1,
    }
}

/// How many more requests a run with `n` replicas makes at most.
pub open spec fn budget(phase: Phase, n: int) -> int {
    match phase {
        Phase::Password => 21 * n + 18,
        Phase::Unlock => 21 * n + 17,
        Phase::Locks => 21 * n + 16,
        Phase::PreListing => 21 * n + 15,
        Phase::Init => 21 * n + 14,
        Phase::PreSample => 21 * n + 13,
        Phase::PreRestore => 21 * n + 12,
        Phase::PreManifest => 21 * n + 11,
        Phase::Backup => 21 * n + 10,
        Phase::NewListing => 21 * n + 9,
        Phase::PruneUnlock => 21 * n + 8,
        Phase::Prune => 21 * n + 7,
        Phase::Replica(i, sync) => 18 * (n - i - 1) + 3 * n + 6 + sync_budget(sync),
        Phase::PostListing => 3 * n + 6,
        Phase::PostRestore => 3 * n + 5,
        Phase::PostManifest => 3 * n + 4,
        Phase::NewSample => 3 * n + 3,
        Phase::NewRestore => 3 * n + 2,
        Phase::NewManifest => 3 * n + 1,
        Phase::CheckListing(i) => 3 * (n - i),
        Phase::CheckRestore(i) => 3 * (n - i) - 1,
        Phase::CheckManifest(i) => 3 * (n - i) - 2,
        Phase::Finished => 0,
        Phase::Refused => 0,
    }
}

/// Whether one phase of a run with `n` replicas can follow on another.
pub open spec fn follows(phase: Phase, next: Phase, n: int) -> bool {
    match phase {
        Phase::Password => next == Phase::Unlock || next == Phase::Refused,
        Phase::Unlock => next == Phase::Locks,
        Phase::Locks => next == Phase::PreListing || next == Phase::Refused,
        Phase::PreListing => next == Phase::Init || next == Phase::PreSample || next
            == Phase::Backup,
        Phase::Init => next == Phase::Backup || next == Phase::Refused,
        Phase::PreSample => next == Phase::PreRestore || next == Phase::Backup,
        Phase::PreRestore => next == Phase::PreManifest || next == Phase::Backup,
        Phase::PreManifest => next == Phase::Backup,
        Phase::Backup => next == Phase::NewListing,
        Phase::NewListing => next == Phase::PruneUnlock,
        Phase::PruneUnlock => next == Phase::Prune,
        Phase::Prune => if n > 0 {
            next == Phase::Replica(0, Sync::Unlock)
        } else {
            after_replicas(next, n)
        },
        Phase::Replica(i, sync) => {
            ||| next matches Phase::Replica(j, t) && j == i && sync_budget(t)
                < sync_budget(sync)
            ||| leaves_replica(sync) && if i + 1 < n {
                next == Phase::Replica((i + 1) as usize, Sync::Unlock)
            } else {
                after_replicas(next, n)
            }
        },
        _ => after_replicas(next, n) && budget(next, n) < budget(phase, n),
    }
}

proof fn lemma_early_follows(s: plan::RunView, reply: plan::ReplyView, latest: Option<Seq<char>>)
    requires
        s.wf(),
        s.accepts(reply, latest),
        plan::before_backup(s.phase) || s.phase == Phase::Backup || s.phase == Phase::NewListing
            || s.phase == Phase::PruneUnlock,
    ensures
        follows(s.phase, s.step(reply, latest).phase, s.cfg.replica_repos.len() as int),
{
}

proof fn lemma_replica_follows(s: plan::RunView, reply: plan::ReplyView, latest: Option<Seq<char>>)
    requires
        s.wf(),
        s.accepts(reply, latest),
        s.phase == Phase::Prune || s.phase is Replica,
    ensures
        follows(s.phase, s.step(reply, latest).phase, s.cfg.replica_repos.len() as int),
{
    match s.phase {
        Phase::Replica(i, sync) => {
            assert(s.step(reply, latest) == s.sync_step(i, sync, reply));
        },
        _ => {},
    }
}

proof fn lemma_late_follows(s: plan::RunView, reply: plan::ReplyView, latest: Option<Seq<char>>)
    requires
        s.wf(),
        s.accepts(reply, latest),
        after_replicas(s.phase, s.cfg.replica_repos.len() as int),
    ensures
        follows(s.phase, s.step(reply, latest).phase, s.cfg.replica_repos.len() as int),
{
}

/// What follows on a phase.
proof fn lemma_next_phase(s: plan::RunView, e: (plan::ReplyView, Option<Seq<char>>))
    requires
        s.wf(),
        s.accepts(e.0, e.1),
    ensures
        follows(s.phase, next(s, e).phase, s.cfg.replica_repos.len() as int),
{
    reveal(next);
    if s.phase == Phase::Prune || s.phase is Replica {
        lemma_replica_follows(s, e.0, e.1);
    } else if after_replicas(s.phase, s.cfg.replica_repos.len() as int) {
        lemma_late_follows(s, e.0, e.1);
    } else if s.phase != Phase::Refused {
        lemma_early_follows(s, e.0, e.1);
    }
}

/// Whether a phase comes after the replicas have been brought up to date.
pub open spec fn after_replicas(phase: Phase, n: int) -> bool {
    match phase {
        Phase::PostListing | Phase::PostRestore | Phase::PostManifest => true,
        Phase::NewSample | Phase::NewRestore | Phase::NewManifest => true,
        Phase::CheckListing(i) | Phase::CheckRestore(i) | Phase::CheckManifest(i) => i < n,
        Phase::Finished => true,
        _ => false,
    }
}

/// Whether a replica can be left in this phase.
pub open spec fn leaves_replica(sync: Sync) -> bool {
    match sync {
        Sync::Listing | Sync::Init | Sync::Prune => true,
        Sync::Copy { attempt, .. } => attempt == COPY_ATTEMPTS,
        _ => false,
    }
}

/// Every reply brings the end of a run nearer: with `n` replicas it makes at
/// most 21 n + 18 requests. So no retry and no check goes on for ever.
pub proof fn law_run_ends(s: plan::RunView, events: Seq<(plan::ReplyView, Option<Seq<char>>)>)
    requires
        s.wf(),
        accepted(s, events),
    ensures
        events.len() <= budget(s.phase, s.cfg.replica_repos.len() as int) - budget(
            played(s, events).phase,
            s.cfg.replica_repos.len() as int,
        ),
        budget(played(s, events).phase, s.cfg.replica_repos.len() as int) >= 0,
        budget(s.phase, s.cfg.replica_repos.len() as int) <= 21 * s.cfg.replica_repos.len() + 18,
    decreases events.len(),
{
    if events.len() > 0 {
        let t = played(s, events.drop_last());
        law_run_ends(s, events.drop_last());
        lemma_played_is_valid(s, events.drop_last());
        lemma_played_is_valid(s, events);
        lemma_next_phase(t, events.last());
    }
}

/// A run that no more reply can be given to has ended, unless a count would
/// leave its type: in every other phase a request can be answered by a
/// failure, or, for a pause, by saying that it is over.
pub proof fn law_only_ended_runs_stop(s: plan::RunView)
    requires
        s.wf(),
        s.failures.backup.len() + s.failures.recovery.len() + 2 <= usize::MAX,
        s.checks_ok < u32::MAX,
        s.files_verified + s.pending.len() <= u64::MAX,
        forall|reply: plan::ReplyView| !(#[trigger] s.accepts(reply, None)),
    ensures
        ended(s.phase),
{
    assert(!s.accepts(plan::ReplyView::Failed(seq![]), None));
    assert(!s.accepts(plan::ReplyView::Done, None));
}

// ---------------------------------------------------------------------------
// The backup is always attempted

/// A failed retrieval test before the backup never blocks it: the failure is
/// recorded and the backup is next.
pub proof fn law_failed_pre_check_does_not_block_backup(s: plan::RunView, e: Seq<char>)
    requires
        s.wf(),
        s.accepts(plan::ReplyView::Failed(e), None),
        s.phase == Phase::PreSample || s.phase == Phase::PreRestore || s.phase
            == Phase::PreManifest,
    ensures
        s.step(plan::ReplyView::Failed(e), None).phase == Phase::Backup,
        s.step(plan::ReplyView::Failed(e), None).failures.recovery.len()
            == s.failures.recovery.len() + 1,
        s.step(plan::ReplyView::Failed(e), None).failures.backup == s.failures.backup,
{
    outcome::law_every_stage_is_classified(Stage::PreSample, s.cfg.replica_repos);
    outcome::law_every_stage_is_classified(Stage::PreRestore, s.cfg.replica_repos);
    outcome::law_every_stage_is_classified(Stage::PreManifest, s.cfg.replica_repos);
}

/// A run that comes to its end has attempted the backup; the only other way to
/// end is to be refused before it.
pub proof fn law_backup_is_always_attempted(
    s: plan::RunView,
    events: Seq<(plan::ReplyView, Option<Seq<char>>)>,
)
    requires
        s.wf(),
        plan::before_backup(s.phase),
        accepted(s, events),
    ensures
        ({
            let phase = played(s, events).phase;
            plan::before_backup(phase) || phase == Phase::Refused || passes(
                s,
                events,
                Phase::Backup,
            )
        }),
    decreases events.len(),
{
    if events.len() > 0 {
        let front = events.drop_last();
        law_backup_is_always_attempted(s, front);
        lemma_played_is_valid(s, front);
        lemma_next_phase(played(s, front), events.last());
        if passes(s, front, Phase::Backup) || played(s, events).phase == Phase::Backup {
            lemma_passes_extends(s, events, Phase::Backup);
        }
    }
}

/// A run that comes to its end has asked for retention on the primary
/// repository, whatever failed before.
pub proof fn law_retention_is_always_asked_for(
    s: plan::RunView,
    events: Seq<(plan::ReplyView, Option<Seq<char>>)>,
)
    requires
        s.wf(),
        plan::before_backup(s.phase),
        accepted(s, events),
    ensures
        ({
            let phase = played(s, events).phase;
            before_prune(phase) || phase == Phase::Refused || passes(s, events, Phase::Prune)
        }),
    decreases events.len(),
{
    if events.len() > 0 {
        let front = events.drop_last();
        law_retention_is_always_asked_for(s, front);
        lemma_played_is_valid(s, front);
        lemma_next_phase(played(s, front), events.last());
        if passes(s, front, Phase::Prune) || played(s, events).phase == Phase::Prune {
            lemma_passes_extends(s, events, Phase::Prune);
        }
    }
}

/// Whether a phase comes before retention on the primary repository.
pub open spec fn before_prune(phase: Phase) -> bool {
    match phase {
        Phase::Backup | Phase::NewListing | Phase::PruneUnlock => true,
        _ => plan::before_backup(phase),
    }
}

/// A run that comes to its end has turned to every replica, whatever failed
/// before.
pub proof fn law_every_replica_is_turned_to(
    s: plan::RunView,
    events: Seq<(plan::ReplyView, Option<Seq<char>>)>,
    j: usize,
)
    requires
        s.wf(),
        plan::before_backup(s.phase),
        accepted(s, events),
        j < s.cfg.replica_repos.len(),
    ensures
        ({
            let phase = played(s, events).phase;
            before_replica(phase, j) || phase == Phase::Refused || passes(
                s,
                events,
                Phase::Replica(j, Sync::Unlock),
            )
        }),
    decreases events.len(),
{
    if events.len() > 0 {
        let front = events.drop_last();
        let there = Phase::Replica(j, Sync::Unlock);
        law_every_replica_is_turned_to(s, front, j);
        lemma_played_is_valid(s, front);
        lemma_next_phase(played(s, front), events.last());
        if passes(s, front, there) || played(s, events).phase == there {
            lemma_passes_extends(s, events, there);
        }
    }
}

/// Whether a phase comes before the replica at `j` is turned to.
pub open spec fn before_replica(phase: Phase, j: usize) -> bool {
    match phase {
        Phase::Prune => true,
        Phase::Replica(i, _) => i < j,
        _ => before_prune(phase),
    }
}

/// A repository that shows a lock is left alone: the run is refused.
pub proof fn law_locked_repository_refuses(s: plan::RunView, listing: Seq<char>)
    requires
        s.wf(),
        s.phase == Phase::Locks,
        restic::shows_lock(listing),
    ensures
        s.step(plan::ReplyView::Output(listing), None).phase == Phase::Refused,
        s.step(plan::ReplyView::Output(listing), None).request() == plan::RequestView::Refuse(
            "restic repo is locked — another backup is still running"@,
        ),
{
}

/// A run is refused only before the backup.
pub proof fn law_only_preflight_refuses(
    s: plan::RunView,
    reply: plan::ReplyView,
    latest: Option<Seq<char>>,
)
    requires
        s.wf(),
        s.accepts(reply, latest),
        s.step(reply, latest).phase == Phase::Refused,
    ensures
        plan::before_backup(s.phase),
{
    lemma_next_phase(s, (reply, latest));
    reveal(next);
}

// ---------------------------------------------------------------------------
// Failures

/// The failure that is recorded because a request failed; nothing where that
/// is passed over, or where it refuses the run.
pub open spec fn told_failure(s: plan::RunView, reply: plan::ReplyView) -> Option<
    (Stage, Seq<char>),
> {
    match reply {
        plan::ReplyView::Failed(e) => match s.phase {
            Phase::PreSample => Some((Stage::PreSample, e)),
            Phase::PreRestore => Some((Stage::PreRestore, e)),
            Phase::PreManifest => Some((Stage::PreManifest, e)),
            Phase::Backup => Some((Stage::Backup, e)),
            Phase::NewListing => Some((Stage::Listing, e)),
            Phase::Prune => Some((Stage::Prune, e)),
            Phase::Replica(i, Sync::Init) => Some(
                (
                    Stage::ReplicaSync(i),
                    restic::in_context(
                        "cannot reach or initialize replica "@ + s.cfg.replica_repos[i as int],
                        e,
                    ),
                ),
            ),
            Phase::Replica(i, Sync::Copy { attempt, .. }) => if attempt == COPY_ATTEMPTS {
                Some((Stage::ReplicaSync(i), e))
            } else {
                None
            },
            Phase::Replica(i, Sync::Prune) => Some((Stage::ReplicaSync(i), e)),
            Phase::PostListing | Phase::PostRestore => Some((Stage::PostOriginal, e)),
            Phase::PostManifest => Some((Stage::PostManifest, e)),
            Phase::NewSample => Some((Stage::NewSample, e)),
            Phase::NewRestore => Some((Stage::NewRestore, e)),
            Phase::NewManifest => Some((Stage::NewManifest, e)),
            Phase::CheckListing(i) | Phase::CheckRestore(i) | Phase::CheckManifest(i) => Some(
                (Stage::ReplicaRetrieval(i), e),
            ),
            _ => None,
        },
        _ => None,
    }
}

/// The failure that is recorded because of what a run finds: a backup without
/// a new snapshot, a replica without a copy of it, or files that are not what
/// they were.
pub open spec fn found_failure(
    s: plan::RunView,
    reply: plan::ReplyView,
    latest: Option<Seq<char>>,
) -> Option<(Stage, Seq<char>)> {
    match (s.phase, reply) {
        (Phase::NewListing, plan::ReplyView::Snapshots(_)) => match plan::backup_complaint(
            s.old,
            latest,
        ) {
            Some(complaint) => if s.backup_ok {
                Some((Stage::Backup, complaint))
            } else {
                None
            },
            None => None,
        },
        (Phase::CheckListing(i), plan::ReplyView::Snapshots(list)) => if snapshot::first_copy(
            list,
            s.new->0,
        ) is None {
            Some((Stage::ReplicaRetrieval(i), "replica has no copy of the new snapshot"@))
        } else {
            None
        },
        (Phase::PostManifest, _) => different(s, s.manifest_a->0, Stage::PostOriginal),
        (Phase::CheckManifest(i), _) => different(s, s.manifest_b->0, Stage::ReplicaRetrieval(i)),
        _ => None,
    }
}

/// The failure of a comparison of what was restored last.
pub open spec fn different(s: plan::RunView, expected: Seq<FileView>, stage: Stage) -> Option<
    (Stage, Seq<char>),
> {
    let diffs = compare::differences(expected, s.pending);
    if diffs.len() == 0 {
        None
    } else {
        Some((stage, plan::difference_text(diffs)))
    }
}

/// An outcome with one more failure, if there is one.
pub open spec fn noted(
    out: outcome::OutcomeView,
    replicas: Seq<Seq<char>>,
    failure: Option<(Stage, Seq<char>)>,
) -> outcome::OutcomeView {
    match failure {
        Some((stage, detail)) => out.recorded(outcome::stage_text(stage, replicas), detail),
        None => out,
    }
}

/// What a step records is the failure that it is told of, if that counts, and
/// then the one that it finds, if it finds one; nothing else is recorded and
/// nothing is dropped.
pub proof fn law_recorded_failures(
    s: plan::RunView,
    reply: plan::ReplyView,
    latest: Option<Seq<char>>,
)
    requires
        s.wf(),
        s.accepts(reply, latest),
    ensures
        s.step(reply, latest).failures == noted(
            noted(s.failures, s.cfg.replica_repos, told_failure(s, reply)),
            s.cfg.replica_repos,
            found_failure(s, reply, latest),
        ),
{
    match s.phase {
        Phase::Replica(i, sync) => {
            assert(s.step(reply, latest) == s.sync_step(i, sync, reply));
        },
        Phase::CheckListing(i) | Phase::CheckRestore(i) | Phase::CheckManifest(i) => {
            assert(s.step(reply, latest) == s.check_step(i, reply));
        },
        _ => {},
    }
}

/// Whether what one outcome holds is the beginning of what the other holds.
pub open spec fn begins(a: outcome::OutcomeView, b: outcome::OutcomeView) -> bool {
    a.backup.is_prefix_of(b.backup) && a.recovery.is_prefix_of(b.recovery)
}

proof fn lemma_begins_transitive(
    a: outcome::OutcomeView,
    b: outcome::OutcomeView,
    c: outcome::OutcomeView,
)
    requires
        begins(a, b),
        begins(b, c),
    ensures
        begins(a, c),
{
    assert(c.backup.subrange(0, a.backup.len() as int) =~= a.backup);
    assert(c.recovery.subrange(0, a.recovery.len() as int) =~= a.recovery);
}

/// Failures are collected: none that was recorded is ever dropped.
pub proof fn law_failures_are_kept(
    s: plan::RunView,
    reply: plan::ReplyView,
    latest: Option<Seq<char>>,
)
    requires
        s.wf(),
        s.accepts(reply, latest),
    ensures
        begins(s.failures, s.step(reply, latest).failures),
{
    let replicas = s.cfg.replica_repos;
    law_recorded_failures(s, reply, latest);
    let mid = noted(s.failures, replicas, told_failure(s, reply));
    lemma_noted_begins(s.failures, replicas, told_failure(s, reply));
    lemma_noted_begins(mid, replicas, found_failure(s, reply, latest));
    lemma_begins_transitive(s.failures, mid, s.step(reply, latest).failures);
}

proof fn lemma_noted_begins(
    out: outcome::OutcomeView,
    replicas: Seq<Seq<char>>,
    failure: Option<(Stage, Seq<char>)>,
)
    ensures
        begins(out, noted(out, replicas, failure)),
{
    match failure {
        Some((stage, detail)) => {
            outcome::law_failures_accumulate(out, outcome::stage_text(stage, replicas), detail);
        },
        None => {
            assert(out.backup.subrange(0, out.backup.len() as int) =~= out.backup);
            assert(out.recovery.subrange(0, out.recovery.len() as int) =~= out.recovery);
        },
    }
}

/// Once a stage has failed the run no longer counts as a success, however it
/// goes on.
pub proof fn law_failed_run_stays_failed(
    s: plan::RunView,
    events: Seq<(plan::ReplyView, Option<Seq<char>>)>,
)
    requires
        s.wf(),
        s.failures != outcome::OutcomeView::none(),
        accepted(s, events),
    ensures
        played(s, events).failures != outcome::OutcomeView::none(),
        begins(s.failures, played(s, events).failures),
    decreases events.len(),
{
    if events.len() > 0 {
        let t = played(s, events.drop_last());
        law_failed_run_stays_failed(s, events.drop_last());
        lemma_played_is_valid(s, events.drop_last());
        law_failures_are_kept(t, events.last().0, events.last().1);
        reveal(next);
        lemma_begins_transitive(s.failures, t.failures, played(s, events).failures);
    } else {
        lemma_noted_begins(s.failures, s.cfg.replica_repos, None);
    }
    if s.failures.backup.len() == 0 && s.failures.recovery.len() == 0 {
        assert(s.failures.backup =~= seq![]);
        assert(s.failures.recovery =~= seq![]);
    }
}

// ---------------------------------------------------------------------------
// Retention and replicas

/// Retention is applied only right after stale locks of the same repository
/// have been dropped.
pub proof fn law_unlock_precedes_retention(
    s: plan::RunView,
    reply: plan::ReplyView,
    latest: Option<Seq<char>>,
)
    requires
        s.wf(),
        s.accepts(reply, latest),
    ensures
        ({
            let t = s.step(reply, latest);
            &&& t.phase == Phase::Prune ==> s.request() == (plan::RequestView::Capture {
                repo: s.cfg.repo,
                args: restic::unlock_arguments(),
            })
            &&& t.phase matches Phase::Replica(i, Sync::Prune) ==> s.request() == (
            plan::RequestView::Capture {
                repo: s.cfg.replica_repos[i as int],
                args: restic::unlock_arguments(),
            })
        }),
{
    lemma_next_phase(s, (reply, latest));
    reveal(next);
    match s.phase {
        Phase::Replica(i, sync) => {
            assert(s.step(reply, latest) == s.sync_step(i, sync, reply));
        },
        _ => {},
    }
}

/// The primary repository and every replica get the same retention policy.
pub proof fn law_same_retention_everywhere(s: plan::RunView, i: usize)
    ensures
        s.at(Phase::Prune).request() == (plan::RequestView::Logged {
            repo: s.cfg.repo,
            args: restic::forget_arguments(s.cfg.retention),
        }),
        s.at(Phase::Replica(i, Sync::Prune)).request() == (plan::RequestView::Logged {
            repo: s.cfg.replica_repos[i as int],
            args: restic::forget_arguments(s.cfg.retention),
        }),
{
}

/// A copy that fails is tried again, after a pause and with stale locks
/// dropped, but at most five times in all; then the failure is recorded and
/// the run goes on.
pub proof fn law_copy_is_retried(s: plan::RunView, i: usize, attempt: u32, bootstrap: bool, e: Seq<char>)
    requires
        s.wf(),
        s.phase == Phase::Replica(i, Sync::Copy { attempt, bootstrap }),
        s.accepts(plan::ReplyView::Failed(e), None),
    ensures
        1 <= attempt <= 5,
        ({
            let t = s.step(plan::ReplyView::Failed(e), None);
            if attempt < 5 {
                let u = t.step(plan::ReplyView::Done, None);
                let v = u.step(plan::ReplyView::Failed(e), None);
                &&& t.request() == (plan::RequestView::Pause { secs: 60 })
                &&& t.failures == s.failures
                &&& u.request() == (plan::RequestView::Capture {
                    repo: s.cfg.replica_repos[i as int],
                    args: restic::unlock_arguments(),
                })
                &&& v.phase == Phase::Replica(
                    i,
                    Sync::Copy { attempt: (attempt + 1) as u32, bootstrap },
                )
                &&& v.request() == s.request()
            } else {
                &&& t.failures == s.failures.recorded(
                    outcome::stage_text(Stage::ReplicaSync(i), s.cfg.replica_repos),
                    e,
                )
                &&& !(t.phase matches Phase::Replica(j, _) && j == i)
            }
        }),
{
    lemma_next_phase(s, (plan::ReplyView::Failed(e), None));
    reveal(next);
    law_recorded_failures(s, plan::ReplyView::Failed(e), None);
}

/// A replica that holds no snapshot of the home directory, as one that was
/// just made, is sent all of them; any other is sent the new one.
pub proof fn law_replica_is_sent_what_it_lacks(
    s: plan::RunView,
    i: usize,
    list: Seq<snapshot::SnapshotView>,
)
    requires
        s.wf(),
        i < s.cfg.replica_repos.len(),
        s.new is Some,
    ensures
        s.at(Phase::Replica(i, Sync::Init)).step(plan::ReplyView::Done, None).request() == (
        plan::RequestView::Logged {
            repo: s.cfg.replica_repos[i as int],
            args: restic::copy_arguments(s.cfg, None),
        }),
        s.at(Phase::Replica(i, Sync::Listing)).step(
            plan::ReplyView::Snapshots(list),
            None,
        ).request() == (plan::RequestView::Logged {
            repo: s.cfg.replica_repos[i as int],
            args: restic::copy_arguments(
                s.cfg,
                if snapshot::some_of_home(list, s.cfg.home) {
                    s.new
                } else {
                    None
                },
            ),
        }),
{
}

/// A replica that is not reached, or that cannot be made, does not keep the
/// run from the next one.
pub proof fn law_replica_failure_does_not_block_the_next(
    s: plan::RunView,
    i: usize,
    sync: Sync,
    reply: plan::ReplyView,
)
    requires
        s.wf(),
        s.phase == Phase::Replica(i, sync),
        s.accepts(reply, None),
        i + 1 < s.cfg.replica_repos.len(),
    ensures
        s.step(reply, None).phase matches Phase::Replica(j, next) && (j == i || (j == i + 1 && next
            == Sync::Unlock)),
{
    lemma_next_phase(s, (reply, None));
    reveal(next);
}

// ---------------------------------------------------------------------------
// Retrieval

/// Whether the sample of the old snapshot is settled.
pub open spec fn sample_settled(phase: Phase) -> bool {
    !plan::before_backup(phase) || phase == Phase::PreRestore || phase == Phase::PreManifest
}

/// After the backup the same files of the same snapshot of the same repository
/// are restored again as before it.
pub proof fn law_original_sample_is_restored_again(
    s: plan::RunView,
    events: Seq<(plan::ReplyView, Option<Seq<char>>)>,
)
    requires
        s.wf(),
        s.phase == Phase::PreRestore,
        accepted(s, events),
    ensures
        ({
            let t = played(s, events);
            &&& sample_settled(t.phase)
            &&& t.old == s.old
            &&& t.sample_a == s.sample_a
            &&& t.phase == Phase::PostRestore ==> {
                &&& s.request() == (plan::RequestView::Restore {
                    repo: s.cfg.repo,
                    snapshot_id: s.old->0,
                    paths: s.sample_a,
                    label: "pre-backup"@,
                })
                &&& t.request() == (plan::RequestView::Restore {
                    repo: s.cfg.repo,
                    snapshot_id: s.old->0,
                    paths: s.sample_a,
                    label: "post-backup original sample"@,
                })
            }
        }),
    decreases events.len(),
{
    if events.len() > 0 {
        let t = played(s, events.drop_last());
        law_original_sample_is_restored_again(s, events.drop_last());
        lemma_played_is_valid(s, events.drop_last());
        lemma_next_phase(t, events.last());
        lemma_old_is_kept(t, events.last());
    }
}

proof fn lemma_old_is_kept(s: plan::RunView, e: (plan::ReplyView, Option<Seq<char>>))
    requires
        s.wf(),
        s.accepts(e.0, e.1),
        sample_settled(s.phase),
    ensures
        next(s, e).old == s.old,
        next(s, e).sample_a == s.sample_a,
        next(s, e).cfg == s.cfg,
{
    reveal(next);
    match s.phase {
        Phase::Replica(i, sync) => {
            assert(s.step(e.0, e.1) == s.sync_step(i, sync, e.0));
        },
        Phase::CheckListing(i) | Phase::CheckRestore(i) | Phase::CheckManifest(i) => {
            assert(s.step(e.0, e.1) == s.check_step(i, e.0));
        },
        _ => {},
    }
}

/// The sample of the new snapshot is taken with the sample of the old one left
/// out.
pub proof fn law_fresh_sample_leaves_the_original_out(s: plan::RunView)
    requires
        s.wf(),
        s.phase == Phase::NewSample,
    ensures
        s.request() matches plan::RequestView::Sample { snapshot_id, without, .. } && Some(
            snapshot_id,
        ) == s.new && without == s.sample_a,
        s.new != s.old,
{
}

/// What is asked of a replica is what was restored from the new snapshot.
pub proof fn law_replica_is_asked_for_the_fresh_sample(s: plan::RunView, i: usize)
    requires
        s.wf(),
        s.phase == Phase::CheckRestore(i),
    ensures
        s.request() matches plan::RequestView::Restore { repo, snapshot_id, paths, .. } && repo
            == s.cfg.replica_repos[i as int] && snapshot_id == s.target && paths == s.sample_b,
{
}

/// A check passes exactly if the restore worked and what was restored, where
/// there is something to compare it with, does not differ from it; then the
/// check counts, and so do its files.
pub proof fn law_checks_are_counted(
    s: plan::RunView,
    reply: plan::ReplyView,
    latest: Option<Seq<char>>,
)
    requires
        s.wf(),
        s.accepts(reply, latest),
    ensures
        ({
            let t = s.step(reply, latest);
            let passed = match s.phase {
                Phase::PreManifest | Phase::NewManifest => true,
                Phase::PostManifest | Phase::CheckManifest(_) => found_failure(
                    s,
                    reply,
                    latest,
                ) is None,
                _ => false,
            };
            if passed {
                t.checks_ok == s.checks_ok + 1 && t.files_verified == s.files_verified
                    + s.pending.len()
            } else {
                t.checks_ok == s.checks_ok && t.files_verified == s.files_verified
            }
        }),
{
    match s.phase {
        Phase::Replica(i, sync) => {
            assert(s.step(reply, latest) == s.sync_step(i, sync, reply));
        },
        Phase::CheckListing(i) | Phase::CheckRestore(i) | Phase::CheckManifest(i) => {
            assert(s.step(reply, latest) == s.check_step(i, reply));
        },
        _ => {},
    }
}

/// Without verification nothing is sampled, restored or written down, no check
/// counts, and no failure of recovery is recorded.
pub proof fn law_disabled_verification_restores_nothing(s: plan::RunView)
    requires
        s.wf(),
        !s.cfg.verification.enable,
    ensures
        !(s.request() is Sample),
        !(s.request() is Restore),
        !(s.request() is Manifest),
        s.checks_ok == 0,
        s.files_verified == 0,
        s.failures.recovery.len() == 0,
{
}

} // verus!
