//! What a reply does to a run: where it leads, what it changes, and what is
//! logged.

use vstd::prelude::*;
use crate::outcome;
use crate::plan::Phase;
use crate::plan::ReplyView;
use crate::plan::RunView;
use crate::plan::Sync;
use crate::plan;
use crate::promises;
use crate::restic;
use crate::snapshot;
use crate::text;

verus! {

// ---------------------------------------------------------------------------
// Where a reply leads

/// Where a run goes once the sample of the new snapshot is dealt with: to the
/// first replica, if there is one and something to compare it with.
pub open spec fn checks_come(s: RunView) -> Phase {
    if s.cfg.verification.enable && s.new is Some && s.manifest_b is Some
        && s.cfg.replica_repos.len() > 0 {
        Phase::CheckListing(0)
    } else {
        Phase::Finished
    }
}

/// Where a run goes once the sample of the old snapshot is dealt with.
pub open spec fn fresh_sample_comes(s: RunView) -> Phase {
    if s.cfg.verification.enable && s.new is Some {
        Phase::NewSample
    } else {
        checks_come(s)
    }
}

/// Where a run goes once the replica before the one at `i` is up to date.
pub open spec fn replica_comes(s: RunView, i: int) -> Phase {
    if i < s.cfg.replica_repos.len() {
        Phase::Replica(i as usize, Sync::Unlock)
    } else if s.manifest_a is Some && s.old is Some {
        Phase::PostListing
    } else {
        fresh_sample_comes(s)
    }
}

/// Where a run goes once the replica before the one at `i` is checked.
pub open spec fn check_comes(s: RunView, i: int) -> Phase {
    if i < s.cfg.replica_repos.len() {
        Phase::CheckListing(i as usize)
    } else {
        Phase::Finished
    }
}

/// Where the reply leads while a replica is brought up to date, if `t` is the
/// state that it leads to.
pub open spec fn leads_at_replica(
    s: RunView,
    i: usize,
    sync: Sync,
    reply: ReplyView,
    t: RunView,
) -> bool {
    t.phase == match (sync, reply) {
        (Sync::Unlock, _) => Phase::Replica(i, Sync::Listing),
        (Sync::Listing, ReplyView::Snapshots(list)) => if !snapshot::some_of_home(
            list,
            s.cfg.home,
        ) {
            Phase::Replica(i, Sync::Copy { attempt: 1, bootstrap: true })
        } else if s.new is Some {
            Phase::Replica(i, Sync::Copy { attempt: 1, bootstrap: false })
        } else {
            replica_comes(t, i + 1)
        },
        (Sync::Listing, _) => Phase::Replica(i, Sync::Init),
        (Sync::Init, ReplyView::Failed(_)) => replica_comes(t, i + 1),
        (Sync::Init, _) => Phase::Replica(i, Sync::Copy { attempt: 1, bootstrap: true }),
        (Sync::Copy { attempt, bootstrap }, ReplyView::Failed(_)) => if attempt < 5 {
            Phase::Replica(i, Sync::Pause { attempt, bootstrap })
        } else {
            replica_comes(t, i + 1)
        },
        (Sync::Copy { .. }, _) => Phase::Replica(i, Sync::PruneUnlock),
        (Sync::Pause { attempt, bootstrap }, _) => Phase::Replica(
            i,
            Sync::RetryUnlock { attempt, bootstrap },
        ),
        (Sync::RetryUnlock { attempt, bootstrap }, _) => Phase::Replica(
            i,
            Sync::Copy { attempt: (attempt + 1) as u32, bootstrap },
        ),
        (Sync::PruneUnlock, _) => Phase::Replica(i, Sync::Prune),
        (Sync::Prune, _) => replica_comes(t, i + 1),
    }
}

/// Where the reply leads before and during the backup.
pub open spec fn leads_early(
    s: RunView,
    reply: ReplyView,
    latest: Option<Seq<char>>,
    t: RunView,
) -> bool {
    let failed = reply is Failed;
    t.phase == match s.phase {
        Phase::Password => if failed {
            Phase::Refused
        } else {
            Phase::Unlock
        },
        Phase::Unlock => Phase::Locks,
        Phase::Locks => if reply is Output && restic::shows_lock(reply->Output_0) {
            Phase::Refused
        } else {
            Phase::PreListing
        },
        Phase::PreListing => if failed {
            Phase::Init
        } else if s.cfg.verification.enable && latest is Some {
            Phase::PreSample
        } else {
            Phase::Backup
        },
        Phase::Init => if failed {
            Phase::Refused
        } else {
            Phase::Backup
        },
        Phase::PreSample => if failed {
            Phase::Backup
        } else {
            Phase::PreRestore
        },
        Phase::PreRestore => if failed {
            Phase::Backup
        } else {
            Phase::PreManifest
        },
        Phase::PreManifest => Phase::Backup,
        Phase::Backup => Phase::NewListing,
        Phase::NewListing => Phase::PruneUnlock,
        Phase::PruneUnlock => Phase::Prune,
        _ => replica_comes(t, 0),
    }
}

/// Where the reply leads after the replicas have been brought up to date.
pub open spec fn leads_late(s: RunView, reply: ReplyView, t: RunView) -> bool {
    let failed = reply is Failed;
    t.phase == match s.phase {
        Phase::PostListing => if !failed && snapshot::id_listed(reply->Snapshots_0, s.old->0) {
            Phase::PostRestore
        } else {
            fresh_sample_comes(t)
        },
        Phase::PostRestore => if failed {
            fresh_sample_comes(t)
        } else {
            Phase::PostManifest
        },
        Phase::PostManifest => fresh_sample_comes(t),
        Phase::NewSample => if !failed && reply->Sample_0.len() > 0 {
            Phase::NewRestore
        } else {
            checks_come(t)
        },
        Phase::NewRestore => if failed {
            checks_come(t)
        } else {
            Phase::NewManifest
        },
        Phase::NewManifest => checks_come(t),
        Phase::CheckListing(i) => if !failed && snapshot::first_copy(
            reply->Snapshots_0,
            s.new->0,
        ) is Some {
            Phase::CheckRestore(i)
        } else {
            check_comes(t, i + 1)
        },
        Phase::CheckRestore(i) => if failed {
            check_comes(t, i + 1)
        } else {
            Phase::CheckManifest(i)
        },
        Phase::CheckManifest(i) => check_comes(t, i + 1),
        _ => s.phase,
    }
}

/// Whether a phase comes before the replicas.
pub open spec fn is_early(phase: Phase) -> bool {
    plan::before_backup(phase) || phase == Phase::Backup || phase == Phase::NewListing || phase
        == Phase::PruneUnlock || phase == Phase::Prune
}

/// Where a reply leads from each phase up to retention on the primary
/// repository.
pub proof fn law_early_replies_lead_on(s: RunView, reply: ReplyView, latest: Option<Seq<char>>)
    requires
        s.wf(),
        s.accepts(reply, latest),
        is_early(s.phase),
    ensures
        leads_early(s, reply, latest, s.step(reply, latest)),
{
}

/// Where a reply leads while a replica is brought up to date. A copy that
/// failed is tried again as it was, whatever the unlock before it came to.
pub proof fn law_replica_replies_lead_on(
    s: RunView,
    i: usize,
    sync: Sync,
    reply: ReplyView,
    latest: Option<Seq<char>>,
)
    requires
        s.wf(),
        s.accepts(reply, latest),
        s.phase == Phase::Replica(i, sync),
    ensures
        leads_at_replica(s, i, sync, reply, s.step(reply, latest)),
{
    assert(s.step(reply, latest) == s.sync_step(i, sync, reply));
}

/// Where a reply leads from each phase after the replicas.
pub proof fn law_late_replies_lead_on(s: RunView, reply: ReplyView, latest: Option<Seq<char>>)
    requires
        s.wf(),
        s.accepts(reply, latest),
        !is_early(s.phase),
        !(s.phase is Replica),
    ensures
        leads_late(s, reply, s.step(reply, latest)),
{
}

/// A copy that failed, unless it was the last try, is asked for again in the
/// very same words once the pause is over and stale locks have been dropped,
/// whatever came of that: a bootstrap stays a bootstrap.
pub proof fn law_failed_copy_is_asked_for_again(
    s: RunView,
    e: Seq<char>,
    unlocked: ReplyView,
    i: usize,
    attempt: u32,
    bootstrap: bool,
    latest: Option<Seq<char>>,
)
    requires
        s.wf(),
        s.phase == Phase::Replica(i, Sync::Copy { attempt, bootstrap }),
        s.accepts(ReplyView::Failed(e), latest),
        attempt < 5,
        unlocked is Output || unlocked is Failed,
    ensures
        ({
            let paused = s.step(ReplyView::Failed(e), latest);
            let over = paused.step(ReplyView::Done, latest);
            let again = over.step(unlocked, latest);
            &&& paused.accepts(ReplyView::Done, latest)
            &&& over.accepts(unlocked, latest)
            &&& again.request() == s.request()
            &&& again.failures == s.failures
            &&& again.phase == Phase::Replica(
                i,
                Sync::Copy { attempt: (attempt + 1) as u32, bootstrap },
            )
        }),
{
}

/// What is restored to check a replica is a snapshot that this very replica
/// listed, and the first one there that is the new snapshot or a copy of it.
pub proof fn law_replica_restores_what_it_listed(
    s: RunView,
    i: usize,
    list: Seq<snapshot::SnapshotView>,
    latest: Option<Seq<char>>,
)
    requires
        s.wf(),
        s.phase == Phase::CheckListing(i),
        s.accepts(ReplyView::Snapshots(list), latest),
        s.step(ReplyView::Snapshots(list), latest).phase == Phase::CheckRestore(i),
    ensures
        ({
            let t = s.step(ReplyView::Snapshots(list), latest);
            &&& s.request() matches plan::RequestView::List { repo: listed, .. }
            &&& t.request() matches plan::RequestView::Restore { repo, snapshot_id, paths, .. }
            &&& repo == listed
            &&& paths == s.sample_b
            &&& exists|j: int|
                #![trigger list[j]]
                0 <= j < list.len() && list[j].id == snapshot_id && (Some(list[j].id) == s.new
                    || list[j].original == s.new)
        }),
{
    lemma_copy_is_listed(list, s.new->0);
}

proof fn lemma_copy_is_listed(list: Seq<snapshot::SnapshotView>, id: Seq<char>)
    ensures
        snapshot::first_copy(list, id) matches Some(c) ==> exists|j: int|
            #![trigger list[j]]
            0 <= j < list.len() && list[j] == c && (c.id == id || c.original == Some(id)),
    decreases list.len(),
{
    if list.len() > 0 {
        let front = list.drop_last();
        lemma_copy_is_listed(front, id);
        if let Some(c) = snapshot::first_copy(front, id) {
            let j = choose|j: int|
                #![trigger front[j]]
                0 <= j < front.len() && front[j] == c && (c.id == id || c.original == Some(id));
            assert(list[j] == c);
        } else {
            assert(list[list.len() - 1] == list.last());
        }
    }
}

// ---------------------------------------------------------------------------
// What a reply changes

/// What `t` holds besides its phase, its failures, its counts and its log, if
/// it is the state that the reply leads to.
pub open spec fn changes(
    s: RunView,
    reply: ReplyView,
    latest: Option<Seq<char>>,
    t: RunView,
) -> bool {
    let failed = reply is Failed;
    &&& t.cfg == s.cfg
    &&& t.old == if s.phase == Phase::PreListing && !failed {
        latest
    } else {
        s.old
    }
    &&& t.new == if s.phase == Phase::NewListing && !failed && latest != s.old {
        latest
    } else {
        s.new
    }
    &&& t.backup_ok == if s.phase == Phase::Backup {
        !failed
    } else {
        s.backup_ok
    }
    &&& t.sample_a == if s.phase == Phase::PreSample && !failed {
        reply->Sample_0
    } else {
        s.sample_a
    }
    &&& t.sample_b == if s.phase == Phase::NewSample && !failed {
        reply->Sample_0
    } else {
        s.sample_b
    }
    &&& t.manifest_a == if s.phase == Phase::PreManifest {
        Some(s.pending)
    } else {
        s.manifest_a
    }
    &&& t.manifest_b == if s.phase == Phase::NewManifest {
        Some(s.pending)
    } else {
        s.manifest_b
    }
    &&& t.pending == if reply is Files {
        reply->Files_0
    } else {
        s.pending
    }
    &&& t.target == if s.phase is CheckListing && !failed && snapshot::first_copy(
        reply->Snapshots_0,
        s.new->0,
    ) is Some {
        snapshot::first_copy(reply->Snapshots_0, s.new->0)->0.id
    } else {
        s.target
    }
}

/// Each reply changes only what it tells of: a listing before the backup gives
/// the old snapshot, one after it the new one, a sample is kept for its
/// snapshot, what was restored becomes the manifest once it has been written
/// down, and a listing of a replica names what is restored there.
pub proof fn law_reply_changes_what_it_tells_of(
    s: RunView,
    reply: ReplyView,
    latest: Option<Seq<char>>,
)
    requires
        s.wf(),
        s.accepts(reply, latest),
    ensures
        changes(s, reply, latest, s.step(reply, latest)),
{
    if is_early(s.phase) {
        lemma_changes_early(s, reply, latest);
    } else if s.phase is Replica {
        lemma_changes_at_replica(s, reply, latest);
    } else {
        lemma_changes_late(s, reply, latest);
    }
}

proof fn lemma_changes_early(s: RunView, reply: ReplyView, latest: Option<Seq<char>>)
    requires
        s.wf(),
        s.accepts(reply, latest),
        is_early(s.phase),
    ensures
        changes(s, reply, latest, s.step(reply, latest)),
{
}

proof fn lemma_changes_at_replica(s: RunView, reply: ReplyView, latest: Option<Seq<char>>)
    requires
        s.wf(),
        s.accepts(reply, latest),
        s.phase is Replica,
    ensures
        changes(s, reply, latest, s.step(reply, latest)),
{
    assert(s.step(reply, latest) == s.sync_step(s.phase->Replica_0, s.phase->Replica_1, reply));
}

proof fn lemma_changes_late(s: RunView, reply: ReplyView, latest: Option<Seq<char>>)
    requires
        s.wf(),
        s.accepts(reply, latest),
        !is_early(s.phase),
        !(s.phase is Replica),
    ensures
        changes(s, reply, latest, s.step(reply, latest)),
{
}

/// Why a run is refused: the password, a lock, or a repository that can
/// neither be reached nor made.
pub proof fn law_refusals_say_why(s: RunView, reply: ReplyView, latest: Option<Seq<char>>)
    requires
        s.wf(),
        s.accepts(reply, latest),
        s.step(reply, latest).phase == Phase::Refused,
    ensures
        s.step(reply, latest).refusal == match (s.phase, reply) {
            (Phase::Password, ReplyView::Failed(e)) =>
                "cannot resolve restic password via configured passwordCommand"@ + ": "@ + e,
            (Phase::Init, ReplyView::Failed(e)) =>
                "cannot reach or initialize the primary repository"@ + ": "@ + e,
            _ => "restic repo is locked — another backup is still running"@,
        },
        s.phase == Phase::Password || s.phase == Phase::Locks || s.phase == Phase::Init,
{
    if is_early(s.phase) {
        law_early_replies_lead_on(s, reply, latest);
    } else {
        promises::law_only_preflight_refuses(s, reply, latest);
    }
}

/// The latest snapshot that a reply lists is the one of the home directory
/// that comes behind all others.
pub proof fn law_listing_gives_the_latest(s: RunView, list: Seq<snapshot::SnapshotView>) -> (i:
    int)
    ensures
        snapshot::some_of_home(list, s.cfg.home) ==> snapshot::is_latest(
            list,
            snapshot::order_nanos_of(list),
            s.cfg.home,
            i,
        ) && s.latest_in(ReplyView::Snapshots(list)) == Some(list[i].id),
        !snapshot::some_of_home(list, s.cfg.home) ==> s.latest_in(ReplyView::Snapshots(list))
            is None,
        forall|reply: ReplyView| !(reply is Snapshots) ==> (#[trigger] s.latest_in(reply)) is None,
{
    snapshot::law_latest_is_selected(list, snapshot::order_nanos_of(list), s.cfg.home)
}

// ---------------------------------------------------------------------------
// What is logged

/// The line of a failure, if there is one.
pub open spec fn failure_line(
    failure: Option<(outcome::Stage, Seq<char>)>,
    replicas: Seq<Seq<char>>,
) -> Seq<Seq<char>> {
    match failure {
        Some((stage, detail)) => seq![
            "FAILURE ["@ + outcome::stage_text(stage, replicas) + "]: "@ + detail,
        ],
        None => seq![],
    }
}

/// What a reply gives occasion to say.
pub open spec fn remark(
    s: RunView,
    reply: ReplyView,
    latest: Option<Seq<char>>,
    t: RunView,
) -> Seq<Seq<char>> {
    let failed = reply is Failed;
    match s.phase {
        Phase::PreListing => if failed {
            seq!["Initializing restic repository..."@]
        } else if s.cfg.verification.enable && latest is None {
            seq!["no previous home snapshot — skipping pre-backup retrieval test"@]
        } else {
            seq![]
        },
        Phase::Init => if !failed && s.cfg.verification.enable {
            seq!["no previous home snapshot — skipping pre-backup retrieval test"@]
        } else {
            seq![]
        },
        Phase::NewListing => if t.new is Some {
            seq!["new snapshot: "@ + snapshot::shortened(t.new->0)]
        } else {
            seq![]
        },
        Phase::Replica(i, sync) => match sync {
            Sync::Listing => if failed {
                seq![
                    "initializing replica repository "@ + s.cfg.replica_repos[i as int]
                        + " (chunker params copied from primary)"@,
                ]
            } else if !snapshot::some_of_home(reply->Snapshots_0, s.cfg.home) {
                seq!["bootstrapping replica with all retained home snapshots"@]
            } else if s.new is None {
                seq!["no new snapshot this run — nothing to copy to the replica"@]
            } else {
                seq![]
            },
            Sync::Init => if !failed {
                seq!["bootstrapping replica with all retained home snapshots"@]
            } else {
                seq![]
            },
            Sync::Copy { attempt, .. } => if failed && attempt < 5 {
                seq![
                    "replica copy attempt "@ + text::decimal(attempt as nat) + "/"@
                        + text::decimal(5) + " failed ("@ + reply->Failed_0
                        + "); retrying in 60s — already-copied data is skipped on resume"@,
                ]
            } else {
                seq![]
            },
            _ => seq![],
        },
        Phase::PostListing => if !failed && !snapshot::id_listed(reply->Snapshots_0, s.old->0) {
            seq![
                "old snapshot was removed by the retention policy — skipping original-sample comparison"@,
            ]
        } else {
            seq![]
        },
        Phase::PostManifest => if promises::found_failure(s, reply, latest) is None {
            seq!["original sample manifests match byte-for-byte"@]
        } else {
            seq![]
        },
        Phase::NewSample => if !failed && reply->Sample_0.len() == 0 {
            seq![
                "no eligible files outside the original sample — skipping new-snapshot restore test"@,
            ]
        } else {
            seq![]
        },
        Phase::CheckManifest(_) => if promises::found_failure(s, reply, latest) is None {
            seq!["replica sample matches the primary manifest"@]
        } else {
            seq![]
        },
        _ => seq![],
    }
}

/// What is said where the checks of replicas are left out although there are
/// replicas and checks are wanted.
pub open spec fn farewell(t: RunView) -> Seq<Seq<char>> {
    if t.phase == Phase::Finished && t.cfg.verification.enable && t.cfg.replica_repos.len() > 0
        && (t.new is None || t.manifest_b is None) {
        seq!["skipping replica retrieval tests — no new snapshot or no fresh sample this run"@]
    } else {
        seq![]
    }
}

/// The heading of the part of a run that begins with a phase.
pub open spec fn heading(t: RunView) -> Seq<Seq<char>> {
    match t.phase {
        Phase::PreSample => seq![
            "--- pre-backup retrieval test (snapshot "@ + snapshot::shortened(t.old->0)
                + ") ---"@,
        ],
        Phase::Backup => seq!["--- backup ---"@],
        Phase::PruneUnlock => seq!["--- retention (primary) ---"@],
        Phase::Replica(i, Sync::Unlock) => seq![
            "--- replica sync: "@ + t.cfg.replica_repos[i as int] + " ---"@,
        ],
        Phase::PostListing => seq![
            "--- post-backup retrieval test: original sample, snapshot "@ + snapshot::shortened(
                t.old->0,
            ) + " ---"@,
        ],
        Phase::NewSample => seq![
            "--- post-backup retrieval test: fresh sample from new snapshot "@
                + snapshot::shortened(t.new->0) + " ---"@,
        ],
        Phase::CheckListing(i) => seq![
            "--- replica retrieval test: "@ + t.cfg.replica_repos[i as int] + " ---"@,
        ],
        _ => seq![],
    }
}

/// What is logged when a reply leads from `s` to `t`.
pub open spec fn says(
    s: RunView,
    reply: ReplyView,
    latest: Option<Seq<char>>,
    t: RunView,
) -> bool {
    let replicas = s.cfg.replica_repos;
    t.log == s.log + failure_line(promises::told_failure(s, reply), replicas) + failure_line(
        promises::found_failure(s, reply, latest),
        replicas,
    ) + remark(s, reply, latest, t) + farewell(t) + heading(t)
}

/// What is logged of a reply: the failures that it brings, what else is to be
/// said of it, and the heading of what comes next; what was logged before
/// stays.
pub proof fn law_log_tells_of_every_reply(s: RunView, reply: ReplyView, latest: Option<Seq<char>>)
    requires
        s.wf(),
        s.accepts(reply, latest),
    ensures
        says(s, reply, latest, s.step(reply, latest)),
{
    match s.phase {
        Phase::Prune => lemma_says_at_prune(s, reply, latest),
        Phase::Replica(..) => lemma_says_at_replica(s, reply, latest),
        Phase::PostListing | Phase::PostRestore => lemma_says_after_post(s, reply, latest),
        Phase::PostManifest => lemma_says_after_comparison(s, reply, latest),
        Phase::NewSample | Phase::NewRestore | Phase::NewManifest => lemma_says_after_new(
            s,
            reply,
            latest,
        ),
        Phase::CheckListing(_) | Phase::CheckRestore(_) => lemma_says_after_check(
            s,
            reply,
            latest,
        ),
        Phase::CheckManifest(_) => lemma_says_after_replica_comparison(s, reply, latest),
        _ => lemma_says_early(s, reply, latest),
    }
}

broadcast proof fn lemma_add_nothing(x: Seq<Seq<char>>)
    ensures
        #[trigger] (x + Seq::<Seq<char>>::empty()) == x,
{
    assert(x + Seq::<Seq<char>>::empty() =~= x);
}

broadcast proof fn lemma_add_one(x: Seq<Seq<char>>, a: Seq<char>)
    ensures
        #[trigger] (x + Seq::<Seq<char>>::empty().push(a)) == x.push(a),
{
    assert(x + Seq::<Seq<char>>::empty().push(a) =~= x.push(a));
}

proof fn lemma_says_early(s: RunView, reply: ReplyView, latest: Option<Seq<char>>)
    requires
        s.wf(),
        s.accepts(reply, latest),
        is_early(s.phase),
        s.phase != Phase::Prune,
    ensures
        says(s, reply, latest, s.step(reply, latest)),
{
    broadcast use {lemma_add_nothing, lemma_add_one};

}

proof fn lemma_says_at_prune(s: RunView, reply: ReplyView, latest: Option<Seq<char>>)
    requires
        s.wf(),
        s.accepts(reply, latest),
        s.phase == Phase::Prune,
    ensures
        says(s, reply, latest, s.step(reply, latest)),
{
    broadcast use {lemma_add_nothing, lemma_add_one};

}

proof fn lemma_says_at_replica(s: RunView, reply: ReplyView, latest: Option<Seq<char>>)
    requires
        s.wf(),
        s.accepts(reply, latest),
        s.phase is Replica,
    ensures
        says(s, reply, latest, s.step(reply, latest)),
{
    broadcast use {lemma_add_nothing, lemma_add_one};

    let (i, sync) = (s.phase->Replica_0, s.phase->Replica_1);
    assert(s.step(reply, latest) == s.sync_step(i, sync, reply));
}

proof fn lemma_says_after_post(s: RunView, reply: ReplyView, latest: Option<Seq<char>>)
    requires
        s.wf(),
        s.accepts(reply, latest),
        s.phase == Phase::PostListing || s.phase == Phase::PostRestore,
    ensures
        says(s, reply, latest, s.step(reply, latest)),
{
    broadcast use {lemma_add_nothing, lemma_add_one};

}

proof fn lemma_says_after_comparison(s: RunView, reply: ReplyView, latest: Option<Seq<char>>)
    requires
        s.wf(),
        s.accepts(reply, latest),
        s.phase == Phase::PostManifest,
    ensures
        says(s, reply, latest, s.step(reply, latest)),
{
    broadcast use {lemma_add_nothing, lemma_add_one};

}

proof fn lemma_says_after_new(s: RunView, reply: ReplyView, latest: Option<Seq<char>>)
    requires
        s.wf(),
        s.accepts(reply, latest),
        s.phase == Phase::NewSample || s.phase == Phase::NewRestore || s.phase == Phase::NewManifest,
    ensures
        says(s, reply, latest, s.step(reply, latest)),
{
    broadcast use {lemma_add_nothing, lemma_add_one};

}

proof fn lemma_says_after_check(s: RunView, reply: ReplyView, latest: Option<Seq<char>>)
    requires
        s.wf(),
        s.accepts(reply, latest),
        s.phase is CheckListing || s.phase is CheckRestore,
    ensures
        says(s, reply, latest, s.step(reply, latest)),
{
    broadcast use {lemma_add_nothing, lemma_add_one};

}

proof fn lemma_says_after_replica_comparison(s: RunView, reply: ReplyView, latest: Option<Seq<char>>)
    requires
        s.wf(),
        s.accepts(reply, latest),
        s.phase is CheckManifest,
    ensures
        says(s, reply, latest, s.step(reply, latest)),
{
    broadcast use {lemma_add_nothing, lemma_add_one};

}

// ---------------------------------------------------------------------------
// Words

/// A backup that reported success and left no new snapshot is complained of:
/// in one way where none of the home directory is listed, and in another where
/// the latest is the one that was there before.
pub proof fn law_missing_snapshot_is_complained_of(
    old: Option<Seq<char>>,
    latest: Option<Seq<char>>,
)
    ensures
        plan::backup_complaint(old, None) == Some("no home snapshot found after backup"@),
        latest is Some ==> plan::backup_complaint(latest, latest) == Some(
            "backup reported success but produced no new snapshot"@,
        ),
        latest is Some && latest != old ==> plan::backup_complaint(old, latest) is None,
{
}

/// Differences are told with their number and the first ten of them.
pub proof fn law_differences_are_told(diffs: Seq<Seq<char>>)
    ensures
        plan::difference_text(diffs) == text::decimal(diffs.len()) + " difference(s): "@
            + text::join(
            if diffs.len() <= 10 {
                diffs
            } else {
                diffs.take(10)
            },
            "; "@,
        ),
{
    if diffs.len() < 10 {
        assert(diffs.take(diffs.len() as int) =~= diffs);
    }
    if diffs.len() == 10 {
        assert(diffs.take(10) =~= diffs);
    }
}

} // verus!
