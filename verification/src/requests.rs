//! What a run asks for, spelled out: each program call as restic gets it.

use vstd::prelude::*;
use crate::config;
use crate::plan::Phase;
use crate::plan::Sync;
use crate::plan;
use crate::snapshot;
use crate::text;

verus! {

/// A call that lists the snapshots of a repository.
pub open spec fn lists(request: plan::RequestView, repo: Seq<char>) -> bool {
    request == (plan::RequestView::List { repo, args: seq!["snapshots"@, "--json"@] })
}

/// A call that drops the stale locks of a repository.
pub open spec fn unlocks(request: plan::RequestView, repo: Seq<char>) -> bool {
    request == (plan::RequestView::Capture { repo, args: seq!["unlock"@] })
}

/// A call of restic whose output is logged.
pub open spec fn calls(request: plan::RequestView, repo: Seq<char>, args: Seq<Seq<char>>) -> bool {
    request == (plan::RequestView::Logged { repo, args })
}

/// Before anything is written the password is tried, stale locks are dropped,
/// other locks are looked for, and the snapshots are listed; a repository that
/// is not there is made.
pub proof fn law_requests_of_preflight(s: plan::RunView)
    requires
        s.wf(),
    ensures
        s.phase == Phase::Password ==> s.request() == plan::RequestView::Password(
            s.cfg.password_command,
        ),
        s.phase == Phase::Unlock ==> unlocks(s.request(), s.cfg.repo),
        s.phase == Phase::Locks ==> s.request() == (plan::RequestView::Capture {
            repo: s.cfg.repo,
            args: seq!["list"@, "locks"@, "--no-lock"@],
        }),
        s.phase == Phase::PreListing ==> lists(s.request(), s.cfg.repo),
        s.phase == Phase::Init ==> calls(s.request(), s.cfg.repo, seq!["init"@]),
{
}

/// The backup is of the home directory, with one slash at its end, without
/// what the exclude file names, and with all further arguments at the end.
/// Retention follows the four numbers of the settings.
pub proof fn law_requests_of_backup(s: plan::RunView)
    requires
        s.wf(),
    ensures
        s.phase == Phase::Backup ==> calls(
            s.request(),
            s.cfg.repo,
            seq![
                "backup"@,
                text::without_end_slashes(s.cfg.home) + "/"@,
                "--exclude-file"@,
                s.cfg.exclude_file,
                "--verbose=2"@,
            ] + s.cfg.extra_backup_args,
        ),
        s.phase == Phase::NewListing ==> lists(s.request(), s.cfg.repo),
        s.phase == Phase::PruneUnlock ==> unlocks(s.request(), s.cfg.repo),
        s.phase == Phase::Prune ==> calls(s.request(), s.cfg.repo, retention_call(s)),
{
}

/// The call that applies the retention policy of the settings.
pub open spec fn retention_call(s: plan::RunView) -> Seq<Seq<char>> {
    let keep = s.cfg.retention;
    seq![
        "forget"@,
        "--keep-daily"@,
        text::decimal(keep.daily as nat),
        "--keep-weekly"@,
        text::decimal(keep.weekly as nat),
        "--keep-monthly"@,
        text::decimal(keep.monthly as nat),
        "--keep-yearly"@,
        text::decimal(keep.yearly as nat),
        "--prune"@,
    ]
}

/// A replica is looked at, made and filled by calls on that replica; what is
/// copied comes from the primary repository: all snapshots of the home
/// directory to bootstrap it, and else the new snapshot alone.
pub proof fn law_requests_of_replicas(s: plan::RunView, i: usize, sync: Sync)
    requires
        s.wf(),
        s.phase == Phase::Replica(i, sync),
    ensures
        ({
            let repo = s.cfg.replica_repos[i as int];
            let source = seq![
                "--from-repo"@,
                s.cfg.repo,
                "--from-password-command"@,
                s.cfg.password_command,
            ];
            match sync {
                Sync::Unlock => unlocks(s.request(), repo),
                Sync::Listing => lists(s.request(), repo),
                Sync::Init => calls(
                    s.request(),
                    repo,
                    seq!["init"@, "--copy-chunker-params"@] + source,
                ),
                Sync::Copy { attempt, bootstrap } => if bootstrap {
                    calls(
                        s.request(),
                        repo,
                        seq!["copy"@] + source + seq![
                            "--path"@,
                            text::without_end_slashes(s.cfg.home),
                        ],
                    )
                } else {
                    s.new is Some && calls(
                        s.request(),
                        repo,
                        seq!["copy"@] + source + seq![s.new->0],
                    )
                },
                Sync::Pause { .. } => s.request() == (plan::RequestView::Pause { secs: 60 }),
                Sync::RetryUnlock { .. } => unlocks(s.request(), repo),
                Sync::PruneUnlock => unlocks(s.request(), repo),
                Sync::Prune => calls(s.request(), repo, retention_call(s)),
            }
        }),
{
    match sync {
        Sync::Init => {
            assert(seq!["init"@, "--copy-chunker-params"@] + seq![
                "--from-repo"@,
                s.cfg.repo,
                "--from-password-command"@,
                s.cfg.password_command,
            ] =~= seq![
                "init"@,
                "--copy-chunker-params"@,
                "--from-repo"@,
                s.cfg.repo,
                "--from-password-command"@,
                s.cfg.password_command,
            ]);
        },
        Sync::Copy { attempt, bootstrap } => {
            let from = seq![
                "copy"@,
                "--from-repo"@,
                s.cfg.repo,
                "--from-password-command"@,
                s.cfg.password_command,
            ];
            let source = seq![
                "--from-repo"@,
                s.cfg.repo,
                "--from-password-command"@,
                s.cfg.password_command,
            ];
            let home = text::without_end_slashes(s.cfg.home);
            assert(seq!["copy"@] + source + seq!["--path"@, home] =~= from.push("--path"@).push(
                home,
            ));
            if !bootstrap {
                assert(seq!["copy"@] + source + seq![s.new->0] =~= from.push(s.new->0));
            }
        },
        _ => {},
    }
}

/// A call that samples a snapshot of the primary repository.
pub open spec fn samples(
    s: plan::RunView,
    snapshot_id: Option<Seq<char>>,
    without: Seq<Seq<char>>,
) -> bool {
    &&& snapshot_id is Some
    &&& s.request() == (plan::RequestView::Sample {
        repo: s.cfg.repo,
        snapshot_id: snapshot_id->0,
        args: seq!["ls"@, snapshot_id->0, "--json"@],
        size: s.cfg.verification.sample_size,
        without,
    })
}

/// A call that restores paths of a snapshot.
pub open spec fn restores(
    s: plan::RunView,
    repo: Seq<char>,
    snapshot_id: Option<Seq<char>>,
    paths: Seq<Seq<char>>,
    label: Seq<char>,
) -> bool {
    &&& snapshot_id is Some
    &&& s.request() == (plan::RequestView::Restore {
        repo,
        snapshot_id: snapshot_id->0,
        paths,
        label,
    })
}

/// What is tested of the primary repository: a sample of the old snapshot,
/// before the backup and again after it, and a sample of the new snapshot that
/// leaves the first one out.
pub proof fn law_requests_of_retrieval(s: plan::RunView)
    requires
        s.wf(),
    ensures
        s.phase == Phase::PreSample ==> samples(s, s.old, Seq::empty()),
        s.phase == Phase::PreRestore ==> restores(
            s,
            s.cfg.repo,
            s.old,
            s.sample_a,
            "pre-backup"@,
        ),
        s.phase == Phase::PreManifest ==> s.request() == (plan::RequestView::Manifest {
            name: "pre-old-snapshot"@,
            files: s.pending,
        }),
        s.phase == Phase::PostListing ==> lists(s.request(), s.cfg.repo),
        s.phase == Phase::PostRestore ==> restores(
            s,
            s.cfg.repo,
            s.old,
            s.sample_a,
            "post-backup original sample"@,
        ),
        s.phase == Phase::PostManifest ==> s.request() == (plan::RequestView::Manifest {
            name: "post-old-snapshot"@,
            files: s.pending,
        }),
        s.phase == Phase::NewSample ==> samples(s, s.new, s.sample_a),
        s.phase == Phase::NewRestore ==> restores(
            s,
            s.cfg.repo,
            s.new,
            s.sample_b,
            "new-snapshot sample"@,
        ),
        s.phase == Phase::NewManifest ==> s.request() == (plan::RequestView::Manifest {
            name: "post-new-snapshot"@,
            files: s.pending,
        }),
{
}

/// A replica is checked by listing that replica and by restoring, from that
/// replica too, the paths that were sampled from the new snapshot; the
/// manifest is numbered from one.
pub proof fn law_requests_of_replica_checks(s: plan::RunView, i: usize)
    requires
        s.wf(),
    ensures
        s.phase == Phase::CheckListing(i) ==> lists(s.request(), s.cfg.replica_repos[i as int]),
        s.phase == Phase::CheckRestore(i) ==> restores(
            s,
            s.cfg.replica_repos[i as int],
            Some(s.target),
            s.sample_b,
            "replica retrieval "@ + s.cfg.replica_repos[i as int],
        ),
        s.phase == Phase::CheckManifest(i) ==> s.request() == (plan::RequestView::Manifest {
            name: "replica-"@ + text::decimal((i + 1) as nat),
            files: s.pending,
        }),
{
}

/// A run that has ended asks for nothing more, and one that was refused says
/// why.
pub proof fn law_requests_of_ended_runs(s: plan::RunView)
    ensures
        s.phase == Phase::Finished <==> s.request() == plan::RequestView::Finish,
        s.phase == Phase::Refused <==> s.request() is Refuse,
        s.phase == Phase::Refused ==> s.request() == plan::RequestView::Refuse(s.refusal),
{
}

/// Every request can be answered: by what it asks for or by a failure, and a
/// pause by its end. Only a listing whose latest snapshot has to be shown and
/// has no short form is turned away.
pub proof fn law_every_answer_is_taken(
    s: plan::RunView,
    reply: plan::ReplyView,
    latest: Option<Seq<char>>,
)
    requires
        s.wf(),
        s.failures.backup.len() + s.failures.recovery.len() + 2 <= usize::MAX,
        s.checks_ok < u32::MAX,
        s.files_verified + s.pending.len() <= u64::MAX,
        latest is Some ==> snapshot::can_shorten(latest->0),
    ensures
        s.accepts(reply, latest) <==> match s.request() {
            plan::RequestView::Password(_) => reply is Done || reply is Failed,
            plan::RequestView::Capture { .. } => reply is Output || reply is Failed,
            plan::RequestView::List { .. } => reply is Snapshots || reply is Failed,
            plan::RequestView::Logged { .. } => reply is Done || reply is Failed,
            plan::RequestView::Sample { .. } => reply is Sample || reply is Failed,
            plan::RequestView::Restore { .. } => reply is Files || reply is Failed,
            plan::RequestView::Manifest { .. } => reply is Done || reply is Failed,
            plan::RequestView::Pause { .. } => reply is Done,
            plan::RequestView::Finish | plan::RequestView::Refuse(_) => false,
        },
{
}

/// A run begins with the password and with nothing known.
pub proof fn law_run_begins_with_nothing(cfg: config::ConfigView)
    requires
        cfg.replica_repos.len() <= usize::MAX,
    ensures
        ({
            let s = plan::RunView::initial(cfg);
            &&& s.wf()
            &&& s.cfg == cfg
            &&& s.phase == Phase::Password
            &&& s.old is None && s.new is None
            &&& s.manifest_a is None && s.manifest_b is None
            &&& s.sample_a.len() == 0 && s.sample_b.len() == 0 && s.pending.len() == 0
            &&& s.checks_ok == 0 && s.files_verified == 0
            &&& s.failures.backup.len() == 0 && s.failures.recovery.len() == 0
            &&& s.log.len() == 0
            &&& !s.backup_ok
        }),
{
}

} // verus!
