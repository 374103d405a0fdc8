//! What the values of this library hold: their views leave nothing out and
//! change nothing.

use vstd::prelude::*;
use vstd::string::*;
use crate::config::Config;
use crate::config::Invocation;
use crate::config;
use crate::manifest::RestoredFile;
use crate::manifest;
use crate::outcome::Outcome;
use crate::plan::Reply;
use crate::plan::Request;
use crate::plan;
use crate::run;
use crate::sample;
use crate::snapshot::Snapshot;
use crate::snapshot;
use crate::status::HalfStatus;
use crate::status::Status;
use crate::status;
use crate::text;

verus! {

/// The texts of a list are its strings, one for one and in their order.
pub proof fn law_lists_show_every_text(v: Seq<String>, w: Seq<String>, s: String, i: int)
    ensures
        text::texts(v).len() == v.len(),
        0 <= i < v.len() ==> text::texts(v)[i] == v[i]@,
        text::texts(v + w) == text::texts(v) + text::texts(w),
        text::opt_text(Some(s)) == Some(s@),
        text::opt_text(None) is None,
{
    assert(text::texts(v + w) =~= text::texts(v) + text::texts(w));
}

/// A snapshot shows every field, and a list of them every snapshot.
pub proof fn law_snapshots_show_every_field(s: Snapshot, v: Seq<Snapshot>, i: int)
    ensures
        s@.id == s.id@,
        s@.time == s.time@,
        s@.paths == text::texts(s.paths@),
        s@.original == text::opt_text(s.original),
        snapshot::snapshot_views(v).len() == v.len(),
        0 <= i < v.len() ==> snapshot::snapshot_views(v)[i] == v[i]@,
        snapshot::opt_snapshot(Some(s)) == Some(s@),
        snapshot::opt_snapshot(None) is None,
{
}

/// A restored file shows every field, and a list of them every file.
pub proof fn law_files_show_every_field(f: RestoredFile, v: Vec<RestoredFile>, i: int)
    ensures
        f@.path == f.path@,
        f@.sha256 == f.sha256@,
        f@.size == f.size,
        manifest::file_views(v@).len() == v@.len(),
        0 <= i < v@.len() ==> manifest::file_views(v@)[i] == v@[i]@,
        run::opt_files(Some(v)) == Some(manifest::file_views(v@)),
        run::opt_files(None) is None,
{
}

/// A reading shows the digest and the size, or the error.
pub proof fn law_readings_show_what_was_read(sha256: String, size: u64, e: String, s: &str)
    ensures
        manifest::reading_view(Ok((sha256, size))) == Ok::<(Seq<char>, u64), Seq<char>>(
            (sha256@, size),
        ),
        manifest::reading_view(Err(e)) == Err::<(Seq<char>, u64), Seq<char>>(e@),
        sample::opt_str(Some(s)) == Some(s@),
        sample::opt_str(None) is None,
{
}

/// The settings show every field.
pub proof fn law_settings_show_every_field(c: Config, path: Option<String>)
    ensures
        c@.home == c.home@,
        c@.repo == c.repo@,
        c@.password_command == c.password_command@,
        c@.exclude_file == c.exclude_file@,
        c@.replica_repos == text::texts(c.replica_repos@),
        c@.retention == c.retention,
        c@.verification == c.verification,
        c@.log_dir == c.log_dir@,
        c@.log_retention_days == c.log_retention_days,
        c@.status_file == c.status_file@,
        c@.restic_bin == c.restic_bin@,
        c@.extra_backup_args == text::texts(c.extra_backup_args@),
        Invocation::Help@ == config::InvocationView::Help,
        Invocation::Run(path)@ == config::InvocationView::Run(text::opt_text(path)),
{
}

/// Half a status shows every field.
pub proof fn law_half_status_shows_every_field(h: HalfStatus)
    ensures
        h@.status == h.status@,
        h@.last_ok_at == text::opt_text(h.last_ok_at),
        h@.last_ok_unix == h.last_ok_unix,
        h@.snapshot == text::opt_text(h.snapshot),
        h@.checks_ok == h.checks_ok,
        h@.checks_failed == h.checks_failed,
        h@.files_verified == h.files_verified,
        h@.failures == text::texts(h.failures@),
        status::opt_half(Some(&h)) == Some(h@),
        status::opt_half(None) is None,
{
}

/// A status shows every field, and the failures of a run are those of its
/// halves.
pub proof fn law_status_shows_every_field(s: Status, out: Outcome)
    ensures
        s@.schema == s.schema,
        s@.state == s.state@,
        s@.started_at == s.started_at@,
        s@.started_unix == s.started_unix,
        s@.finished_at == text::opt_text(s.finished_at),
        s@.finished_unix == s.finished_unix,
        s@.heartbeat_at == text::opt_text(s.heartbeat_at),
        s@.heartbeat_unix == s.heartbeat_unix,
        s@.repo == s.repo@,
        s@.replica_repos == text::texts(s.replica_repos@),
        s@.backup == s.backup@,
        s@.recovery == s.recovery@,
        out@.backup == text::texts(out.backup@),
        out@.recovery == text::texts(out.recovery@),
{
}

/// A reply shows what it tells.
pub proof fn law_replies_show_what_they_tell(
    s: String,
    snapshots: Vec<Snapshot>,
    paths: Vec<String>,
    files: Vec<RestoredFile>,
)
    ensures
        Reply::Done@ == plan::ReplyView::Done,
        Reply::Failed(s)@ == plan::ReplyView::Failed(s@),
        Reply::Output(s)@ == plan::ReplyView::Output(s@),
        Reply::Snapshots(snapshots)@ == plan::ReplyView::Snapshots(
            snapshot::snapshot_views(snapshots@),
        ),
        Reply::Sample(paths)@ == plan::ReplyView::Sample(text::texts(paths@)),
        Reply::Files(files)@ == plan::ReplyView::Files(manifest::file_views(files@)),
{
}

/// A request shows what it asks for.
pub proof fn law_requests_show_what_they_ask(
    repo: String,
    id: String,
    args: Vec<String>,
    more: Vec<String>,
    size: usize,
    files: Vec<RestoredFile>,
    secs: u64,
)
    ensures
        Request::Password(repo)@ == plan::RequestView::Password(repo@),
        (Request::Capture { repo, args })@ == (plan::RequestView::Capture {
            repo: repo@,
            args: text::texts(args@),
        }),
        (Request::List { repo, args })@ == (plan::RequestView::List {
            repo: repo@,
            args: text::texts(args@),
        }),
        (Request::Logged { repo, args })@ == (plan::RequestView::Logged {
            repo: repo@,
            args: text::texts(args@),
        }),
        (Request::Sample { repo, snapshot_id: id, args, size, without: more })@ == (
        plan::RequestView::Sample {
            repo: repo@,
            snapshot_id: id@,
            args: text::texts(args@),
            size,
            without: text::texts(more@),
        }),
        (Request::Restore { repo, snapshot_id: id, paths: args, label: id })@ == (
        plan::RequestView::Restore {
            repo: repo@,
            snapshot_id: id@,
            paths: text::texts(args@),
            label: id@,
        }),
        (Request::Manifest { name: id, files })@ == (plan::RequestView::Manifest {
            name: id@,
            files: manifest::file_views(files@),
        }),
        (Request::Pause { secs })@ == (plan::RequestView::Pause { secs }),
        Request::Finish@ == plan::RequestView::Finish,
        Request::Refuse(id)@ == plan::RequestView::Refuse(id@),
{
}

} // verus!
