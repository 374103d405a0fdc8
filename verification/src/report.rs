//! What the log says of a run as a whole.

use vstd::prelude::*;
use vstd::string::*;
use crate::config::Config;
use crate::config;
use crate::outcome::Outcome;
use crate::plan;
use crate::run::Run;
use crate::snapshot;
use crate::status::Moment;
use crate::status::Status;
use crate::status;
use crate::text;

verus! {

/// How the log describes the verification settings.
pub open spec fn verification_text(v: config::Verification) -> Seq<char> {
    if v.enable {
        "    verification: enabled, sample size "@ + text::decimal(v.sample_size as nat)
    } else {
        "    verification: disabled"@
    }
}

/// The lines that a log begins with.
pub open spec fn banner_lines(
    cfg: config::ConfigView,
    start: Seq<char>,
    log_path: Seq<char>,
) -> Seq<Seq<char>> {
    seq!["=== backup-home started: "@ + start + " ==="@, "    primary repo: "@ + cfg.repo]
        + cfg.replica_repos.map_values(|r: Seq<char>| "    replica repo: "@ + r) + seq![
        verification_text(cfg.verification),
        "    log file: "@ + log_path,
    ]
}

/// The lines that a log begins with.
pub fn banner(cfg: &Config, start: &str, log_path: &str) -> (lines: Vec<String>)
    ensures
        text::texts(lines@) == banner_lines(cfg@, start@, log_path@),
{
    broadcast use text::lemma_texts_push;

    let mut lines: Vec<String> = Vec::new();
    let mut line = "=== backup-home started: ".to_owned();
    line.append(start);
    line.append(" ===");
    lines.push(line);
    let mut line = "    primary repo: ".to_owned();
    line.append(cfg.repo.as_str());
    lines.push(line);
    let ghost head = seq![
        "=== backup-home started: "@ + start@ + " ==="@,
        "    primary repo: "@ + cfg@.repo,
    ];
    let ghost replicas = cfg@.replica_repos.map_values(|r: Seq<char>| "    replica repo: "@ + r);
    assert(text::texts(lines@) =~= head + replicas.take(0));
    let mut i: usize = 0;
    while i < cfg.replica_repos.len()
        invariant
            i <= cfg.replica_repos@.len(),
            replicas == cfg@.replica_repos.map_values(|r: Seq<char>| "    replica repo: "@ + r),
            text::texts(lines@) == head + replicas.take(i as int),
        decreases cfg.replica_repos@.len() - i,
    {
        broadcast use text::lemma_texts_push;

        let mut line = "    replica repo: ".to_owned();
        line.append(cfg.replica_repos[i].as_str());
        lines.push(line);
        assert(text::texts(lines@) =~= head + replicas.take(i + 1));
        i += 1;
    }
    assert(replicas.take(i as int) =~= replicas);
    if cfg.verification.enable {
        let mut line = "    verification: enabled, sample size ".to_owned();
        text::push_decimal(&mut line, cfg.verification.sample_size as u64);
        lines.push(line);
    } else {
        lines.push("    verification: disabled".to_owned());
    }
    let mut line = "    log file: ".to_owned();
    line.append(log_path);
    lines.push(line);
    assert(text::texts(lines@) =~= banner_lines(cfg@, start@, log_path@));
    lines
}

/// The line that tells of a restore.
pub fn restored_line(label: &str, files: usize) -> (s: String)
    ensures
        s@ == "["@ + label@ + "] restored and hashed "@ + text::decimal(files as nat) + " files"@,
{
    let mut s = "[".to_owned();
    s.append(label);
    s.append("] restored and hashed ");
    text::push_decimal(&mut s, files as u64);
    s.append(" files");
    s
}

/// The line that tells of a manifest.
pub fn manifest_line(path: &str) -> (s: String)
    ensures
        s@ == "manifest written: "@ + path@,
{
    let mut s = "manifest written: ".to_owned();
    s.append(path);
    s
}

/// The line that tells why a run was refused.
pub fn fatal_line(message: &str) -> (s: String)
    ensures
        s@ == "FATAL: "@ + message@,
{
    let mut s = "FATAL: ".to_owned();
    s.append(message);
    s
}

/// What the recovery half ends as, in capitals.
pub open spec fn loud_verdict(
    enabled: bool,
    failed: bool,
    checks_ok: u32,
    files_verified: u64,
) -> Seq<char> {
    if !enabled {
        "DISABLED"@
    } else if failed {
        "FAILED"@
    } else if checks_ok == 0 || files_verified == 0 {
        "UNTESTED"@
    } else {
        "OK"@
    }
}

/// The line that tells how recovery went.
pub open spec fn recovery_text(s: plan::RunView) -> Seq<char> {
    "=== recovery: "@ + loud_verdict(
        s.cfg.verification.enable,
        s.failures.recovery.len() > 0,
        s.checks_ok,
        s.files_verified,
    ) + " — "@ + text::decimal(s.checks_ok as nat) + " check(s) passed, "@ + text::decimal(
        s.failures.recovery.len(),
    ) + " failed, "@ + text::decimal(s.files_verified as nat)
        + " file(s) restored and compared ==="@
}

/// The lines that a log of a run which came to its end ends with.
pub open spec fn summary_lines(s: plan::RunView, end: Seq<char>) -> Seq<Seq<char>> {
    let failures = s.failures.backup + s.failures.recovery;
    if failures.len() == 0 {
        seq![recovery_text(s), "=== backup-home complete: "@ + end + " (all stages OK) ==="@]
    } else {
        seq![
            recovery_text(s),
            "=== backup-home finished with "@ + text::decimal(failures.len()) + " FAILURE(S): "@
                + end + " ==="@,
        ] + failures.map_values(|f: Seq<char>| "    "@ + f)
    }
}

/// The lines that a log of a run which came to its end ends with.
pub fn summary(run: &Run, end: &str) -> (lines: Vec<String>)
    requires
        run@.wf(),
    ensures
        text::texts(lines@) == summary_lines(run@, end@),
{
    broadcast use text::lemma_texts_push;

    let out: &Outcome = run.failures();
    assert(out@.recovery.len() == out.recovery@.len());
    let failed: bool = out.recovery.len() > 0;
    let mut line = "=== recovery: ".to_owned();
    let verdict: &str = if !run.config().verification.enable {
        "DISABLED"
    } else if failed {
        "FAILED"
    } else if run.checks_ok() == 0 || run.files_verified() == 0 {
        "UNTESTED"
    } else {
        "OK"
    };
    line.append(verdict);
    line.append(" — ");
    text::push_decimal(&mut line, run.checks_ok() as u64);
    line.append(" check(s) passed, ");
    text::push_decimal(&mut line, out.recovery.len() as u64);
    line.append(" failed, ");
    text::push_decimal(&mut line, run.files_verified());
    line.append(" file(s) restored and compared ===");
    let mut lines: Vec<String> = Vec::new();
    lines.push(line);
    assert(text::texts(lines@) =~= seq![recovery_text(run@)]);
    let failures: Vec<String> = out.all();
    let ghost all = run@.failures.backup + run@.failures.recovery;
    assert(all.len() == failures@.len());
    if failures.len() == 0 {
        let mut line = "=== backup-home complete: ".to_owned();
        line.append(end);
        line.append(" (all stages OK) ===");
        lines.push(line);
        assert(text::texts(lines@) =~= summary_lines(run@, end@));
        return lines;
    }
    let mut line = "=== backup-home finished with ".to_owned();
    text::push_decimal(&mut line, failures.len() as u64);
    line.append(" FAILURE(S): ");
    line.append(end);
    line.append(" ===");
    lines.push(line);
    let ghost head = text::texts(lines@);
    let ghost shown = all.map_values(|f: Seq<char>| "    "@ + f);
    let mut i: usize = 0;
    assert(head =~= head + shown.take(0));
    while i < failures.len()
        invariant
            i <= failures@.len(),
            all == text::texts(failures@),
            shown == all.map_values(|f: Seq<char>| "    "@ + f),
            text::texts(lines@) == head + shown.take(i as int),
        decreases failures@.len() - i,
    {
        broadcast use text::lemma_texts_push;

        let mut line = "    ".to_owned();
        line.append(failures[i].as_str());
        lines.push(line);
        assert(text::texts(lines@) =~= head + shown.take(i + 1));
        i += 1;
    }
    assert(shown.take(i as int) =~= shown);
    assert(text::texts(lines@) =~= summary_lines(run@, end@));
    lines
}

/// What a run found out, as the status tells it.
pub open spec fn verdict_of(s: plan::RunView) -> status::Verdict {
    status::Verdict {
        snapshot: match s.new {
            Some(id) => Some(snapshot::shortened(id)),
            None => None,
        },
        enabled: s.cfg.verification.enable,
        checks_ok: s.checks_ok,
        files_verified: s.files_verified,
        failures: s.failures,
    }
}

/// Concludes the status of a run that came to its end.
pub fn conclude_status(run: &Run, status: &mut Status, end: &Moment)
    requires
        run@.wf(),
    ensures
        final(status)@ == old(status)@.concluded(verdict_of(run@), end.text@, end.unix),
{
    status.conclude(
        run.new_snapshot(),
        run.config().verification.enable,
        run.checks_ok(),
        run.files_verified(),
        run.failures(),
        end,
    );
}

/// Recovery is reported as a success only if files were read back and compared
/// in a run that asked for it, and none was found wanting.
pub proof fn law_recovery_ok_means_files_were_compared(
    run: plan::RunView,
    before: status::StatusView,
    at: Seq<char>,
    unix: i64,
)
    requires
        run.wf(),
    ensures
        ({
            let after = before.concluded(verdict_of(run), at, unix);
            after.recovery.status == "ok"@ ==> {
                &&& run.cfg.verification.enable
                &&& after.recovery.files_verified > 0
                &&& after.recovery.checks_ok > 0
                &&& after.recovery.failures.len() == 0
            }
        }),
{
    status::law_recovery_is_ok_only_if_proved(
        run.cfg.verification.enable,
        run.failures.recovery.len() > 0,
        run.checks_ok,
        run.files_verified,
    );
}

/// The capitals tell what the status document tells.
pub proof fn law_log_and_status_agree(
    enabled: bool,
    failed: bool,
    checks_ok: u32,
    files_verified: u64,
)
    ensures
        (loud_verdict(enabled, failed, checks_ok, files_verified) == "OK"@) == (
        status::recovery_verdict(enabled, failed, checks_ok, files_verified) == "ok"@),
{
    status::law_recovery_is_ok_only_if_proved(enabled, failed, checks_ok, files_verified);
    reveal_strlit("OK");
    reveal_strlit("FAILED");
    reveal_strlit("UNTESTED");
    reveal_strlit("DISABLED");
    assert("FAILED"@.len() != "OK"@.len());
    assert("UNTESTED"@.len() != "OK"@.len());
    assert("DISABLED"@.len() != "OK"@.len());
}

/// A log begins with the start, the repositories in their order, the
/// verification settings and its own path.
pub proof fn law_banner_names_everything(
    cfg: config::ConfigView,
    start: Seq<char>,
    log_path: Seq<char>,
    i: int,
)
    ensures
        ({
            let lines = banner_lines(cfg, start, log_path);
            let n = cfg.replica_repos.len() as int;
            &&& lines.len() == n + 4
            &&& lines[0] == "=== backup-home started: "@ + start + " ==="@
            &&& lines[1] == "    primary repo: "@ + cfg.repo
            &&& 0 <= i < n ==> lines[2 + i] == "    replica repo: "@ + cfg.replica_repos[i]
            &&& lines[n + 2] == if cfg.verification.enable {
                "    verification: enabled, sample size "@ + text::decimal(
                    cfg.verification.sample_size as nat,
                )
            } else {
                "    verification: disabled"@
            }
            &&& lines[n + 3] == "    log file: "@ + log_path
        }),
{
}

/// A log ends with how recovery went and how the run went; if anything failed,
/// with how much, and with every failure, those of the backup first.
pub proof fn law_summary_names_every_failure(s: plan::RunView, end: Seq<char>, i: int)
    ensures
        ({
            let lines = summary_lines(s, end);
            let b = s.failures.backup.len() as int;
            let r = s.failures.recovery.len() as int;
            &&& lines[0] == "=== recovery: "@ + (if !s.cfg.verification.enable {
                "DISABLED"@
            } else if r > 0 {
                "FAILED"@
            } else if s.checks_ok == 0 || s.files_verified == 0 {
                "UNTESTED"@
            } else {
                "OK"@
            }) + " — "@ + text::decimal(s.checks_ok as nat) + " check(s) passed, "@
                + text::decimal(r as nat) + " failed, "@ + text::decimal(s.files_verified as nat)
                + " file(s) restored and compared ==="@
            &&& b + r == 0 ==> lines.len() == 2 && lines[1] == "=== backup-home complete: "@ + end
                + " (all stages OK) ==="@
            &&& b + r > 0 ==> lines.len() == 2 + b + r && lines[1]
                == "=== backup-home finished with "@ + text::decimal((b + r) as nat)
                + " FAILURE(S): "@ + end + " ==="@
            &&& 0 <= i < b ==> lines[2 + i] == "    "@ + s.failures.backup[i]
            &&& 0 <= i < r ==> lines[2 + b + i] == "    "@ + s.failures.recovery[i]
        }),
{
    let all = s.failures.backup + s.failures.recovery;
    if 0 <= i < s.failures.recovery.len() {
        assert(all[s.failures.backup.len() + i] == s.failures.recovery[i]);
    }
}

/// What the status is told of a run is what the run found out.
pub proof fn law_status_is_told_what_was_found(s: plan::RunView)
    ensures
        ({
            let v = verdict_of(s);
            &&& v.enabled == s.cfg.verification.enable
            &&& v.checks_ok == s.checks_ok
            &&& v.files_verified == s.files_verified
            &&& v.failures == s.failures
            &&& s.new is None ==> v.snapshot is None
            &&& s.new is Some ==> v.snapshot == Some(snapshot::shortened(s.new->0))
        }),
{
}

} // verus!
