//! The files that a run leaves in the log directory, and which of them a later
//! run deletes.

use vstd::prelude::*;
use vstd::string::*;
use crate::text;

verus! {

/// What the names of all files of a run begin with.
pub open spec fn stem_text(timestamp: Seq<char>) -> Seq<char> {
    "backup-home-"@ + timestamp
}

/// What the names of all files of a run begin with.
pub fn run_stem(timestamp: &str) -> (r: String)
    ensures
        r@ == stem_text(timestamp@),
{
    let mut r = "backup-home-".to_owned();
    r.append(timestamp);
    r
}

/// The log of a run, given what its files begin with.
pub fn log_path(stem: &str) -> (r: String)
    ensures
        r@ == stem@ + ".log"@,
{
    let mut r: String = stem.to_owned();
    r.append(".log");
    r
}

/// The path of a manifest of a run.
pub open spec fn manifest_text(stem: Seq<char>, name: Seq<char>) -> Seq<char> {
    stem + "-"@ + name + ".json"@
}

/// A manifest of a run, given what its files begin with.
pub fn manifest_path(stem: &str, name: &str) -> (r: String)
    ensures
        r@ == manifest_text(stem@, name@),
{
    let mut r: String = stem.to_owned();
    r.append("-");
    r.append(name);
    r.append(".json");
    r
}

/// Whether a file name is that of a file which some run made: it goes on with
/// a digit, the start of a timestamp. The files that the scheduler keeps open
/// do not.
pub open spec fn run_artifact(name: Seq<char>) -> bool {
    &&& "backup-home-"@.is_prefix_of(name)
    &&& name.len() > "backup-home-"@.len()
    &&& '0' as int <= name["backup-home-"@.len() as int] as int <= '9' as int
}

/// Whether a file name is that of a file which some run made.
pub fn is_run_artifact(name: &str) -> (r: bool)
    ensures
        r == run_artifact(name@),
{
    proof {
        reveal_strlit("backup-home-");
    }
    if !text::begins_with(name, "backup-home-") {
        return false;
    }
    let v: Vec<char> = text::chars_of(name);
    if v.len() <= 12 {
        return false;
    }
    let c: char = text::char_at(v.as_slice(), 12);
    '0' <= c && c <= '9'
}

/// The log and the manifests of a run are files that a later run recognises,
/// as long as timestamps begin with a digit.
pub proof fn law_files_of_a_run_are_recognised(timestamp: Seq<char>, name: Seq<char>)
    requires
        timestamp.len() > 0,
        '0' as int <= timestamp[0] as int <= '9' as int,
    ensures
        run_artifact(stem_text(timestamp) + ".log"@),
        run_artifact(manifest_text(stem_text(timestamp), name)),
{
    let log = stem_text(timestamp) + ".log"@;
    let manifest = manifest_text(stem_text(timestamp), name);
    let n = "backup-home-"@.len() as int;
    assert(log.subrange(0, n) =~= "backup-home-"@);
    assert(manifest.subrange(0, n) =~= "backup-home-"@);
    assert(log[n] == timestamp[0]);
    assert(manifest[n] == timestamp[0]);
}

/// The seconds in that many days; nothing for none.
pub open spec fn seconds_kept(days: int) -> Option<int> {
    if days == 0 {
        None
    } else {
        Some(days * 24 * 60 * 60)
    }
}

/// For how many seconds the files of a run are kept; nothing where they are
/// kept for ever.
pub fn keep_seconds(days: u32) -> (r: Option<u64>)
    ensures
        match r {
            Some(secs) => days > 0 && secs == days * 24 * 60 * 60,
            None => days == 0,
        },
        seconds_kept(days as int) == match r {
            Some(secs) => Some(secs as int),
            None => None,
        },
{
    if days == 0 {
        None
    } else {
        Some((days as u64) * 24 * 60 * 60)
    }
}

/// An entry of the log directory.
pub struct LogEntry {
    pub name: String,
    pub is_file: bool,
    /// When it was last changed, in nanoseconds since the epoch, if that can
    /// be told.
    pub modified: Option<i128>,
}

/// Whether a name is that of a file of the run with the given stem: its log, a
/// manifest, or the stem itself.
pub open spec fn own_file(name: Seq<char>, stem: Seq<char>) -> bool {
    ||| name == stem
    ||| name == stem + ".log"@
    ||| (stem + "-"@).is_prefix_of(name) && ".json"@.is_suffix_of(name)
}

/// Whether a name is that of a file of the run with the given stem.
pub fn is_own_file(name: &str, stem: &str) -> (r: bool)
    ensures
        r == own_file(name@, stem@),
{
    let mut dashed: String = stem.to_owned();
    dashed.append("-");
    text::same_text(name, stem) || text::same_text(name, log_path(stem).as_str()) || (
    text::begins_with(name, dashed.as_str()) && text::ends_with(name, ".json"))
}

/// Whether an entry of the log directory is to be deleted: a regular file of
/// another run that was last changed before `cutoff`. The files of this run
/// are never deleted.
pub open spec fn expired(entry: LogEntry, stem: Seq<char>, cutoff: i128) -> bool {
    &&& run_artifact(entry.name@)
    &&& !own_file(entry.name@, stem)
    &&& entry.is_file
    &&& entry.modified matches Some(m)
    &&& m < cutoff
}

/// Whether an entry of the log directory is to be deleted.
pub fn should_prune(entry: &LogEntry, stem: &str, cutoff: i128) -> (r: bool)
    ensures
        r == expired(*entry, stem@, cutoff),
{
    if !is_run_artifact(entry.name.as_str()) {
        return false;
    }
    if is_own_file(entry.name.as_str(), stem) {
        return false;
    }
    if !entry.is_file {
        return false;
    }
    match entry.modified {
        Some(m) => m < cutoff,
        None => false,
    }
}

/// The files of the run that is under way are never deleted.
pub proof fn law_own_files_are_kept(
    entry: LogEntry,
    timestamp: Seq<char>,
    name: Seq<char>,
    cutoff: i128,
)
    requires
        entry.name@ == stem_text(timestamp) + ".log"@ || entry.name@ == manifest_text(
            stem_text(timestamp),
            name,
        ),
    ensures
        !expired(entry, stem_text(timestamp), cutoff),
{
    let stem = stem_text(timestamp);
    let manifest = manifest_text(stem, name);
    let dashed = stem + "-"@;
    assert(manifest.subrange(0, dashed.len() as int) =~= dashed);
    assert(manifest.subrange(manifest.len() - ".json"@.len(), manifest.len() as int)
        =~= ".json"@);
}

/// The logs that the scheduler keeps open are never deleted.
pub proof fn law_scheduler_logs_are_kept(entry: LogEntry, stem: Seq<char>, cutoff: i128)
    requires
        entry.name@ == "backup-home-launchd.stdout.log"@ || entry.name@
            == "backup-home-launchd.stderr.log"@,
    ensures
        !expired(entry, stem, cutoff),
{
    reveal_strlit("backup-home-");
    reveal_strlit("backup-home-launchd.stdout.log");
    reveal_strlit("backup-home-launchd.stderr.log");
    assert(entry.name@[12] == 'l');
}

/// What has been deleted.
pub struct Pruned {
    pub files: u32,
    pub bytes: u64,
}

impl Pruned {
    /// Nothing yet.
    pub fn none() -> (r: Pruned)
        ensures
            r.files == 0,
            r.bytes == 0,
    {
        Pruned { files: 0, bytes: 0 }
    }

    /// One more file, of the given size.
    pub fn count(&mut self, bytes: u64)
        requires
            old(self).files < u32::MAX,
            old(self).bytes + bytes <= u64::MAX,
        ensures
            final(self).files == old(self).files + 1,
            final(self).bytes == old(self).bytes + bytes,
    {
        self.files = self.files + 1;
        self.bytes = self.bytes + bytes;
    }
}

/// A file is one of some run exactly if its name is `backup-home-`, a digit,
/// and anything.
pub proof fn law_digit_makes_a_run_artifact(c: char, rest: Seq<char>, name: Seq<char>)
    ensures
        run_artifact("backup-home-"@ + seq![c] + rest) <==> '0' as int <= c as int <= '9' as int,
        run_artifact(name) ==> name == "backup-home-"@ + seq![name[12]] + name.skip(13) && name.len()
            > 12,
{
    reveal_strlit("backup-home-");
    let full = "backup-home-"@ + seq![c] + rest;
    assert(full.subrange(0, 12) =~= "backup-home-"@);
    assert(full[12] == c);
    if run_artifact(name) {
        assert(name.subrange(0, 12) =~= "backup-home-"@);
        assert(name =~= "backup-home-"@ + seq![name[12]] + name.skip(13)) by {
            assert forall|i: int| 0 <= i < 12 implies name[i] == "backup-home-"@[i] by {
                assert(name.subrange(0, 12)[i] == name[i]);
            }
        }
    }
}

/// The names of the files of a run.
pub proof fn law_files_of_a_run_have_these_names(timestamp: Seq<char>, name: Seq<char>)
    ensures
        stem_text(timestamp) == "backup-home-"@ + timestamp,
        manifest_text(stem_text(timestamp), name) == "backup-home-"@ + timestamp + "-"@ + name
            + ".json"@,
{
}

/// A regular file of another run is deleted exactly if it was last changed
/// before the cutoff; nothing else is deleted.
pub proof fn law_old_files_of_other_runs_are_deleted(
    entry: LogEntry,
    stem: Seq<char>,
    cutoff: i128,
    modified: i128,
)
    ensures
        run_artifact(entry.name@) && entry.is_file && entry.modified == Some(modified) && entry.name@
            != stem && entry.name@ != stem + ".log"@ && !((stem + "-"@).is_prefix_of(entry.name@)
            && ".json"@.is_suffix_of(entry.name@)) ==> (expired(entry, stem, cutoff) <==> modified
            < cutoff),
        !run_artifact(entry.name@) ==> !expired(entry, stem, cutoff),
        !entry.is_file ==> !expired(entry, stem, cutoff),
        entry.modified is None ==> !expired(entry, stem, cutoff),
        entry.name@ == stem ==> !expired(entry, stem, cutoff),
        entry.modified == Some(modified) && modified >= cutoff ==> !expired(entry, stem, cutoff),
{
}

/// The files of a run are its stem, its log and what lies between its stem with
/// a hyphen and the ending of a manifest.
pub proof fn law_own_files_by_name(name: Seq<char>, stem: Seq<char>, inner: Seq<char>)
    ensures
        own_file(stem, stem),
        own_file(stem + ".log"@, stem),
        own_file(stem + "-"@ + inner + ".json"@, stem),
        own_file(name, stem) && name != stem && name != stem + ".log"@ ==> name == stem + "-"@
            + name.subrange(stem.len() as int + 1, name.len() as int - 5) + ".json"@,
{
    reveal_strlit("-");
    reveal_strlit(".json");
    let m = stem + "-"@ + inner + ".json"@;
    assert((stem + "-"@) =~= m.take((stem + "-"@).len() as int));
    assert(".json"@ =~= m.skip(m.len() - 5));
    if own_file(name, stem) && name != stem && name != stem + ".log"@ {
        let k = stem.len() as int;
        let n = name.len() as int;
        assert(forall|i: int| 0 <= i <= k ==> name[i] == (stem + "-"@)[i]);
        assert(forall|i: int| 0 <= i < 5 ==> name[n - 5 + i] == ".json"@[i]);
        assert((stem + "-"@)[k] == '-');
        if n - 5 <= k {
            let i = k - (n - 5);
            assert(name[n - 5 + i] == ".json"@[i]);
        }
        assert(name =~= stem + "-"@ + name.subrange(k + 1, n - 5) + ".json"@);
    }
}

/// Zero days mean for ever, and every day adds as many seconds as it has.
pub proof fn law_every_day_counts(days: int)
    requires
        days > 0,
    ensures
        seconds_kept(0) is None,
        seconds_kept(1) == Some(86_400int),
        seconds_kept(days) is Some,
        seconds_kept(days + 1) == Some(seconds_kept(days)->0 + 86_400),
{
}

} // verus!
