//! The command lines of restic, and what is said when one of them fails.

use std::collections::VecDeque;
use vstd::prelude::*;
use vstd::string::*;
use crate::config::Config;
use crate::config::Retention;
use crate::config;
use crate::text;

verus! {

// ---------------------------------------------------------------------------
// Arguments

/// A whole call: the repository first, then what is asked of it.
pub open spec fn call_words(repo: Seq<char>, args: Seq<Seq<char>>) -> Seq<Seq<char>> {
    seq!["--repo"@, repo] + args
}

/// The arguments that every call begins with, and those of the call.
pub fn restic_argv(repo: &str, args: &[String]) -> (r: Vec<String>)
    ensures
        text::texts(r@) == seq!["--repo"@, repo@] + text::texts(args@),
        text::texts(r@) == call_words(repo@, text::texts(args@)),
{
    broadcast use text::lemma_texts_push;

    let mut r: Vec<String> = Vec::new();
    r.push("--repo".to_owned());
    r.push(repo.to_owned());
    let mut rest: Vec<String> = text::copy_texts(args);
    let ghost a = r@;
    let ghost b = rest@;
    r.append(&mut rest);
    assert(text::texts(a) =~= seq!["--repo"@, repo@]);
    assert(text::texts(a + b) =~= text::texts(a) + text::texts(b));
    r
}

/// Drops the locks whose owners are gone.
pub open spec fn unlock_arguments() -> Seq<Seq<char>> {
    seq!["unlock"@]
}

/// Lists the locks, without taking one.
pub open spec fn locks_arguments() -> Seq<Seq<char>> {
    seq!["list"@, "locks"@, "--no-lock"@]
}

/// Lists the snapshots.
pub open spec fn snapshots_arguments() -> Seq<Seq<char>> {
    seq!["snapshots"@, "--json"@]
}

/// Makes a repository.
pub open spec fn init_arguments() -> Seq<Seq<char>> {
    seq!["init"@]
}

/// Lists the files of a snapshot.
pub open spec fn ls_arguments(snapshot_id: Seq<char>) -> Seq<Seq<char>> {
    seq!["ls"@, snapshot_id, "--json"@]
}

/// Writes a snapshot of the home directory.
pub open spec fn backup_arguments(cfg: config::ConfigView) -> Seq<Seq<char>> {
    seq![
        "backup"@,
        text::without_end_slashes(cfg.home) + "/"@,
        "--exclude-file"@,
        cfg.exclude_file,
        "--verbose=2"@,
    ] + cfg.extra_backup_args
}

/// Applies the retention policy, and frees what it drops.
pub open spec fn forget_arguments(r: Retention) -> Seq<Seq<char>> {
    seq![
        "forget"@,
        "--keep-daily"@,
        text::decimal(r.daily as nat),
        "--keep-weekly"@,
        text::decimal(r.weekly as nat),
        "--keep-monthly"@,
        text::decimal(r.monthly as nat),
        "--keep-yearly"@,
        text::decimal(r.yearly as nat),
        "--prune"@,
    ]
}

/// Makes a replica that splits files as the primary repository does.
pub open spec fn replica_init_arguments(cfg: config::ConfigView) -> Seq<Seq<char>> {
    seq![
        "init"@,
        "--copy-chunker-params"@,
        "--from-repo"@,
        cfg.repo,
        "--from-password-command"@,
        cfg.password_command,
    ]
}

/// Copies snapshots from the primary repository: the one given, or else all of
/// the home directory.
pub open spec fn copy_arguments(cfg: config::ConfigView, snapshot_id: Option<Seq<char>>) -> Seq<
    Seq<char>,
> {
    let from = seq![
        "copy"@,
        "--from-repo"@,
        cfg.repo,
        "--from-password-command"@,
        cfg.password_command,
    ];
    match snapshot_id {
        Some(id) => from.push(id),
        None => from.push("--path"@).push(text::without_end_slashes(cfg.home)),
    }
}

/// The arguments that drop the locks whose owners are gone.
pub fn unlock_args() -> (r: Vec<String>)
    ensures
        text::texts(r@) == unlock_arguments(),
{
    let r: Vec<String> = text::strs(&["unlock"]);
    assert(text::texts(r@) =~= unlock_arguments());
    r
}

/// The arguments that list the locks.
pub fn locks_args() -> (r: Vec<String>)
    ensures
        text::texts(r@) == locks_arguments(),
{
    let r: Vec<String> = text::strs(&["list", "locks", "--no-lock"]);
    assert(text::texts(r@) =~= locks_arguments());
    r
}

/// The arguments that list the snapshots.
pub fn snapshots_args() -> (r: Vec<String>)
    ensures
        text::texts(r@) == snapshots_arguments(),
{
    let r: Vec<String> = text::strs(&["snapshots", "--json"]);
    assert(text::texts(r@) =~= snapshots_arguments());
    r
}

/// The arguments that make a repository.
pub fn init_args() -> (r: Vec<String>)
    ensures
        text::texts(r@) == init_arguments(),
{
    let r: Vec<String> = text::strs(&["init"]);
    assert(text::texts(r@) =~= init_arguments());
    r
}

/// The arguments that list the files of a snapshot.
pub fn ls_args(snapshot_id: &str) -> (r: Vec<String>)
    ensures
        text::texts(r@) == ls_arguments(snapshot_id@),
{
    let r: Vec<String> = text::strs(&["ls", snapshot_id, "--json"]);
    assert(text::texts(r@) =~= ls_arguments(snapshot_id@));
    r
}

/// The arguments that write a snapshot of the home directory.
pub fn backup_args(cfg: &Config) -> (r: Vec<String>)
    ensures
        text::texts(r@) == backup_arguments(cfg@),
{
    let mut home: String = text::trim_end_slashes(cfg.home.as_str());
    home.append("/");
    let mut r: Vec<String> = text::strs(
        &["backup", home.as_str(), "--exclude-file", cfg.exclude_file.as_str(), "--verbose=2"],
    );
    let mut extra: Vec<String> = text::copy_texts(&cfg.extra_backup_args);
    let ghost a = r@;
    let ghost b = extra@;
    r.append(&mut extra);
    assert(text::texts(a + b) =~= text::texts(a) + text::texts(b));
    assert(text::texts(r@) =~= backup_arguments(cfg@));
    r
}

/// The arguments that apply the retention policy.
pub fn forget_args(r: &Retention) -> (args: Vec<String>)
    ensures
        text::texts(args@) == forget_arguments(*r),
{
    let daily: String = text::decimal_text(r.daily as u64);
    let weekly: String = text::decimal_text(r.weekly as u64);
    let monthly: String = text::decimal_text(r.monthly as u64);
    let yearly: String = text::decimal_text(r.yearly as u64);
    let args: Vec<String> = text::strs(
        &[
            "forget",
            "--keep-daily",
            daily.as_str(),
            "--keep-weekly",
            weekly.as_str(),
            "--keep-monthly",
            monthly.as_str(),
            "--keep-yearly",
            yearly.as_str(),
            "--prune",
        ],
    );
    assert(text::texts(args@) =~= forget_arguments(*r));
    args
}

/// The arguments that make a replica.
pub fn replica_init_args(cfg: &Config) -> (r: Vec<String>)
    ensures
        text::texts(r@) == replica_init_arguments(cfg@),
{
    let r: Vec<String> = text::strs(
        &[
            "init",
            "--copy-chunker-params",
            "--from-repo",
            cfg.repo.as_str(),
            "--from-password-command",
            cfg.password_command.as_str(),
        ],
    );
    assert(text::texts(r@) =~= replica_init_arguments(cfg@));
    r
}

/// The arguments that copy the snapshot given, or else all of the home
/// directory.
pub fn copy_args(cfg: &Config, snapshot_id: Option<&String>) -> (r: Vec<String>)
    ensures
        text::texts(r@) == copy_arguments(
            cfg@,
            match snapshot_id {
                Some(id) => Some(id@),
                None => None,
            },
        ),
{
    broadcast use text::lemma_texts_push;

    let mut r: Vec<String> = text::strs(
        &[
            "copy",
            "--from-repo",
            cfg.repo.as_str(),
            "--from-password-command",
            cfg.password_command.as_str(),
        ],
    );
    assert(text::texts(r@) =~= seq![
        "copy"@,
        "--from-repo"@,
        cfg@.repo,
        "--from-password-command"@,
        cfg@.password_command,
    ]);
    match snapshot_id {
        Some(id) => {
            r.push(id.clone());
        },
        None => {
            r.push("--path".to_owned());
            r.push(text::trim_end_slashes(cfg.home.as_str()));
        },
    }
    r
}

// ---------------------------------------------------------------------------
// What is shown and said

/// The arguments of a call as they are shown: all of them up to ten, else the
/// first eight and how many there are.
pub open spec fn preview(args: Seq<Seq<char>>) -> Seq<char> {
    if args.len() <= 10 {
        text::join(args, " "@)
    } else {
        text::join(args.take(8), " "@) + " ... ("@ + text::decimal(args.len()) + " args total)"@
    }
}

/// The arguments of a call as they are shown.
pub fn args_preview(args: &[String]) -> (s: String)
    ensures
        s@ == preview(text::texts(args@)),
{
    if args.len() <= 10 {
        text::join_texts(args, " ")
    } else {
        let head: &[String] = &args[0..8];
        assert(text::texts(head@) =~= text::texts(args@).take(8));
        let mut s: String = text::join_texts(head, " ");
        s.append(" ... (");
        text::push_decimal(&mut s, args.len() as u64);
        s.append(" args total)");
        s
    }
}

/// The line of the log that announces a call.
pub fn announce_line(args: &[String]) -> (s: String)
    ensures
        s@ == "+ restic "@ + preview(text::texts(args@)),
{
    let mut s = "+ restic ".to_owned();
    s.append(args_preview(args).as_str());
    s
}

/// A line of the output of restic, as it is logged.
pub fn output_line(line: &str) -> (s: String)
    ensures
        s@ == "  [restic] "@ + line@,
{
    let mut s = "  [restic] ".to_owned();
    s.append(line);
    s
}

/// A line of the error output of restic, as it is logged.
pub fn error_line(line: &str) -> (s: String)
    ensures
        s@ == "  [restic!] "@ + line@,
{
    let mut s = "  [restic!] ".to_owned();
    s.append(line);
    s
}

/// The last `n` texts.
pub open spec fn last_texts(s: Seq<Seq<char>>, n: nat) -> Seq<Seq<char>> {
    if s.len() <= n {
        s
    } else {
        s.skip(s.len() - n)
    }
}

/// What is said of a failed call.
pub open spec fn failed_call(args: Seq<Seq<char>>, repo: Seq<char>, status: Seq<char>) -> Seq<
    char,
> {
    "restic "@ + preview(args) + " (repo "@ + repo + ") failed with "@ + status
}

/// What is said of a failed call.
fn describe_failed_call(args: &[String], repo: &str, status: &str) -> (s: String)
    ensures
        s@ == failed_call(text::texts(args@), repo@, status@),
{
    let mut s = "restic ".to_owned();
    s.append(args_preview(args).as_str());
    s.append(" (repo ");
    s.append(repo);
    s.append(") failed with ");
    s.append(status);
    s
}

/// What is said of a failed call with the lines of its error output.
pub open spec fn captured_failure(
    args: Seq<Seq<char>>,
    repo: Seq<char>,
    status: Seq<char>,
    stderr: Seq<Seq<char>>,
) -> Seq<char> {
    failed_call(args, repo, status) + ": "@ + text::join(last_texts(stderr, 5), " | "@)
}

/// What is said of a failed call with the tail of its error output.
pub open spec fn streamed_failure(
    args: Seq<Seq<char>>,
    repo: Seq<char>,
    status: Seq<char>,
    tail: Seq<Seq<char>>,
) -> Seq<char> {
    failed_call(args, repo, status) + if text::join(tail, " | "@).len() == 0 {
        Seq::<char>::empty()
    } else {
        ": "@ + text::join(tail, " | "@)
    }
}

/// What is said of a failed call whose error output was captured: its last
/// five lines are added.
pub fn capture_failure(args: &[String], repo: &str, status: &str, stderr: &[String]) -> (s: String)
    ensures
        s@ == failed_call(text::texts(args@), repo@, status@) + ": "@ + text::join(
            last_texts(text::texts(stderr@), 5),
            " | "@,
        ),
        s@ == captured_failure(text::texts(args@), repo@, status@, text::texts(stderr@)),
{
    let n: usize = stderr.len();
    let from: usize = if n <= 5 {
        0
    } else {
        n - 5
    };
    let tail: &[String] = &stderr[from..n];
    assert(text::texts(tail@) =~= last_texts(text::texts(stderr@), 5));
    let mut s: String = describe_failed_call(args, repo, status);
    s.append(": ");
    s.append(text::join_texts(tail, " | ").as_str());
    s
}

/// The last lines of an error output that comes line by line: at most twenty.
pub struct Tail {
    lines: VecDeque<String>,
}

impl View for Tail {
    type V = Seq<Seq<char>>;

    closed spec fn view(&self) -> Seq<Seq<char>> {
        text::texts(self.lines@)
    }
}

impl Tail {
    /// No line yet.
    pub fn new() -> (t: Tail)
        ensures
            t@ == Seq::<Seq<char>>::empty(),
    {
        let t = Tail { lines: VecDeque::new() };
        assert(t@ =~= Seq::<Seq<char>>::empty());
        t
    }

    /// The next line.
    pub fn push(&mut self, line: String)
        requires
            old(self)@.len() <= 20,
        ensures
            final(self)@ == last_texts(old(self)@.push(line@), 20),
            final(self)@.len() <= 20,
    {
        if self.lines.len() >= 20 {
            self.lines.pop_front();
        }
        self.lines.push_back(line);
        assert(self@ =~= last_texts(old(self)@.push(line@), 20));
    }

    /// The lines, joined.
    pub fn joined(&self) -> (s: String)
        ensures
            s@ == text::join(self@, " | "@),
    {
        let mut v: Vec<String> = Vec::new();
        let mut i: usize = 0;
        while i < self.lines.len()
            invariant
                i <= self.lines@.len(),
                v@.len() == i,
                forall|j: int| 0 <= j < i ==> (#[trigger] v@[j])@ == self.lines@[j]@,
            decreases self.lines@.len() - i,
        {
            v.push(self.lines[i].clone());
            i += 1;
        }
        assert(text::texts(v@) =~= self@);
        text::join_texts(v.as_slice(), " | ")
    }
}

/// What the tail holds once it has been given all `lines`.
pub open spec fn tail_of(lines: Seq<Seq<char>>) -> Seq<Seq<char>>
    decreases lines.len(),
{
    if lines.len() == 0 {
        seq![]
    } else {
        last_texts(tail_of(lines.drop_last()).push(lines.last()), 20)
    }
}

/// However many lines come, the tail holds the last twenty of them.
pub proof fn law_tail_holds_last_lines(lines: Seq<Seq<char>>)
    ensures
        tail_of(lines) == last_texts(lines, 20),
    decreases lines.len(),
{
    if lines.len() == 0 {
        assert(tail_of(lines) =~= last_texts(lines, 20));
    } else {
        law_tail_holds_last_lines(lines.drop_last());
        assert(tail_of(lines) =~= last_texts(lines, 20));
    }
}

/// What is said of a failed call whose error output came line by line: the
/// tail is added, if there is anything in it.
pub fn streaming_failure(args: &[String], repo: &str, status: &str, tail: &Tail) -> (s: String)
    ensures
        s@ == failed_call(text::texts(args@), repo@, status@) + if text::join(
            tail@,
            " | "@,
        ).len() == 0 {
            Seq::<char>::empty()
        } else {
            ": "@ + text::join(tail@, " | "@)
        },
        s@ == streamed_failure(text::texts(args@), repo@, status@, tail@),
{
    let mut s: String = describe_failed_call(args, repo, status);
    let joined: String = tail.joined();
    if !joined.as_str().is_empty() {
        let ghost before = s@;
        s.append(": ");
        s.append(joined.as_str());
        assert(s@ =~= before + (": "@ + joined@));
    } else {
        assert(s@ + Seq::<char>::empty() =~= s@);
    }
    s
}

/// Whether a listing of locks shows one: some line of it is not blank.
pub open spec fn shows_lock(listing: Seq<char>) -> bool {
    exists|i: int|
        0 <= i < text::lines(listing).len() && !text::blank(#[trigger] text::lines(listing)[i])
}

/// Whether a listing of locks shows one.
pub fn listing_shows_lock(listing: &str) -> (r: bool)
    ensures
        r == shows_lock(listing@),
{
    let lines: Vec<String> = text::lines_of(listing);
    let ghost all = text::lines(listing@);
    let mut i: usize = 0;
    while i < lines.len()
        invariant
            i <= lines@.len(),
            all == text::texts(lines@),
            all == text::lines(listing@),
            forall|j: int| 0 <= j < i ==> text::blank(#[trigger] all[j]),
        decreases lines@.len() - i,
    {
        assert(all[i as int] == lines@[i as int]@);
        if !text::is_blank(lines[i].as_str()) {
            assert(!text::blank(text::lines(listing@)[i as int]));
            return true;
        }
        i += 1;
    }
    false
}

/// An error with what was being done when it came.
pub open spec fn in_context(context: Seq<char>, error: Seq<char>) -> Seq<char> {
    context + ": "@ + error
}

/// An error with what was being done when it came.
pub fn with_context(context: &str, error: &str) -> (s: String)
    ensures
        s@ == in_context(context@, error@),
{
    let mut s: String = context.to_owned();
    s.append(": ");
    s.append(error);
    s
}

/// Lines hold a character that is no white space exactly if the text does.
proof fn lemma_split_holds(s: Seq<char>)
    ensures
        (exists|i: int| 0 <= i < s.len() && !text::white_space(#[trigger] s[i])) <==> (exists|j: int|
            0 <= j < text::line_split(s).0.len() && !text::blank(
                #[trigger] text::line_split(s).0[j],
            )) || !text::blank(text::line_split(s).1),
    decreases s.len(),
{
    if s.len() > 0 {
        let front = s.drop_last();
        lemma_split_holds(front);
        let (ended, open) = text::line_split(front);
        let (ended2, open2) = text::line_split(s);
        let before = exists|i: int|
            0 <= i < front.len() && !text::white_space(#[trigger] front[i]);
        let now = exists|i: int| 0 <= i < s.len() && !text::white_space(#[trigger] s[i]);
        let had = exists|j: int| 0 <= j < ended.len() && !text::blank(#[trigger] ended[j]);
        let has = exists|j: int| 0 <= j < ended2.len() && !text::blank(#[trigger] ended2[j]);
        assert(now <==> before || !text::white_space(s.last())) by {
            if now {
                let i = choose|i: int| 0 <= i < s.len() && !text::white_space(#[trigger] s[i]);
                if i < front.len() {
                    assert(front[i] == s[i]);
                }
            }
            if before {
                let i = choose|i: int|
                    0 <= i < front.len() && !text::white_space(#[trigger] front[i]);
                assert(s[i] == front[i]);
            }
            if !text::white_space(s.last()) {
                assert(!text::white_space(s[s.len() - 1]));
            }
        }
        if s.last() == '\n' {
            let line = text::without_cr(open);
            assert(text::blank(line) <==> text::blank(open)) by {
                if text::blank(line) && line != open {
                    assert(open =~= line.push('\r'));
                    assert(text::white_space('\r'));
                }
                if text::blank(open) {
                    assert forall|k: int| 0 <= k < line.len() implies text::white_space(
                        #[trigger] line[k],
                    ) by {
                        assert(line[k] == open[k]);
                    }
                }
            }
            assert(has <==> had || !text::blank(line)) by {
                if had {
                    let j = choose|j: int| 0 <= j < ended.len() && !text::blank(#[trigger] ended[j]);
                    assert(ended2[j] == ended[j]);
                }
                if has {
                    let j = choose|j: int|
                        0 <= j < ended2.len() && !text::blank(#[trigger] ended2[j]);
                    if j < ended.len() {
                        assert(ended[j] == ended2[j]);
                    }
                }
                if !text::blank(line) {
                    assert(ended2[ended2.len() - 1] == line);
                }
            }
            assert(text::white_space('\n'));
        } else {
            assert(text::blank(open2) <==> text::blank(open) && text::white_space(s.last())) by {
                if text::blank(open2) {
                    assert forall|k: int| 0 <= k < open.len() implies text::white_space(
                        #[trigger] open[k],
                    ) by {
                        assert(open2[k] == open[k]);
                    }
                    assert(open2[open2.len() - 1] == s.last());
                }
            }
        }
    }
}

/// A listing shows a lock exactly if anything but white space stands in it.
pub proof fn law_lock_is_anything_but_white_space(listing: Seq<char>)
    ensures
        shows_lock(listing) <==> exists|i: int|
            0 <= i < listing.len() && !text::white_space(#[trigger] listing[i]),
{
    lemma_split_holds(listing);
    let (ended, open) = text::line_split(listing);
    let all = text::lines(listing);
    if shows_lock(listing) {
        let i = choose|i: int| 0 <= i < all.len() && !text::blank(#[trigger] all[i]);
        if i < ended.len() {
            assert(ended[i] == all[i]);
        }
    }
    if exists|j: int| 0 <= j < ended.len() && !text::blank(#[trigger] ended[j]) {
        let j = choose|j: int| 0 <= j < ended.len() && !text::blank(#[trigger] ended[j]);
        assert(all[j] == ended[j]);
    }
    if !text::blank(open) {
        assert(all[all.len() - 1] == open);
    }
}

/// Up to ten arguments are shown in full, with a space between neighbours; of
/// more the first eight, and how many there are.
pub proof fn law_long_calls_are_cut(args: Seq<Seq<char>>)
    ensures
        args.len() <= 10 ==> preview(args) == text::join(args, " "@),
        args.len() > 10 ==> preview(args) == text::join(args.take(8), " "@) + " ... ("@
            + text::decimal(args.len()) + " args total)"@,
{
}

/// What is said of a failed call names the call, the repository and the exit
/// status.
pub proof fn law_failed_call_is_named(args: Seq<Seq<char>>, repo: Seq<char>, status: Seq<char>)
    ensures
        failed_call(args, repo, status) == "restic "@ + preview(args) + " (repo "@ + repo
            + ") failed with "@ + status,
{
}

/// The last `n` texts are at the end of the list: `n` of them, or all.
pub proof fn law_last_texts_end_the_list(a: Seq<Seq<char>>, b: Seq<Seq<char>>, n: nat)
    ensures
        b.len() == n ==> last_texts(a + b, n) == b,
        b.len() < n ==> last_texts(b, n) == b,
{
    if b.len() == n {
        assert(last_texts(a + b, n) =~= b);
    }
}

/// An error is told behind what was being done.
pub proof fn law_context_comes_first(context: Seq<char>, error: Seq<char>)
    ensures
        in_context(context, error) == context + ": "@ + error,
{
}

/// Every call names its repository first and keeps its arguments as they are.
pub proof fn law_call_names_its_repository(repo: Seq<char>, args: Seq<Seq<char>>, i: int)
    ensures
        call_words(repo, args).len() == args.len() + 2,
        call_words(repo, args)[0] == "--repo"@,
        call_words(repo, args)[1] == repo,
        0 <= i < args.len() ==> call_words(repo, args)[i + 2] == args[i],
{
}

/// Of the error output that a failed call left, the last five lines are told,
/// from the earliest to the last; what came before them is not.
pub proof fn law_last_five_lines_are_told(
    args: Seq<Seq<char>>,
    repo: Seq<char>,
    status: Seq<char>,
    earlier: Seq<Seq<char>>,
    lines: Seq<Seq<char>>,
)
    ensures
        lines.len() <= 5 ==> captured_failure(args, repo, status, lines) == "restic "@ + preview(
            args,
        ) + " (repo "@ + repo + ") failed with "@ + status + ": "@ + text::join(lines, " | "@),
        lines.len() == 5 ==> captured_failure(args, repo, status, earlier + lines)
            == captured_failure(args, repo, status, lines),
{
    if lines.len() == 5 {
        law_last_texts_end_the_list(earlier, lines, 5);
    }
}

/// The tail of an error output is told where it says anything.
pub proof fn law_tail_is_told(
    args: Seq<Seq<char>>,
    repo: Seq<char>,
    status: Seq<char>,
    tail: Seq<Seq<char>>,
)
    ensures
        ({
            let call = "restic "@ + preview(args) + " (repo "@ + repo + ") failed with "@ + status;
            let told = text::join(tail, " | "@);
            &&& told.len() == 0 ==> streamed_failure(args, repo, status, tail) == call
            &&& told.len() > 0 ==> streamed_failure(args, repo, status, tail) == call + ": "@ + told
        }),
{
    let call = "restic "@ + preview(args) + " (repo "@ + repo + ") failed with "@ + status;
    let told = text::join(tail, " | "@);
    assert(call + Seq::<char>::empty() =~= call);
    assert(call + (": "@ + told) =~= call + ": "@ + told);
}

} // verus!
