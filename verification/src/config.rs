//! The settings of a backup, and where they are read from.

use vstd::prelude::*;
use vstd::string::*;
use crate::text;

verus! {

/// How many snapshots to keep per day, week, month and year.
#[derive(Debug, Clone, Copy)]
pub struct Retention {
    pub daily: u32,
    pub weekly: u32,
    pub monthly: u32,
    pub yearly: u32,
}

/// Whether files are read back and checked, and how many.
#[derive(Debug, Clone, Copy)]
pub struct Verification {
    pub enable: bool,
    pub sample_size: usize,
}

/// The settings of a backup.
#[derive(Debug)]
pub struct Config {
    pub home: String,
    pub repo: String,
    pub password_command: String,
    pub exclude_file: String,
    pub replica_repos: Vec<String>,
    pub retention: Retention,
    pub verification: Verification,
    pub log_dir: String,
    /// Logs and manifests of runs older than this many days are deleted at the
    /// start of a run; zero keeps them. The files of the current run are never
    /// deleted.
    pub log_retention_days: u32,
    /// Where the status document is written; empty for nowhere.
    pub status_file: String,
    pub restic_bin: String,
    /// Further arguments for `restic backup`.
    pub extra_backup_args: Vec<String>,
}

/// What a [`Config`] holds.
pub struct ConfigView {
    pub home: Seq<char>,
    pub repo: Seq<char>,
    pub password_command: Seq<char>,
    pub exclude_file: Seq<char>,
    pub replica_repos: Seq<Seq<char>>,
    pub retention: Retention,
    pub verification: Verification,
    pub log_dir: Seq<char>,
    pub log_retention_days: u32,
    pub status_file: Seq<char>,
    pub restic_bin: Seq<char>,
    pub extra_backup_args: Seq<Seq<char>>,
}

impl View for Config {
    type V = ConfigView;

    open spec fn view(&self) -> ConfigView {
        ConfigView {
            home: self.home@,
            repo: self.repo@,
            password_command: self.password_command@,
            exclude_file: self.exclude_file@,
            replica_repos: text::texts(self.replica_repos@),
            retention: self.retention,
            verification: self.verification,
            log_dir: self.log_dir@,
            log_retention_days: self.log_retention_days,
            status_file: self.status_file@,
            restic_bin: self.restic_bin@,
            extra_backup_args: text::texts(self.extra_backup_args@),
        }
    }
}

impl Clone for Config {
    fn clone(&self) -> (r: Self)
        ensures
            r@ == self@,
    {
        Config {
            home: self.home.clone(),
            repo: self.repo.clone(),
            password_command: self.password_command.clone(),
            exclude_file: self.exclude_file.clone(),
            replica_repos: text::copy_texts(&self.replica_repos),
            retention: self.retention,
            verification: self.verification,
            log_dir: self.log_dir.clone(),
            log_retention_days: self.log_retention_days,
            status_file: self.status_file.clone(),
            restic_bin: self.restic_bin.clone(),
            extra_backup_args: text::copy_texts(&self.extra_backup_args),
        }
    }
}

/// The program that is run where the settings name none.
pub fn default_restic_bin() -> (r: String)
    ensures
        r@ == "restic"@,
{
    "restic".to_owned()
}

/// For how many days logs are kept where the settings do not say.
pub fn default_log_retention_days() -> (r: u32)
    ensures
        r == 30,
{
    30
}

/// What the command line asks for.
pub enum Invocation {
    /// To show how the program is used.
    Help,
    /// To run, with the settings in the given file if one is given.
    Run(Option<String>),
}

/// What the command line asks for, in terms of texts.
pub enum InvocationView {
    Help,
    Run(Option<Seq<char>>),
}

impl View for Invocation {
    type V = InvocationView;

    open spec fn view(&self) -> InvocationView {
        match self {
            Invocation::Help => InvocationView::Help,
            Invocation::Run(path) => InvocationView::Run(text::opt_text(*path)),
        }
    }
}

/// What the arguments ask for, where those before them gave `path`. They are
/// read from left to right: the first that asks for help or is unknown
/// decides, and the last file named counts.
pub open spec fn invocation(args: Seq<Seq<char>>, path: Option<Seq<char>>) -> Result<
    InvocationView,
    Seq<char>,
>
    decreases args.len(),
{
    if args.len() == 0 {
        Ok(InvocationView::Run(path))
    } else if args[0] == "--config"@ {
        if args.len() == 1 {
            Err("--config needs a path"@)
        } else {
            invocation(args.skip(2), Some(args[1]))
        }
    } else if args[0] == "--help"@ || args[0] == "-h"@ {
        Ok(InvocationView::Help)
    } else {
        Err("unknown argument: "@ + args[0])
    }
}

/// Reads the arguments of the program, its own name left out.
pub fn parse_arguments(args: &[String]) -> (r: Result<Invocation, String>)
    ensures
        match r {
            Ok(i) => invocation(text::texts(args@), None) == Ok::<InvocationView, Seq<char>>(i@),
            Err(e) => invocation(text::texts(args@), None) == Err::<InvocationView, Seq<char>>(e@),
        },
{
    let ghost all = text::texts(args@);
    let mut path: Option<String> = None;
    let mut i: usize = 0;
    assert(all.skip(0) =~= all);
    while i < args.len()
        invariant
            i <= args@.len(),
            all == text::texts(args@),
            invocation(all, None) == invocation(all.skip(i as int), text::opt_text(path)),
        decreases args@.len() - i,
    {
        let arg: &str = args[i].as_str();
        assert(all.skip(i as int)[0] == arg@);
        if text::same_text(arg, "--config") {
            if args.len() - i == 1 {
                return Err("--config needs a path".to_owned());
            }
            path = Some(args[i + 1].clone());
            assert(all.skip(i as int)[1] == args@[i + 1]@);
            assert(all.skip(i as int).skip(2) =~= all.skip(i + 2));
            i += 2;
        } else if text::same_text(arg, "--help") || text::same_text(arg, "-h") {
            return Ok(Invocation::Help);
        } else {
            let mut e = "unknown argument: ".to_owned();
            e.append(arg);
            return Err(e);
        }
    }
    assert(all.skip(i as int) =~= Seq::<Seq<char>>::empty());
    Ok(Invocation::Run(path))
}

/// Whether the arguments settle what is asked for, so that none behind them is
/// read: one of them asks for help or is unknown.
pub open spec fn settled(args: Seq<Seq<char>>) -> bool
    decreases args.len(),
{
    if args.len() == 0 {
        false
    } else if args[0] == "--config"@ {
        args.len() > 1 && settled(args.skip(2))
    } else {
        true
    }
}

/// Whether the arguments settle what is asked for.
pub fn arguments_settle(args: &[String]) -> (r: bool)
    ensures
        r == settled(text::texts(args@)),
{
    let ghost all = text::texts(args@);
    let mut i: usize = 0;
    assert(all.skip(0) =~= all);
    while i < args.len()
        invariant
            i <= args@.len(),
            all == text::texts(args@),
            settled(all) == settled(all.skip(i as int)),
        decreases args@.len() - i,
    {
        assert(all.skip(i as int)[0] == args@[i as int]@);
        if !text::same_text(args[i].as_str(), "--config") {
            return true;
        }
        if args.len() - i == 1 {
            return false;
        }
        assert(all.skip(i as int).skip(2) =~= all.skip(i + 2));
        i += 2;
    }
    assert(all.skip(i as int) =~= Seq::<Seq<char>>::empty());
    false
}

/// What comes behind arguments that settle what is asked for does not matter.
pub proof fn law_later_arguments_do_not_matter(
    args: Seq<Seq<char>>,
    more: Seq<Seq<char>>,
    path: Option<Seq<char>>,
)
    requires
        settled(args),
    ensures
        invocation(args + more, path) == invocation(args, path),
    decreases args.len(),
{
    let all = args + more;
    assert(all[0] == args[0]);
    if args[0] == "--config"@ {
        assert(all[1] == args[1]);
        assert(all.skip(2) =~= args.skip(2) + more);
        law_later_arguments_do_not_matter(args.skip(2), more, Some(args[1]));
    }
}

/// Where the settings come from.
pub enum ConfigSource {
    /// A file.
    File(String),
    /// The text that was put into the program when it was built.
    Embedded,
}

/// The file that the settings come from, or nothing where they come from the
/// text in the program, or why there are none.
pub open spec fn chosen(
    argument: Option<Seq<char>>,
    environment: Option<Seq<char>>,
    embedded: Seq<char>,
) -> Result<Option<Seq<char>>, Seq<char>> {
    if argument is Some {
        Ok(argument)
    } else if environment is Some {
        Ok(environment)
    } else if "@"@.is_prefix_of(embedded) {
        Err(
            "no configuration: this copy was not built by the Nix module — pass --config or set BACKUP_HOME_CONFIG"@,
        )
    } else {
        Ok(None)
    }
}

/// Where the settings come from: the file named on the command line, or else
/// the one named in the environment, or else the text in the program, unless
/// that is still the placeholder, which begins with an at sign.
pub fn choose_config(
    argument: Option<String>,
    environment: Option<String>,
    embedded: &str,
) -> (r: Result<ConfigSource, String>)
    ensures
        match r {
            Ok(ConfigSource::File(p)) => Some(p@) == if argument is Some {
                text::opt_text(argument)
            } else {
                text::opt_text(environment)
            },
            Ok(ConfigSource::Embedded) => argument is None && environment is None
                && !"@"@.is_prefix_of(embedded@),
            Err(e) => argument is None && environment is None && "@"@.is_prefix_of(embedded@) && e@
                == "no configuration: this copy was not built by the Nix module — pass --config or set BACKUP_HOME_CONFIG"@,
        },
        chosen(text::opt_text(argument), text::opt_text(environment), embedded@) == match r {
            Ok(ConfigSource::File(p)) => Ok(Some(p@)),
            Ok(ConfigSource::Embedded) => Ok(None),
            Err(e) => Err(e@),
        },
{
    match argument {
        Some(p) => Ok(ConfigSource::File(p)),
        None => match environment {
            Some(p) => Ok(ConfigSource::File(p)),
            None => {
                if text::begins_with(embedded, "@") {
                    Err(
                        "no configuration: this copy was not built by the Nix module — pass --config or set BACKUP_HOME_CONFIG".to_owned(),
                    )
                } else {
                    Ok(ConfigSource::Embedded)
                }
            },
        },
    }
}

/// The arguments are read one after the other: `--config` takes the next one
/// as the file, help ends the reading, anything else is an error, and at the
/// end the last file named counts.
pub proof fn law_arguments_are_read_in_order(
    first: Seq<char>,
    file: Seq<char>,
    rest: Seq<Seq<char>>,
    path: Option<Seq<char>>,
)
    ensures
        invocation(Seq::empty(), path) == Ok::<InvocationView, Seq<char>>(
            InvocationView::Run(path),
        ),
        invocation(seq!["--config"@, file] + rest, path) == invocation(rest, Some(file)),
        invocation(seq!["--config"@], path) == Err::<InvocationView, Seq<char>>(
            "--config needs a path"@,
        ),
        first == "--help"@ || first == "-h"@ ==> invocation(seq![first] + rest, path) == Ok::<
            InvocationView,
            Seq<char>,
        >(InvocationView::Help),
        first != "--config"@ && first != "--help"@ && first != "-h"@ ==> invocation(
            seq![first] + rest,
            path,
        ) == Err::<InvocationView, Seq<char>>("unknown argument: "@ + first),
        settled(seq!["--config"@, file] + rest) == settled(rest),
        first != "--config"@ ==> settled(seq![first] + rest),
        !settled(seq!["--config"@]) && !settled(Seq::empty()),
{
    reveal_strlit("--config");
    reveal_strlit("--help");
    reveal_strlit("-h");
    assert("--config"@.len() != "--help"@.len() && "--config"@.len() != "-h"@.len());
    let two = seq!["--config"@, file] + rest;
    assert(two.skip(2) =~= rest);
    assert(two[0] == "--config"@ && two[1] == file);
    assert((seq![first] + rest)[0] == first);
    assert(seq!["--config"@][0] == "--config"@);
}

/// A file named on the command line counts whatever else there is, one named
/// in the environment counts over the text in the program, and that text
/// counts unless it begins with an at sign.
pub proof fn law_nearest_settings_count(
    file: Seq<char>,
    environment: Option<Seq<char>>,
    embedded: Seq<char>,
)
    ensures
        chosen(Some(file), environment, embedded) == Ok::<Option<Seq<char>>, Seq<char>>(Some(file)),
        chosen(None, Some(file), embedded) == Ok::<Option<Seq<char>>, Seq<char>>(Some(file)),
        embedded.len() == 0 || embedded[0] != '@' ==> chosen(None, None, embedded) == Ok::<
            Option<Seq<char>>,
            Seq<char>,
        >(None),
        embedded.len() > 0 && embedded[0] == '@' ==> chosen(None, None, embedded) == Err::<
            Option<Seq<char>>,
            Seq<char>,
        >(
            "no configuration: this copy was not built by the Nix module — pass --config or set BACKUP_HOME_CONFIG"@,
        ),
{
    reveal_strlit("@");
    if embedded.len() > 0 {
        assert(embedded.subrange(0, 1)[0] == embedded[0]);
        if embedded[0] == '@' {
            assert("@"@ =~= embedded.subrange(0, 1));
        }
    }
}

} // verus!
