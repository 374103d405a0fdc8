use backup_home::config::{
    arguments_settle, choose_config, default_log_retention_days, default_restic_bin, parse_arguments, Config,
    ConfigSource, Invocation, Retention, Verification,
};
use backup_home::restic::{
    announce_line, args_preview, backup_args, capture_failure, copy_args, error_line, forget_args,
    init_args, listing_shows_lock, locks_args, ls_args, output_line, replica_init_args,
    restic_argv, snapshots_args, streaming_failure, unlock_args, with_context, Tail,
};
use backup_home::text::strs;
use backup_home::words::{judge_password, password_argv, split_command_words};

fn owned(texts: &[&str]) -> Vec<String> {
    texts.iter().map(|s| s.to_string()).collect()
}

fn config() -> Config {
    Config {
        home: "/home/x//".to_string(),
        repo: "rclone:r".to_string(),
        password_command: "pass show".to_string(),
        exclude_file: "/ex".to_string(),
        replica_repos: owned(&["sftp:a", "sftp:b"]),
        retention: Retention { daily: 7, weekly: 4, monthly: 12, yearly: 3 },
        verification: Verification { enable: true, sample_size: 300 },
        log_dir: "/log".to_string(),
        log_retention_days: 30,
        status_file: String::new(),
        restic_bin: "restic".to_string(),
        extra_backup_args: owned(&["--time", "now"]),
    }
}

#[test]
fn command_words_split_like_a_shell() {
    assert_eq!(
        split_command_words("passveil show restic/backup"),
        vec!["passveil", "show", "restic/backup"]
    );
    assert_eq!(
        split_command_words(r#"sh -c "echo hi there""#),
        vec!["sh", "-c", "echo hi there"]
    );
    assert_eq!(
        split_command_words(r"cat /My\ Secrets/pw 'single quoted'"),
        vec!["cat", "/My Secrets/pw", "single quoted"]
    );
    assert!(split_command_words("   ").is_empty());
}

#[test]
fn quoting_details_are_those_of_a_shell() {
    assert_eq!(split_command_words(r#"a"b"'c'd"#), vec!["abcd"]);
    assert_eq!(split_command_words(r#"'' "" x"#), vec!["", "", "x"]);
    assert_eq!(split_command_words(r#""\$\`\"\\\n""#), vec![r#"$`"\\n"#]);
    assert_eq!(split_command_words(r"'\n'"), vec![r"\n"]);
    // What is not closed ends with the text, as does a lone backslash.
    assert_eq!(split_command_words(r#""open "#), vec!["open "]);
    assert_eq!(split_command_words(r"a \"), vec!["a"]);
    assert_eq!(split_command_words(r#""a\"#), vec!["a"]);
    assert_eq!(split_command_words("a\u{a0}b\tc\n"), vec!["a", "b", "c"]);
}

#[test]
fn splitting_undoes_double_quoting() {
    for word in ["", "plain", "two words", r#"q"uote"#, r"back\slash", "$`'", "naïve"] {
        let mut quoted = String::from("\"");
        for c in word.chars() {
            if matches!(c, '"' | '\\' | '$' | '`') {
                quoted.push('\\');
            }
            quoted.push(c);
        }
        quoted.push('"');
        assert_eq!(split_command_words(&format!("x {quoted} y")), vec!["x", word, "y"]);
    }
}

#[test]
fn password_command_has_a_program_and_arguments() {
    assert_eq!(password_argv("pass show x"), Ok(("pass".to_string(), owned(&["show", "x"]))));
    assert_eq!(password_argv("pass"), Ok(("pass".to_string(), vec![])));
    assert_eq!(password_argv(" \t"), Err("passwordCommand is empty".to_string()));
}

#[test]
fn password_has_to_be_printed() {
    assert_eq!(judge_password(true, "", b"secret\n"), Ok(()));
    assert_eq!(
        judge_password(true, "", b" \t\n\r\x0c"),
        Err("password command produced no output".to_string())
    );
    // A vertical tab is no white space here.
    assert_eq!(judge_password(true, "", b"\x0b"), Ok(()));
    assert_eq!(
        judge_password(false, "exit status: 2", b"secret"),
        Err("password command failed with exit status: 2".to_string())
    );
}

#[test]
fn command_lines_are_exact() {
    let cfg = config();
    assert_eq!(restic_argv("r", &owned(&["a"])), owned(&["--repo", "r", "a"]));
    assert_eq!(unlock_args(), owned(&["unlock"]));
    assert_eq!(locks_args(), owned(&["list", "locks", "--no-lock"]));
    assert_eq!(snapshots_args(), owned(&["snapshots", "--json"]));
    assert_eq!(init_args(), owned(&["init"]));
    assert_eq!(ls_args("id"), owned(&["ls", "id", "--json"]));
    assert_eq!(
        backup_args(&cfg),
        owned(&[
            "backup", "/home/x/", "--exclude-file", "/ex", "--verbose=2", "--time", "now",
        ])
    );
    assert_eq!(
        forget_args(&cfg.retention),
        owned(&[
            "forget", "--keep-daily", "7", "--keep-weekly", "4", "--keep-monthly", "12",
            "--keep-yearly", "3", "--prune",
        ])
    );
    assert_eq!(
        replica_init_args(&cfg),
        owned(&[
            "init", "--copy-chunker-params", "--from-repo", "rclone:r", "--from-password-command",
            "pass show",
        ])
    );
    let copy = ["copy", "--from-repo", "rclone:r", "--from-password-command", "pass show"];
    let mut one = owned(&copy);
    one.push("id".to_string());
    assert_eq!(copy_args(&cfg, Some(&"id".to_string())), one);
    let mut all = owned(&copy);
    all.extend(owned(&["--path", "/home/x"]));
    assert_eq!(copy_args(&cfg, None), all);
    assert_eq!(strs(&["a", "b"]), owned(&["a", "b"]));
}

#[test]
fn long_command_lines_are_cut() {
    let ten: Vec<String> = (0..10).map(|i| i.to_string()).collect();
    assert_eq!(args_preview(&ten), "0 1 2 3 4 5 6 7 8 9");
    let eleven: Vec<String> = (0..11).map(|i| i.to_string()).collect();
    assert_eq!(args_preview(&eleven), "0 1 2 3 4 5 6 7 ... (11 args total)");
    assert_eq!(announce_line(&owned(&["a", "b"])), "+ restic a b");
    assert_eq!(output_line("x"), "  [restic] x");
    assert_eq!(error_line("x"), "  [restic!] x");
}

#[test]
fn failed_calls_show_the_end_of_the_error_output() {
    let args = owned(&["unlock"]);
    let lines: Vec<String> = (0..7).map(|i| format!("l{i}")).collect();
    assert_eq!(
        capture_failure(&args, "r", "exit status: 1", &lines),
        "restic unlock (repo r) failed with exit status: 1: l2 | l3 | l4 | l5 | l6"
    );
    assert_eq!(
        capture_failure(&args, "r", "exit status: 1", &[]),
        "restic unlock (repo r) failed with exit status: 1: "
    );
    let mut tail = Tail::new();
    assert_eq!(
        streaming_failure(&args, "r", "exit status: 1", &tail),
        "restic unlock (repo r) failed with exit status: 1"
    );
    for i in 0..23 {
        tail.push(format!("l{i}"));
    }
    let kept: Vec<String> = (3..23).map(|i| format!("l{i}")).collect();
    assert_eq!(tail.joined(), kept.join(" | "));
    assert_eq!(
        streaming_failure(&args, "r", "exit status: 1", &tail),
        format!("restic unlock (repo r) failed with exit status: 1: {}", kept.join(" | "))
    );
    assert_eq!(with_context("cannot do it", "because"), "cannot do it: because");
}

#[test]
fn locks_are_seen_in_any_line_that_is_not_blank() {
    assert!(!listing_shows_lock(""));
    assert!(!listing_shows_lock("\n \r\n\t\n"));
    assert!(listing_shows_lock("\n\nabc"));
    assert!(listing_shows_lock("abc\n"));
}

#[test]
fn arguments_name_the_settings() {
    assert!(matches!(parse_arguments(&[]), Ok(Invocation::Run(None))));
    let last = parse_arguments(&owned(&["--config", "a", "--config", "b"]));
    assert!(matches!(last, Ok(Invocation::Run(Some(p))) if p == "b"));
    assert!(matches!(parse_arguments(&owned(&["-h"])), Ok(Invocation::Help)));
    assert!(matches!(parse_arguments(&owned(&["--config", "a", "--help", "x"])), Ok(Invocation::Help)));
    let dash = parse_arguments(&owned(&["--config", "--help"]));
    assert!(matches!(dash, Ok(Invocation::Run(Some(p))) if p == "--help"));
    assert!(matches!(parse_arguments(&owned(&["--config"])), Err(e) if e == "--config needs a path"));
    assert!(!arguments_settle(&[]));
    assert!(!arguments_settle(&owned(&["--config"])));
    assert!(!arguments_settle(&owned(&["--config", "--help"])));
    assert!(arguments_settle(&owned(&["--config", "a", "--help"])));
    assert!(arguments_settle(&owned(&["x"])));
    assert!(matches!(parse_arguments(&owned(&["x", "-h"])), Err(e) if e == "unknown argument: x"));
}

#[test]
fn settings_are_looked_for_in_order() {
    let a = Some("a".to_string());
    let b = Some("b".to_string());
    assert!(matches!(choose_config(a, b.clone(), "{}"), Ok(ConfigSource::File(p)) if p == "a"));
    assert!(matches!(choose_config(None, b, "{}"), Ok(ConfigSource::File(p)) if p == "b"));
    assert!(matches!(choose_config(None, None, "{}"), Ok(ConfigSource::Embedded)));
    let e = choose_config(None, None, "@PLACEHOLDER@");
    assert!(matches!(e, Err(m) if m.starts_with("no configuration: ")));
    assert_eq!(default_restic_bin(), "restic");
    assert_eq!(default_log_retention_days(), 30);
}
