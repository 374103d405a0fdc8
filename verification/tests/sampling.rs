use backup_home::dice::Dice;
use backup_home::sample::{
    conclude_sample, file_node_path, parse_file_node, path_set, Sampler,
};
use std::collections::{BTreeMap, HashSet};

fn node_line(path: &str, node_type: &str) -> String {
    format!(r#"{{"struct_type":"node","type":"{node_type}","path":"{path}"}}"#)
}

fn owned(paths: &[&str]) -> Vec<String> {
    paths.iter().map(|s| s.to_string()).collect()
}

fn run_sampler(lines: &[String], k: usize, exclude: &[&str]) -> (Vec<String>, usize) {
    let mut dice = Dice::new(rand::rng());
    let mut sampler = Sampler::new(k, path_set(&owned(exclude)));
    for line in lines {
        sampler.offer_line(line, &mut dice);
    }
    sampler.finish()
}

#[test]
fn parses_regular_file_nodes() {
    assert_eq!(
        parse_file_node(&node_line("/h/a.txt", "file")),
        Some("/h/a.txt".to_string())
    );
    assert_eq!(parse_file_node(&node_line("/h/d", "dir")), None);
    assert_eq!(parse_file_node(&node_line("/h/l", "symlink")), None);
    // snapshot header record
    assert_eq!(
        parse_file_node(r#"{"struct_type":"snapshot","id":"abc","paths":["/h"]}"#),
        None
    );
    // newer restic tags with message_type instead
    assert_eq!(
        parse_file_node(r#"{"message_type":"node","type":"file","path":"/h/b"}"#),
        Some("/h/b".to_string())
    );
    assert_eq!(parse_file_node("not json"), None);
    assert_eq!(parse_file_node(""), None);
}

#[test]
fn first_tag_decides() {
    assert_eq!(
        parse_file_node(
            r#"{"struct_type":"other","message_type":"node","type":"file","path":"/h/b"}"#
        ),
        None
    );
    // A tag that is no string does not count.
    assert_eq!(
        parse_file_node(r#"{"struct_type":1,"message_type":"node","type":"file","path":"/h/b"}"#),
        Some("/h/b".to_string())
    );
    assert_eq!(parse_file_node(r#"{"struct_type":"node","type":"file","path":3}"#), None);
    assert_eq!(parse_file_node(r#"{"struct_type":"node","type":"file"}"#), None);
    assert_eq!(parse_file_node(r#"["node"]"#), None);
    assert_eq!(
        parse_file_node("  {\"struct_type\":\"node\",\"type\":\"file\",\"path\":\"/a\\u0041\"} \n"),
        Some("/aA".to_string())
    );
}

#[test]
fn members_decide_the_path() {
    assert_eq!(
        file_node_path(Some("node"), None, Some("file"), Some("/p")),
        Some("/p".to_string())
    );
    assert_eq!(
        file_node_path(None, Some("node"), Some("file"), Some("/p")),
        Some("/p".to_string())
    );
    assert_eq!(file_node_path(None, None, Some("file"), Some("/p")), None);
    assert_eq!(file_node_path(Some("node"), None, Some("dir"), Some("/p")), None);
    assert_eq!(file_node_path(Some("node"), None, None, Some("/p")), None);
    assert_eq!(file_node_path(Some("node"), None, Some("file"), None), None);
}

#[test]
fn sampling_takes_all_files_when_fewer_than_sample_size() {
    let lines: Vec<String> = (0..10).map(|i| node_line(&format!("/h/f{i}"), "file")).collect();
    let (sample, eligible) = run_sampler(&lines, 300, &[]);
    assert_eq!(eligible, 10);
    let set: HashSet<&String> = sample.iter().collect();
    assert_eq!(set.len(), 10);
}

#[test]
fn sampling_is_distinct_and_bounded() {
    let lines: Vec<String> = (0..1000).map(|i| node_line(&format!("/h/f{i}"), "file")).collect();
    let (sample, eligible) = run_sampler(&lines, 300, &[]);
    assert_eq!(eligible, 1000);
    assert_eq!(sample.len(), 300);
    let set: HashSet<&String> = sample.iter().collect();
    assert_eq!(set.len(), 300, "sample must be without replacement");
    for p in &sample {
        assert!(p.starts_with("/h/f"));
    }
}

#[test]
fn sampling_excludes_prior_sample_and_non_files() {
    let mut lines: Vec<String> = (0..10).map(|i| node_line(&format!("/h/f{i}"), "file")).collect();
    lines.push(node_line("/h/somedir", "dir"));
    lines.push(node_line("/h/somelink", "symlink"));
    let (sample, eligible) = run_sampler(&lines, 300, &["/h/f0", "/h/f1", "/h/f2"]);
    assert_eq!(eligible, 7);
    assert_eq!(sample.len(), 7);
    for banned in ["/h/f0", "/h/f1", "/h/f2", "/h/somedir", "/h/somelink"] {
        assert!(!sample.contains(&banned.to_string()), "{banned} must be excluded");
    }
}

#[test]
fn every_file_can_be_drawn() {
    // One of four: with this many tries each is drawn, and none always.
    let lines: Vec<String> = (0..4).map(|i| node_line(&format!("/h/f{i}"), "file")).collect();
    let mut seen = [0usize; 4];
    for _ in 0..2000 {
        let (sample, _) = run_sampler(&lines, 1, &[]);
        assert_eq!(sample.len(), 1);
        for (i, n) in seen.iter_mut().enumerate() {
            if sample[0] == format!("/h/f{i}") {
                *n += 1;
            }
        }
    }
    assert_eq!(seen.iter().sum::<usize>(), 2000);
    for n in seen {
        assert!(n > 300 && n < 700, "{seen:?}");
    }
}

#[test]
fn draws_name_the_slot() {
    let mut s = Sampler::new(2, path_set(&[]));
    assert_eq!(s.draw_bound(), None);
    s.offer_path("a".to_string(), 9);
    assert_eq!(s.draw_bound(), None);
    s.offer_path("b".to_string(), 9);
    assert_eq!(s.draw_bound(), Some(3));
    s.offer_path("c".to_string(), 2);
    assert_eq!(s.draw_bound(), Some(4));
    s.offer_path("d".to_string(), 0);
    assert_eq!(s.finish(), (owned(&["d", "b"]), 4));
}

#[test]
fn every_sample_is_reached_equally_often() {
    // Two of five files: all draws for the last three, 3 * 4 * 5 of them.
    let mut counts: BTreeMap<Vec<String>, usize> = BTreeMap::new();
    for (x, y, z) in (0..60).map(|n| (n % 3, n / 3 % 4, n / 12)) {
        let mut s = Sampler::new(2, path_set(&[]));
        for (path, draw) in [("a", 0), ("b", 0), ("c", x), ("d", y), ("e", z)] {
            s.offer_path(path.to_string(), draw);
        }
        let (mut sample, _) = s.finish();
        sample.sort();
        *counts.entry(sample).or_default() += 1;
    }
    // Each of the ten pairs comes up 3! times.
    assert_eq!(counts.len(), 10);
    assert!(counts.values().all(|n| *n == 6), "{counts:?}");
}

#[test]
fn empty_sample_size_keeps_nothing() {
    let lines: Vec<String> = (0..5).map(|i| node_line(&format!("/h/f{i}"), "file")).collect();
    assert_eq!(run_sampler(&lines, 0, &[]), (vec![], 5));
}

#[test]
fn finished_sample_is_sorted_and_reported() {
    let mut s = Sampler::new(5, path_set(&[]));
    s.offer_path("/b".to_string(), 0);
    s.offer_path("/a".to_string(), 0);
    let done = conclude_sample(s, "0123456789");
    assert_eq!(done.paths, owned(&["/a", "/b"]));
    assert_eq!(done.eligible, 2);
    assert_eq!(
        done.report,
        owned(&[
            "only 2 eligible regular files in snapshot 01234567 (< sample size 5) — testing all of them",
            "sampled 2 of 2 eligible regular files from snapshot 01234567",
        ])
    );
    let mut t = Sampler::new(1, path_set(&[]));
    t.offer_path("/b".to_string(), 0);
    t.offer_path("/a".to_string(), 1);
    let done = conclude_sample(t, "x");
    assert_eq!(done.report, owned(&["sampled 1 of 2 eligible regular files from snapshot x"]));
}
