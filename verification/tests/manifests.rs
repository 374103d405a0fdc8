use backup_home::compare::manifest_diff;
use backup_home::digest::{hex_text, FileDigest};
use backup_home::manifest::{
    assemble_manifest, include_args, restore_args, restored_location, show_ten, RestoredFile,
};
use backup_home::pattern::escape_include_pattern;
use backup_home::report::{manifest_line, restored_line};

fn owned(texts: &[&str]) -> Vec<String> {
    texts.iter().map(|s| s.to_string()).collect()
}

fn rf(path: &str, sha: &str, size: u64) -> RestoredFile {
    RestoredFile { path: path.to_string(), sha256: sha.to_string(), size }
}

#[test]
fn include_patterns_escape_glob_metacharacters() {
    assert_eq!(escape_include_pattern("/h/plain.txt"), "/h/plain.txt");
    assert_eq!(
        escape_include_pattern(r"/h/a*b?c[d]e\f"),
        r"/h/a\*b\?c\[d]e\\f"
    );
}

#[test]
fn escaped_paths_match_only_themselves() {
    for path in ["", "/h/a", r"/h/\*[x]?", "/h/[a-z]*/ü"] {
        let escaped = escape_include_pattern(path);
        let mut read = String::new();
        let mut chars = escaped.chars();
        while let Some(c) = chars.next() {
            // No metacharacter is left that is not escaped.
            assert!(!matches!(c, '*' | '?' | '['), "{escaped}");
            read.push(if c == '\\' { chars.next().unwrap() } else { c });
        }
        assert_eq!(read, path);
    }
}

#[test]
fn manifest_diff_reports_all_mismatch_kinds() {
    let before = vec![rf("/a", "s1", 1), rf("/b", "s2", 2), rf("/c", "s3", 3)];
    assert!(manifest_diff(&before, &before.clone()).is_empty());

    let after = vec![rf("/a", "sX", 1), rf("/b", "s2", 99)];
    let diffs = manifest_diff(&before, &after);
    assert_eq!(diffs.len(), 3, "{diffs:?}");
    assert!(diffs.iter().any(|d| d.contains("sha256 mismatch: /a")));
    assert!(diffs.iter().any(|d| d.contains("size mismatch: /b")));
    assert!(diffs.iter().any(|d| d.contains("missing after: /c")));

    let extra = vec![rf("/a", "s1", 1), rf("/b", "s2", 2), rf("/c", "s3", 3), rf("/d", "s4", 4)];
    let diffs = manifest_diff(&before, &extra);
    assert_eq!(diffs.len(), 1);
    assert!(diffs[0].contains("unexpected extra: /d"));
}

#[test]
fn differences_are_worded_and_ordered() {
    let before = vec![rf("/z", "s1", 1), rf("/b", "s2", 2), rf("/a", "s3", 3)];
    let after = vec![rf("/y", "q", 0), rf("/b", "s2", 5), rf("/z", "s9", 1), rf("/c", "q", 0)];
    assert_eq!(
        manifest_diff(&before, &after),
        owned(&[
            "missing after: /a",
            "size mismatch: /b (2 -> 5)",
            "sha256 mismatch: /z (s1 -> s9)",
            "unexpected extra: /c",
            "unexpected extra: /y",
        ])
    );
}

#[test]
fn order_of_files_does_not_matter() {
    let a = vec![rf("/a", "1", 1), rf("/b", "2", 2), rf("/c", "3", 3)];
    let b = vec![rf("/b", "x", 2), rf("/c", "3", 9), rf("/d", "4", 4), rf("/e", "5", 5)];
    let mut a2 = a.clone();
    a2.reverse();
    let mut b2 = b.clone();
    b2.rotate_left(1);
    assert_eq!(manifest_diff(&a2, &b2), manifest_diff(&a, &b));
    assert!(manifest_diff(&a, &a2).is_empty());
    // One missing, two altered and two extra, whichever way one looks.
    assert_eq!(manifest_diff(&a, &b).len(), 5);
    assert_eq!(manifest_diff(&b, &a).len(), 5);
}

#[test]
fn last_entry_of_a_path_counts() {
    let before = vec![rf("/a", "old", 1), rf("/a", "new", 1)];
    assert!(manifest_diff(&before, &[rf("/a", "new", 1)]).is_empty());
    assert_eq!(
        manifest_diff(&before, &[rf("/a", "old", 1)]),
        owned(&["sha256 mismatch: /a (new -> old)"])
    );
}

#[test]
fn restore_names_every_path_verbatim() {
    let includes = include_args(&owned(&["/h/a", "/h/*"])).unwrap();
    assert_eq!(includes, owned(&["--include", "/h/a", "--include", r"/h/\*"]));
    assert_eq!(
        restore_args("abc", "/tmp/t", &includes),
        owned(&[
            "restore", "abc", "--target", "/tmp/t", "--verify", "--include", "/h/a", "--include",
            r"/h/\*",
        ])
    );
    assert!(include_args(&[]).is_none());
}

#[test]
fn absolute_paths_land_below_the_target() {
    assert_eq!(restored_location("/a/b"), "a/b");
    assert_eq!(restored_location("//a/"), "a/");
    assert_eq!(restored_location("a"), "a");
}

#[test]
fn manifest_is_sorted_by_path() {
    let paths = owned(&["/b", "/a"]);
    let readings =
        vec![Ok(("s2".to_string(), 2)), Ok(("s1".to_string(), 1))];
    let m = assemble_manifest(&paths, &readings, "label").unwrap();
    assert_eq!(m.len(), 2);
    assert_eq!((m[0].path.as_str(), m[0].sha256.as_str(), m[0].size), ("/a", "s1", 1));
    assert_eq!((m[1].path.as_str(), m[1].sha256.as_str(), m[1].size), ("/b", "s2", 2));
}

#[test]
fn unreadable_files_fail_the_manifest() {
    let mut paths = owned(&["/ok"]);
    let mut readings = vec![Ok(("s".to_string(), 1))];
    for i in 0..12 {
        paths.push(format!("/f{i}"));
        readings.push(Err("gone".to_string()));
    }
    let e = assemble_manifest(&paths, &readings, "pre-backup").unwrap_err();
    assert_eq!(
        e,
        "[pre-backup] 12 of 13 restored files missing/unreadable: /f0: gone; /f1: gone; \
         /f2: gone; /f3: gone; /f4: gone; /f5: gone; /f6: gone; /f7: gone; /f8: gone; /f9: gone"
    );
}

#[test]
fn ten_texts_are_shown() {
    assert_eq!(show_ten(&[]), "");
    assert_eq!(show_ten(&owned(&["a", "b"])), "a; b");
    let many: Vec<String> = (0..20).map(|i| i.to_string()).collect();
    assert_eq!(show_ten(&many), "0; 1; 2; 3; 4; 5; 6; 7; 8; 9");
}

#[test]
fn digests_are_those_of_sha_256() {
    let empty = FileDigest::new().finish();
    assert_eq!(
        empty,
        ("e3b0c44298fc1c149afbf4c8996fb92427ae41e4649b934ca495991b7852b855".to_string(), 0)
    );
    let mut whole = FileDigest::new();
    whole.update(b"abc");
    let mut pieces = FileDigest::new();
    pieces.update(b"a");
    pieces.update(b"");
    assert_eq!(pieces.size(), 1);
    pieces.update(b"bc");
    let expected =
        ("ba7816bf8f01cfea414140de5dae2223b00361a396177a9cb410ff61f20015ad".to_string(), 3);
    assert_eq!(whole.finish(), expected);
    assert_eq!(pieces.finish(), expected);
}

#[test]
fn bytes_are_written_in_lower_case_hex() {
    assert_eq!(hex_text(&[0x00, 0x0f, 0xa0, 0xff]), "000fa0ff");
    assert_eq!(hex_text(&[]), "");
}

#[test]
fn restores_and_manifests_are_logged() {
    assert_eq!(restored_line("pre-backup", 300), "[pre-backup] restored and hashed 300 files");
    assert_eq!(manifest_line("/l/x.json"), "manifest written: /l/x.json");
}
