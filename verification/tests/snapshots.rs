use backup_home::snapshot::{
    any_of_home, covers_home, has_short_form, holds_id, latest_by_nanos, latest_home_snapshot,
    listed, ordering_nanos, resolve_copied_snapshot, short_id, snapshot_time_key, Snapshot,
};

fn snap(id: &str, time: &str, path: &str, original: Option<&str>) -> Snapshot {
    Snapshot {
        id: id.to_string(),
        time: time.to_string(),
        paths: vec![path.to_string()],
        original: original.map(|s| s.to_string()),
    }
}

#[test]
fn latest_snapshot_selected_by_home_path_and_time() {
    let snaps = vec![
        snap("old", "2026-07-01T10:00:00Z", "/Users/x", None),
        snap("new", "2026-07-20T10:00:00Z", "/Users/x/", None),
        snap("other", "2026-07-25T10:00:00Z", "/Users/y", None),
    ];
    // trailing slashes on either side are irrelevant
    assert_eq!(latest_home_snapshot(&snaps, "/Users/x/").unwrap().id, "new");
    assert_eq!(latest_home_snapshot(&snaps, "/Users/x").unwrap().id, "new");
    assert!(latest_home_snapshot(&snaps, "/Users/z").is_none());
    assert!(latest_home_snapshot(&[], "/Users/x").is_none());
}

#[test]
fn copied_snapshot_resolved_by_id_or_original() {
    let snaps = vec![
        snap("copy1", "2026-07-01T10:00:00Z", "/Users/x", Some("src1")),
        snap("plain", "2026-07-02T10:00:00Z", "/Users/x", None),
    ];
    assert_eq!(resolve_copied_snapshot(&snaps, "src1").unwrap().id, "copy1");
    assert_eq!(resolve_copied_snapshot(&snaps, "plain").unwrap().id, "plain");
    assert!(resolve_copied_snapshot(&snaps, "missing").is_none());
}

#[test]
fn first_of_several_copies_is_taken() {
    let snaps = vec![
        snap("a", "", "/h", Some("src")),
        snap("b", "", "/h", Some("src")),
        snap("src", "", "/h", None),
    ];
    assert_eq!(resolve_copied_snapshot(&snaps, "src").unwrap().id, "a");
}

#[test]
fn time_key_reads_offsets_and_fractions() {
    // 2026-07-29T14:00:00.5+02:00 is 12:00:00.5 UTC.
    let s = snap("a", "2026-07-29T14:00:00.5+02:00", "/h", None);
    assert_eq!(
        snapshot_time_key(&s),
        (1_785_326_400_500_000_000, "2026-07-29T14:00:00.5+02:00".to_string())
    );
    let epoch = snap("a", "1970-01-01T00:00:01Z", "/h", None);
    assert_eq!(snapshot_time_key(&epoch).0, 1_000_000_000);
    let bad = snap("a", "yesterday", "/h", None);
    assert_eq!(snapshot_time_key(&bad), (i64::MIN, "yesterday".to_string()));
}

#[test]
fn distant_times_are_clamped() {
    // No i64 holds the nanoseconds of these.
    let far = snap("a", "9999-01-01T00:00:00Z", "/h", None);
    assert_eq!(snapshot_time_key(&far).0, i64::MAX);
    let early = snap("a", "0001-01-01T00:00:00Z", "/h", None);
    assert_eq!(snapshot_time_key(&early).0, i64::MIN);
    assert_eq!(ordering_nanos(Some((None, 3))), 3_000_000_000);
    assert_eq!(ordering_nanos(Some((Some(7), 3))), 7);
    assert_eq!(ordering_nanos(None), i64::MIN);
}

#[test]
fn offset_decides_which_is_latest() {
    let snaps = vec![
        snap("east", "2026-07-01T10:00:00+09:00", "/h", None),
        snap("utc", "2026-07-01T09:00:00Z", "/h", None),
    ];
    assert_eq!(latest_home_snapshot(&snaps, "/h").unwrap().id, "utc");
}

#[test]
fn last_of_equally_late_snapshots_is_latest() {
    let snaps = vec![
        snap("first", "2026-07-01T10:00:00Z", "/h", None),
        snap("second", "2026-07-01T10:00:00Z", "/h", None),
    ];
    assert_eq!(latest_home_snapshot(&snaps, "/h").unwrap().id, "second");
    // The same instant, written in two ways: the text decides.
    let texts = vec![
        snap("z", "2026-07-01T10:00:00Z", "/h", None),
        snap("offset", "2026-07-01T10:00:00+00:00", "/h", None),
    ];
    assert_eq!(latest_home_snapshot(&texts, "/h").unwrap().id, "z");
}

#[test]
fn unreadable_time_comes_first() {
    let snaps = vec![
        snap("good", "1900-01-01T00:00:00Z", "/h", None),
        snap("bad", "zzz", "/h", None),
    ];
    assert_eq!(latest_home_snapshot(&snaps, "/h").unwrap().id, "good");
    assert_eq!(latest_by_nanos(&snaps, &[1, 2], "/h"), Some(1));
    assert_eq!(latest_by_nanos(&snaps, &[2, 1], "/h"), Some(0));
    assert_eq!(latest_by_nanos(&snaps, &[2, 1], "/x"), None);
}

#[test]
fn home_is_found_among_several_paths() {
    let mut s = snap("a", "", "/data", None);
    assert!(!covers_home(&s, "/h"));
    s.paths.push("/h///".to_string());
    assert!(covers_home(&s, "/h"));
    assert!(covers_home(&s, "/h/"));
    assert!(!covers_home(&s, "/"));
    assert!(any_of_home(&[snap("b", "", "/x", None), s], "/h"));
    assert!(!any_of_home(&[], "/h"));
}

#[test]
fn listing_of_an_empty_repository_is_empty() {
    assert!(listed(None).is_empty());
    assert_eq!(listed(Some(vec![snap("a", "", "/h", None)])).len(), 1);
}

#[test]
fn short_ids_keep_eight_bytes() {
    assert_eq!(short_id("093147cdaaaa"), "093147cd");
    assert_eq!(short_id("abc"), "abc");
    assert_eq!(short_id(""), "");
    assert!(has_short_form("093147cdaaaa"));
    // Eight bytes would end inside a character.
    assert!(!has_short_form("1234567é9"));
    assert!(has_short_form("123456é9"));
    assert_eq!(short_id("123456é9"), "123456é");
}

#[test]
fn ids_are_looked_up_exactly() {
    let snaps = vec![snap("abc", "", "/h", Some("def"))];
    assert!(holds_id(&snaps, "abc"));
    assert!(!holds_id(&snaps, "ab"));
    assert!(!holds_id(&snaps, "def"));
}
