use backup_home::text::{
    begins_with, chars_of, decimal_text, ends_with, is_blank, is_white_space, join_texts, lines_of, same_text,
    string_of, text_before, trim_end_slashes, trim_start_slashes, trim_text,
};
use backup_home::sort::sort_texts;

#[test]
fn white_space_is_that_of_unicode() {
    for c in '\0'..=char::MAX {
        assert_eq!(is_white_space(c), c.is_whitespace(), "{:?}", c);
    }
}

#[test]
fn lines_are_those_of_std() {
    for s in ["", "\n", "a", "a\n", "a\r\nb", "\r\n\r\n", "a\rb\n", "a\r", "\r", "x\n\ny\r\r\n"] {
        let expected: Vec<String> = s.lines().map(|l| l.to_string()).collect();
        assert_eq!(lines_of(s), expected, "{s:?}");
    }
}

#[test]
fn trimming_is_that_of_std() {
    for s in ["", " ", " a ", "a b", "\u{3000}x\u{a0}", "\t\n", "//a//", "///", "a/"] {
        assert_eq!(trim_text(s), s.trim(), "{s:?}");
        assert_eq!(is_blank(s), s.trim().is_empty(), "{s:?}");
        assert_eq!(trim_end_slashes(s), s.trim_end_matches('/'), "{s:?}");
        assert_eq!(trim_start_slashes(s), s.trim_start_matches('/'), "{s:?}");
    }
}

#[test]
fn texts_are_ordered_as_std_orders_them() {
    let words = ["", "a", "ab", "b", "B", "é", "z", "\u{ffff}", "\u{10000}", "aé"];
    for x in words {
        for y in words {
            assert_eq!(text_before(x, y), x < y, "{x:?} {y:?}");
            assert_eq!(same_text(x, y), x == y);
            assert_eq!(begins_with(x, y), x.starts_with(y));
            assert_eq!(ends_with(x, y), x.ends_with(y));
        }
    }
    let mut expected: Vec<String> = words.iter().map(|s| s.to_string()).collect();
    let sorted = sort_texts(expected.clone());
    expected.sort();
    assert_eq!(sorted, expected);
}

#[test]
fn numbers_are_written_in_decimal() {
    for n in [0, 9, 10, 109, 65535, u64::MAX] {
        assert_eq!(decimal_text(n), n.to_string());
    }
}

#[test]
fn texts_are_taken_apart_and_joined() {
    let v = chars_of("naïve");
    assert_eq!(v, vec!['n', 'a', 'ï', 'v', 'e']);
    assert_eq!(string_of(&v, 1, 4), "aïv");
    let parts: Vec<String> = ["a", "", "b"].iter().map(|s| s.to_string()).collect();
    assert_eq!(join_texts(&parts, ", "), "a, , b");
    assert_eq!(join_texts(&[], ", "), "");
}
