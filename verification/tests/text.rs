use ai::text::{
    chars_of, decimal_text, is_white_space, join, split_lines, starts_with, trim,
    trim_end_matches,
};

#[test]
fn white_space_is_unicode_white_space() {
    for c in '\0'..=char::MAX {
        assert_eq!(is_white_space(c), c.is_whitespace(), "{c:?}");
    }
}

#[test]
fn characters_in_order() {
    assert_eq!(chars_of("aé日"), vec!['a', 'é', '日']);
    assert_eq!(chars_of(""), Vec::<char>::new());
}

#[test]
fn trimming_both_ends() {
    for s in ["", " ", "a", " a", "a ", "\n a b\t", "\u{a0}é\u{2003}", "a\u{200b} "] {
        assert_eq!(trim(s), s.trim());
    }
    assert_eq!(trim(" \n a b\t"), "a b");
}

#[test]
fn trimming_a_run_at_the_end() {
    assert_eq!(trim_end_matches("http://a.io/v1///", '/'), "http://a.io/v1");
    assert_eq!(trim_end_matches("///", '/'), "");
    assert_eq!(trim_end_matches("", '/'), "");
    assert_eq!(trim_end_matches("a/b", '/'), "a/b");
}

#[test]
fn prefixes() {
    assert!(starts_with("abc", ""));
    assert!(starts_with("abc", "ab"));
    assert!(starts_with("abc", "abc"));
    assert!(!starts_with("abc", "abcd"));
    assert!(!starts_with("abc", "b"));
    assert!(!starts_with("", "a"));
}

#[test]
fn lines_are_those_of_std() {
    for s in ["", "a", "a\n", "a\nb", "a\r\nb\r\n", "\n", "\n\n", "a\r", "a\r\r\nb", "\r\n", "é\n日"] {
        assert_eq!(split_lines(s), s.lines().collect::<Vec<&str>>(), "{s:?}");
    }
    assert_eq!(split_lines("a\r\nb\n\nc\r"), vec!["a", "b", "", "c\r"]);
}

#[test]
fn joining() {
    assert_eq!(join(&vec![], ", "), "");
    assert_eq!(join(&vec!["a"], ", "), "a");
    assert_eq!(join(&vec!["a", "", "b"], ", "), "a, , b");
}

#[test]
fn joining_the_lines_gives_the_text_back() {
    for s in ["", "a", "a\nb", "a\n\nb\n", "\n"] {
        let closed = format!("{s}\n");
        assert_eq!(join(&split_lines(&closed), "\n"), s);
    }
}

#[test]
fn decimal_numbers() {
    for n in [0, 7, 9, 10, 99, 100, 401, 500, 65535, u64::MAX] {
        assert_eq!(decimal_text(n), format!("{n}"));
    }
    assert_eq!(decimal_text(401), "401");
}
