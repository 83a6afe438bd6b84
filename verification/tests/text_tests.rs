use journal_pages::text::{chars_of, find_first, matches_at, split_lines, string_of};

fn lines_of(text: &str) -> Vec<String> {
    split_lines(text).iter().map(|l| l.iter().collect()).collect()
}

#[test]
fn chars_and_back() {
    let chars = chars_of("héllo");
    assert_eq!(chars, vec!['h', 'é', 'l', 'l', 'o']);
    assert_eq!(string_of(&chars, 0, 5), "héllo");
    assert_eq!(string_of(&chars, 1, 3), "él");
    assert_eq!(string_of(&chars, 2, 2), "");
    assert_eq!(chars_of(""), Vec::<char>::new());
}

#[test]
fn pattern_at_an_index() {
    let s = chars_of("a:: b:: c");
    let sep = chars_of(":: ");
    assert!(matches_at(&s, &sep, 1));
    assert!(matches_at(&s, &sep, 5));
    assert!(!matches_at(&s, &sep, 0));
    assert!(!matches_at(&s, &sep, 7));
    assert!(!matches_at(&s, &sep, 100));
    assert!(matches_at(&s, &chars_of(""), 9));
    assert!(!matches_at(&s, &chars_of(""), 10));
}

#[test]
fn first_occurrence() {
    let sep = chars_of(":: ");
    assert_eq!(find_first(&chars_of("a:: b:: c"), &sep), Some(1));
    assert_eq!(find_first(&chars_of(":: b"), &sep), Some(0));
    assert_eq!(find_first(&chars_of("a::: b"), &sep), Some(2));
    assert_eq!(find_first(&chars_of("a::b"), &sep), None);
    assert_eq!(find_first(&chars_of("a::"), &sep), None);
    assert_eq!(find_first(&chars_of(""), &sep), None);
    assert_eq!(find_first(&chars_of("abc"), &chars_of("")), Some(0));
    assert_eq!(find_first(&chars_of("ab"), &chars_of("abc")), None);
}

#[test]
fn lines_end_at_line_feeds() {
    assert_eq!(lines_of("a\nb\nc"), vec!["a", "b", "c"]);
    assert_eq!(lines_of("a\nb\nc\n"), vec!["a", "b", "c"]);
    assert_eq!(lines_of("a\n\nb\n"), vec!["a", "", "b"]);
    assert_eq!(lines_of("\n"), vec![""]);
    assert_eq!(lines_of("\n\n"), vec!["", ""]);
    assert_eq!(lines_of(""), Vec::<String>::new());
    assert_eq!(lines_of("abc"), vec!["abc"]);
}

#[test]
fn lines_drop_one_carriage_return_before_a_line_feed() {
    assert_eq!(lines_of("a\r\nb\r\n"), vec!["a", "b"]);
    assert_eq!(lines_of("a\r\r\nb"), vec!["a\r", "b"]);
    assert_eq!(lines_of("a\rb\n"), vec!["a\rb"]);
    assert_eq!(lines_of("a\r"), vec!["a\r"]);
    assert_eq!(lines_of("\r\n"), vec![""]);
}

#[test]
fn lines_agree_with_std() {
    for text in ["", "\n", "a", "a\n", "a\r\n\r\nb\r", "- x\n  y\n\n- z", "\r", "\n\r\n\r"] {
        let expected: Vec<String> = text.lines().map(|l| l.to_string()).collect();
        assert_eq!(lines_of(text), expected, "lines of {:?}", text);
    }
}
