use kubesel::order::{sort_strings, str_lex_le};
use kubesel::text::{join, split_lines, split_whitespace, str_eq, usize_to_string};

fn strings(words: &[&str]) -> Vec<String> {
    words.iter().map(|w| w.to_string()).collect()
}

#[test]
fn split_whitespace_matches_std() {
    for s in [
        "",
        "   ",
        "a",
        "a b",
        "  a   b  ",
        "a\tb\r\nc",
        "NAME STATUS AGE",
        "one  two\tthree ",
    ] {
        let expected: Vec<String> = s.split_whitespace().map(String::from).collect();
        assert_eq!(split_whitespace(s), expected, "splitting {:?}", s);
    }
}

#[test]
fn split_lines_matches_std() {
    for s in [
        "",
        "a",
        "a\n",
        "a\nb",
        "a\nb\n",
        "\n",
        "a\r\nb\r\n",
        "NAME\na Running\nb Pending\n",
        "x\n\ny",
    ] {
        let expected: Vec<String> = s.lines().map(String::from).collect();
        assert_eq!(split_lines(s), expected, "splitting {:?}", s);
    }
}

#[test]
fn join_matches_std() {
    assert_eq!(join(&strings(&[]), ","), "");
    assert_eq!(join(&strings(&["a"]), ","), "a");
    assert_eq!(join(&strings(&["a", "b", "c"]), "\n"), "a\nb\nc");
    assert_eq!(join(&strings(&["", "x", ""]), ","), ",x,");
}

#[test]
fn string_equality() {
    assert!(str_eq("", ""));
    assert!(str_eq("abc", "abc"));
    assert!(!str_eq("abc", "abd"));
    assert!(!str_eq("abc", "ab"));
    assert!(str_eq("\u{2388}", "\u{2388}"));
}

#[test]
fn decimal_rendering() {
    assert_eq!(usize_to_string(0), "0");
    assert_eq!(usize_to_string(7), "7");
    assert_eq!(usize_to_string(19), "19");
    assert_eq!(usize_to_string(105), "105");
    assert_eq!(usize_to_string(98765), "98765");
}

#[test]
fn lexicographic_order_matches_std() {
    let cases = [
        ("", ""),
        ("", "a"),
        ("a", ""),
        ("abc", "abd"),
        ("abd", "abc"),
        ("ab", "abc"),
        ("abc", "ab"),
        ("Describe", "Copy"),
        ("ctrl-j", "ctrl-y"),
    ];
    for (a, b) in cases {
        assert_eq!(str_lex_le(a, b), a <= b, "comparing {:?} and {:?}", a, b);
    }
}

#[test]
fn sorting_matches_std() {
    let v = strings(&["pear", "apple", "Banana", "apple", "", "cherry"]);
    let mut expected = v.clone();
    expected.sort();
    assert_eq!(sort_strings(&v), expected);
}
