use peerlink::text::{
    chars_of, contains, find, find_one, is_whitespace, matches_at, parse_usize, same_text, slice,
    split_lines, string_of, strip_start, trim,
};

fn cs(s: &str) -> Vec<char> {
    s.chars().collect()
}

fn lines(s: &str) -> Vec<String> {
    split_lines(&cs(s)).iter().map(|l| l.iter().collect()).collect()
}

#[test]
fn chars_and_back() {
    assert_eq!(chars_of("h\u{e9}llo \u{1F600}"), cs("h\u{e9}llo \u{1F600}"));
    assert_eq!(chars_of(""), Vec::<char>::new());
    assert_eq!(string_of(&cs("h\u{e9}llo")), "h\u{e9}llo");
    assert_eq!(slice(&cs("abcdef"), 2, 4), cs("cd"));
    assert_eq!(slice(&cs("abcdef"), 3, 3), cs(""));
}

#[test]
fn finding() {
    assert_eq!(find(&cs("hello world"), &cs("o")), Some(4));
    assert_eq!(find(&cs("hello world"), &cs("world")), Some(6));
    assert_eq!(find(&cs("hello"), &cs("")), Some(0));
    assert_eq!(find(&cs(""), &cs("")), Some(0));
    assert_eq!(find(&cs("hello"), &cs("hello!")), None);
    assert_eq!(find(&cs("aab"), &cs("ab")), Some(1));
    assert_eq!(find_one(&cs("a]b]"), ']'), Some(1));
    assert_eq!(find_one(&cs("abc"), ']'), None);
    assert!(contains(&cs("abc"), &cs("bc")));
    assert!(!contains(&cs("abc"), &cs("cb")));
    assert!(matches_at(&cs("abc"), &cs("bc"), 1));
    assert!(!matches_at(&cs("abc"), &cs("bc"), 2));
    assert!(matches_at(&cs("abc"), &cs(""), 3));
    assert!(!matches_at(&cs("abc"), &cs(""), 4));
}

#[test]
fn trimming_agrees_with_std() {
    for s in ["", " ", "  a  ", "\t\r\n a b \u{a0}\u{3000}", "a", "\u{2003}x\u{85}", "\u{200b}x"] {
        assert_eq!(string_of(&trim(&cs(s))), s.trim());
    }
    for c in ['\u{0}', ' ', '\t', '\n', '\u{b}', '\u{c}', '\r', '\u{e}', '\u{1c}', '\u{85}', '\u{a0}',
        '\u{1680}', '\u{180e}', '\u{2000}', '\u{200a}', '\u{200b}', '\u{2028}', '\u{2029}', '\u{202f}',
        '\u{205f}', '\u{3000}', '\u{feff}', 'a']
    {
        assert_eq!(is_whitespace(c), c.is_whitespace());
    }
    assert_eq!(strip_start(&cs("//a/b"), '/'), cs("a/b"));
    assert_eq!(strip_start(&cs("a/"), '/'), cs("a/"));
    assert_eq!(strip_start(&cs("///"), '/'), cs(""));
}

#[test]
fn every_character_is_classed_as_std_does() {
    for n in 0..=0x10FFFFu32 {
        if let Some(c) = char::from_u32(n) {
            assert_eq!(is_whitespace(c), c.is_whitespace());
        }
    }
}

#[test]
fn numbers_agree_with_std() {
    let max = usize::MAX.to_string();
    let over = format!("{}0", max);
    for s in ["0", "7", "007", "+5", "+", "", "-1", "12a", " 1", "1 ", "++1", max.as_str(),
        over.as_str(), "18446744073709551616", "99999999999999999999999999", "\u{661}"]
    {
        assert_eq!(parse_usize(&cs(s)), s.parse::<usize>().ok());
    }
    assert_eq!(parse_usize(&cs("42")), Some(42));
    assert_eq!(parse_usize(&cs(&max)), Some(usize::MAX));
}

#[test]
fn lines_agree_with_std() {
    for s in ["", "a", "a\n", "a\nb", "a\r\nb\r\n", "\n", "\n\n", "a\r", "a\r\n\r\n", "\r\n",
        "a\rb\nc", "x\n\ry\n"]
    {
        let expected: Vec<String> = s.lines().map(|l| l.to_string()).collect();
        assert_eq!(lines(s), expected);
    }
    assert_eq!(lines("one\r\ntwo\nthree"), vec!["one", "two", "three"]);
}

#[test]
fn texts_are_compared_character_for_character() {
    assert!(same_text("abc", "abc"));
    assert!(!same_text("abc", "abd"));
    assert!(!same_text("abc", "ABC"));
    assert!(same_text("", ""));
}
