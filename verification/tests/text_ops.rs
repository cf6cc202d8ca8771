use zkrust::text::{
    chars_of, contains_chars, find_chars_from, replace_str, split_chars_on, split_lines,
    split_words, string_of, trim_chars, trim_str,
};

fn cs(s: &str) -> Vec<char> {
    s.chars().collect()
}

fn strs(v: Vec<Vec<char>>) -> Vec<String> {
    v.into_iter().map(|x| x.into_iter().collect()).collect()
}

#[test]
fn conversions_round_trip() {
    for s in ["", "abc", "héllo\r\n✓"] {
        assert_eq!(string_of(&chars_of(s)), s);
    }
}

#[test]
fn find_and_contains() {
    assert_eq!(find_chars_from(&cs("abcabc"), &cs("bc"), 0), Some(1));
    assert_eq!(find_chars_from(&cs("abcabc"), &cs("bc"), 2), Some(4));
    assert_eq!(find_chars_from(&cs("abc"), &cs(""), 3), Some(3));
    assert_eq!(find_chars_from(&cs("abc"), &cs("x"), 0), None);
    assert!(contains_chars(&cs("a;b"), &cs(";")));
    assert!(!contains_chars(&cs("ab"), &cs(";")));
}

#[test]
fn replace_absent_pattern_changes_nothing() {
    assert_eq!(replace_str("fn main() {}", "zk_rust_io::read();", "x"), "fn main() {}");
}

#[test]
fn trim_like_std() {
    for s in ["", "  a b \t\n", "\u{a0}x\u{3000}", "   ", "x"] {
        assert_eq!(trim_str(s), s.trim());
        assert_eq!(trim_chars(&cs(s)), cs(s.trim()));
    }
}

#[test]
fn trim_twice_same_as_once() {
    for s in ["  a  ", "\t\n", "b"] {
        let once = trim_str(s);
        assert_eq!(trim_str(&once), once);
    }
}

#[test]
fn lines_like_std() {
    for s in ["", "a", "a\n", "a\r\nb", "\n\n", "x\r", "a\nb\r\n\r\nc"] {
        let expected: Vec<String> = s.lines().map(|l| l.to_string()).collect();
        assert_eq!(strs(split_lines(&cs(s))), expected, "input {:?}", s);
    }
}

#[test]
fn split_and_words_like_std() {
    for s in ["", "a,b", ",", "a,,b,"] {
        let expected: Vec<String> = s.split(',').map(|l| l.to_string()).collect();
        assert_eq!(strs(split_chars_on(&cs(s), ',')), expected);
    }
    for s in ["", "  a  b\tc\n", "one"] {
        let expected: Vec<String> = s.split_whitespace().map(|l| l.to_string()).collect();
        assert_eq!(strs(split_words(&cs(s))), expected);
    }
}

#[test]
fn joined_lines_split_back() {
    let ls = vec!["first", "", "  third  "];
    let joined: String = ls.iter().map(|l| format!("{}\n", l)).collect();
    assert_eq!(strs(split_lines(&cs(&joined))), ls.iter().map(|l| l.to_string()).collect::<Vec<_>>());
}
