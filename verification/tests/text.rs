use crate_docs::text::{
    class_has, collapsed, find_sub, holds_text, is_white_space, join_runs, join_texts, scan,
    scan_back,
    slice_of, split_lines, split_on, split_words, stands_at, to_chars, to_text, trim_bounds,
    trimmed, CharClass,
};

fn chars(s: &str) -> Vec<char> {
    s.chars().collect()
}

fn strings(v: Vec<Vec<char>>) -> Vec<String> {
    v.into_iter().map(|p| p.into_iter().collect()).collect()
}

#[test]
fn chars_and_text_round_trip() {
    let v = to_chars("a\u{e9}b");
    assert_eq!(v, vec!['a', '\u{e9}', 'b']);
    assert_eq!(to_text(&v, 1, 3), "\u{e9}b");
    assert_eq!(slice_of(&v, 0, 2), vec!['a', '\u{e9}']);
}

#[test]
fn classes_hold_their_characters() {
    assert!(class_has(CharClass::Only('a'), 'a'));
    assert!(!class_has(CharClass::Only('a'), 'b'));
    assert!(class_has(CharClass::Except('a'), 'b'));
    assert!(!class_has(CharClass::NonSpace, '\u{a0}'));
    assert!(class_has(CharClass::NonSpace, 'x'));
    assert!(class_has(CharClass::NonDigit, 'x'));
    assert!(!class_has(CharClass::NonDigit, '7'));
}

#[test]
fn scan_finds_first_and_last() {
    let v = chars("ab-cd-e");
    assert_eq!(scan(&v, CharClass::Only('-'), 0), 2);
    assert_eq!(scan(&v, CharClass::Only('-'), 3), 5);
    assert_eq!(scan(&v, CharClass::Only('#'), 0), 7);
    assert_eq!(scan(&v, CharClass::Only('-'), 99), 7);
    assert_eq!(scan_back(&v, CharClass::Only('-'), 7), 6);
    assert_eq!(scan_back(&v, CharClass::Only('-'), 5), 3);
    assert_eq!(scan_back(&v, CharClass::Only('#'), 7), 0);
    assert_eq!(scan_back(&v, CharClass::Only('-'), 99), 0);
}

#[test]
fn trim_drops_white_space_at_both_ends() {
    assert_eq!(trimmed(&chars(" \t a b \n")), chars("a b"));
    assert_eq!(trimmed(&chars("   ")), chars(""));
    assert_eq!(trimmed(&chars("")), chars(""));
    assert_eq!(trim_bounds(&chars("  ab ")), (2, 4));
}

#[test]
fn substring_search() {
    let hay = chars("abcabd");
    assert!(stands_at(&hay, &chars("abd"), 3));
    assert!(!stands_at(&hay, &chars("abd"), 0));
    assert!(!stands_at(&hay, &chars("abd"), 4));
    assert!(stands_at(&hay, &chars(""), 6));
    assert_eq!(find_sub(&hay, &chars("abd"), 0), Some(3));
    assert_eq!(find_sub(&hay, &chars("ab"), 1), Some(3));
    assert_eq!(find_sub(&hay, &chars("x"), 0), None);
    assert_eq!(find_sub(&hay, &chars(""), 0), Some(0));
    assert_eq!(find_sub(&hay, &chars("abcabdx"), 0), None);
}

#[test]
fn split_keeps_empty_pieces() {
    assert_eq!(strings(split_on(&chars("a..b."), '.')), vec!["a", "", "b", ""]);
    assert_eq!(strings(split_on(&chars(""), '.')), vec![""]);
}

#[test]
fn words_are_runs_without_white_space() {
    assert_eq!(strings(split_words(&chars("  ab \n c\td "))), vec!["ab", "c", "d"]);
    assert_eq!(strings(split_words(&chars(" "))), Vec::<String>::new());
    assert_eq!(collapsed(&chars("  ab \n c\td ")), chars("ab c d"));
}

#[test]
fn lines_end_with_line_feeds() {
    assert_eq!(strings(split_lines(&chars("foo\nbar\n\r\nbaz\r"))), vec!["foo", "bar", "", "baz\r"]);
    assert_eq!(strings(split_lines(&chars("a\n"))), vec!["a"]);
    assert_eq!(strings(split_lines(&chars(""))), Vec::<String>::new());
    assert_eq!(strings(split_lines(&chars("\n"))), vec![""]);
}

#[test]
fn lines_agree_with_the_lines_of_std() {
    for s in ["", "\n", "a", "a\n", "a\r\n", "a\r", "\r\n\r\n", "x\n\ny", "a\r\r\nb"] {
        let expected: Vec<String> = s.lines().map(|l| l.to_string()).collect();
        assert_eq!(strings(split_lines(&chars(s))), expected);
    }
}

#[test]
fn join_puts_separator_between() {
    let parts = vec![chars("a"), chars(""), chars("b")];
    assert_eq!(join_runs(&parts, &chars(", ")), chars("a, , b"));
    assert_eq!(join_runs(&Vec::new(), &chars(", ")), chars(""));
    let texts = vec!["x".to_string(), "y".to_string()];
    assert_eq!(join_texts(&texts, "\n"), "x\ny");
    assert_eq!(join_texts(&Vec::new(), "\n"), "");
}

#[test]
fn holds_text_compares_exactly() {
    let items = vec!["a".to_string(), "b ".to_string()];
    assert!(holds_text(&items, &"a".to_string()));
    assert!(!holds_text(&items, &"b".to_string()));
}

#[test]
fn white_space_is_what_std_calls_white_space() {
    for code in 0..=0x10ffffu32 {
        if let Some(c) = char::from_u32(code) {
            assert_eq!(is_white_space(c), c.is_whitespace(), "U+{:04X}", code);
        }
    }
}

#[test]
fn trim_agrees_with_the_trim_of_std() {
    for s in ["", " ", "a", " a", "a ", "\u{3000}a b\u{85}", "\t\n x \r\n", "\u{200b}x"] {
        let got: String = trimmed(&chars(s)).into_iter().collect();
        assert_eq!(got, s.trim());
    }
}

#[test]
fn words_agree_with_the_words_of_std() {
    for s in ["", " ", "a", " a  b ", "a\u{a0}b", "x\ny\tz", "\u{2028}"] {
        let expected: Vec<String> = s.split_whitespace().map(|w| w.to_string()).collect();
        assert_eq!(strings(split_words(&chars(s))), expected);
    }
}
