use ananicy_rule_o_matic::number::{decimal_chars, decimal_string, parse_i32};
use ananicy_rule_o_matic::order::{key_no_later, stable_order, text_no_later};
use ananicy_rule_o_matic::text::{
    chars_of, contains_chars, is_whitespace, join_strings, join_with_newlines, line_ranges,
    lowercase_chars, same_chars, same_ignoring_ascii_case, slice_chars, split_ranges, trim_range,
};

fn chars(s: &str) -> Vec<char> {
    s.chars().collect()
}

fn pieces(s: &str, ranges: &[(usize, usize)]) -> Vec<String> {
    let all = chars(s);
    ranges.iter().map(|(a, b)| all[*a..*b].iter().collect()).collect()
}

#[test]
fn chars_of_counts_characters_not_bytes() {
    assert_eq!(chars_of("añ€😀"), vec!['a', 'ñ', '€', '😀']);
    assert!(chars_of("").is_empty());
    assert_eq!(slice_chars(&chars("hello"), 1, 3), vec!['e', 'l']);
}

#[test]
fn white_space_is_the_unicode_set() {
    for c in [' ', '\t', '\n', '\u{b}', '\u{c}', '\r', '\u{85}', '\u{a0}', '\u{1680}', '\u{2000}',
        '\u{200a}', '\u{2028}', '\u{2029}', '\u{202f}', '\u{205f}', '\u{3000}']
    {
        assert!(is_whitespace(c), "{:?}", c);
    }
    for c in ['a', '0', '\u{8}', '\u{e}', '\u{1f}', '\u{200b}', '\u{180e}', '\u{feff}', '#', '{'] {
        assert!(!is_whitespace(c), "{:?}", c);
    }
    for code in 0..0x3100u32 {
        if let Some(c) = char::from_u32(code) {
            assert_eq!(is_whitespace(c), c.is_whitespace(), "{:x}", code);
        }
    }
}

#[test]
fn trim_range_agrees_with_trim() {
    for s in ["", "   ", "a", "  a b  ", "\t\r\nx\u{3000}", "x  ", "  x", "\u{a0}{}\u{2028}"] {
        let all = chars(s);
        let (a, b) = trim_range(&all, 0, all.len());
        let got: String = all[a..b].iter().collect();
        assert_eq!(got, s.trim(), "{:?}", s);
    }
    let all = chars("ab  cd  ef");
    assert_eq!(trim_range(&all, 2, 8), (4, 6));
    assert_eq!(trim_range(&all, 2, 4), (4, 4));
}

#[test]
fn split_gives_one_more_piece_than_separators() {
    for s in ["", "/", "a", "a/b", "/a//b/", "///"] {
        let all = chars(s);
        let got = pieces(s, &split_ranges(&all, 0, all.len(), '/'));
        let want: Vec<String> = s.split('/').map(|p| p.to_string()).collect();
        assert_eq!(got, want, "{:?}", s);
    }
    let all = chars("a:b:c");
    assert_eq!(split_ranges(&all, 2, 5, ':'), vec![(2, 3), (4, 5)]);
}

#[test]
fn lines_agree_with_the_standard_ones() {
    for s in ["", "\n", "a", "a\n", "a\nb", "a\r\nb\r\n", "a\r", "a\n\r", "\r\n\r\n", "a\n\nb\n\n",
        "x\r\r\ny"]
    {
        let all = chars(s);
        let got = pieces(s, &line_ranges(&all));
        let want: Vec<String> = s.lines().map(|p| p.to_string()).collect();
        assert_eq!(got, want, "{:?}", s);
    }
}

#[test]
fn join_puts_the_separator_between() {
    let parts = vec!["a".to_string(), "".to_string(), "c".to_string()];
    assert_eq!(join_strings(&parts, " | "), "a |  | c");
    assert_eq!(join_with_newlines(&parts), "a\n\nc");
    assert_eq!(join_strings(&parts[..1].to_vec(), ", "), "a");
    assert_eq!(join_strings(&Vec::new(), ", "), "");
    assert_eq!(join_with_newlines(&vec!["".to_string()]), "");
}

#[test]
fn contains_finds_runs_of_characters() {
    let hay = chars("system.slice");
    assert!(contains_chars(&hay, &chars("system")));
    assert!(contains_chars(&hay, &chars("slice")));
    assert!(contains_chars(&hay, &chars("m.s")));
    assert!(contains_chars(&hay, &chars("")));
    assert!(contains_chars(&hay, &chars("system.slice")));
    assert!(!contains_chars(&hay, &chars("system.slices")));
    assert!(!contains_chars(&hay, &chars("sytem")));
    assert!(contains_chars(&chars(""), &chars("")));
    assert!(!contains_chars(&chars(""), &chars("a")));
}

#[test]
fn lower_case_follows_the_unicode_rules() {
    let lower: String = lowercase_chars("HeLLo ÄÖ Σ").into_iter().collect();
    assert_eq!(lower, "HeLLo ÄÖ Σ".to_lowercase());
    assert_eq!(lower, "hello äö σ");
    assert!(lowercase_chars("").is_empty());
}

#[test]
fn equality_with_and_without_ascii_case() {
    assert!(same_chars(&chars("abc"), &chars("abc")));
    assert!(!same_chars(&chars("abc"), &chars("abC")));
    assert!(!same_chars(&chars("abc"), &chars("ab")));
    assert!(same_ignoring_ascii_case(&chars("Best-Effort"), &chars("bEST-effort")));
    assert!(!same_ignoring_ascii_case(&chars("Ä"), &chars("ä")));
    assert!(!same_ignoring_ascii_case(&chars("@"), &chars("`")));
    assert!(!same_ignoring_ascii_case(&chars("["), &chars("{")));
    assert!(!same_ignoring_ascii_case(&chars("a"), &chars("ab")));
    for (a, b) in [("z", "Z"), ("A", "a"), ("a1_", "A1_"), ("K", "\u{212a}")] {
        assert_eq!(same_ignoring_ascii_case(&chars(a), &chars(b)), a.eq_ignore_ascii_case(b));
    }
}

#[test]
fn decimal_text_of_integers() {
    for n in [0i64, 7, 10, 19, -1, -20, 1000, -1000, 2147483647, -2147483648, i64::MAX, i64::MIN] {
        assert_eq!(decimal_string(n), n.to_string());
        let text: String = decimal_chars(n).into_iter().collect();
        assert_eq!(text, n.to_string());
    }
}

#[test]
fn decimal_text_read_back() {
    let all = chars("x-12y");
    assert_eq!(parse_i32(&all, 1, 4), Some(-12));
    assert_eq!(parse_i32(&all, 2, 4), Some(12));
    assert_eq!(parse_i32(&all, 0, 4), None);
    assert_eq!(parse_i32(&all, 1, 5), None);
    assert_eq!(parse_i32(&all, 1, 2), None);
    assert_eq!(parse_i32(&all, 3, 3), None);
    for s in ["0", "-0", "+0", "0000", "42", "-2147483648", "2147483647", "2147483648", "٣", "1_0",
        " 1", "0x10", "4294967296", "-4294967296"]
    {
        let all = chars(s);
        assert_eq!(parse_i32(&all, 0, all.len()), s.parse::<i32>().ok(), "{:?}", s);
    }
}

#[test]
fn texts_are_ordered_by_code_point() {
    let pairs = [("", ""), ("", "a"), ("a", ""), ("a", "b"), ("b", "a"), ("ab", "abc"), ("abc", "abd"),
        ("Z", "a"), ("a", "é"), ("é", "z"), ("\u{ffff}", "\u{10000}"), ("a-b", "a/b"), ("same", "same")];
    for (a, b) in pairs {
        assert_eq!(text_no_later(&chars(a), &chars(b)), a <= b, "{:?} {:?}", a, b);
    }
}

#[test]
fn keys_are_ordered_text_by_text() {
    let key = |parts: &[&str]| parts.iter().map(|p| chars(p)).collect::<Vec<Vec<char>>>();
    assert!(key_no_later(&key(&["a", "z"]), &key(&["b", "a"])));
    assert!(!key_no_later(&key(&["b", "a"]), &key(&["a", "z"])));
    assert!(key_no_later(&key(&["a", "b"]), &key(&["a", "b"])));
    assert!(key_no_later(&key(&["a"]), &key(&["a", ""])));
    assert!(!key_no_later(&key(&["a", ""]), &key(&["a"])));
    assert!(key_no_later(&key(&["a", "x"]), &key(&["a-b"])));
    assert!(key_no_later(&key(&[]), &key(&[])));
}

#[test]
fn stable_order_sorts_and_keeps_ties_in_place() {
    let key = |parts: &[&str]| parts.iter().map(|p| chars(p)).collect::<Vec<Vec<char>>>();
    let keys = vec![key(&["b", "x"]), key(&["a", "z"]), key(&["b", "x"]), key(&["a", "a"]), key(&["a"])];
    assert_eq!(stable_order(&keys), vec![4, 3, 1, 0, 2]);
    assert_eq!(stable_order(&Vec::new()), Vec::<usize>::new());
    assert_eq!(stable_order(&vec![key(&["only"])]), vec![0]);
}
