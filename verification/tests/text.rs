use sysinfo_dashboard::text::{
    chars_of, count, find, i32_chars, parse_u64, split_lines, split_whitespace, string_of,
    trim_chars, u64_chars, utf8_len_exceeds, Pat,
};

fn s(v: &[char]) -> String {
    v.iter().collect()
}

#[test]
fn lines_split_like_str_lines() {
    for text in ["", "a", "a\n", "a\nb", "foo\r\nbar\n\nbaz\r", "\n", "\r\n", "x\n\ny\n"] {
        let got: Vec<String> = split_lines(&chars_of(text)).iter().map(|l| s(l)).collect();
        let want: Vec<String> = text.lines().map(|l| l.to_string()).collect();
        assert_eq!(got, want, "{:?}", text);
    }
}

#[test]
fn words_split_like_split_whitespace() {
    for text in ["", "  ", "a b", "MemTotal:        3809036 kB", "\tx\u{3000}y\u{85}z  "] {
        let got: Vec<String> = split_whitespace(&chars_of(text)).iter().map(|w| s(w)).collect();
        let want: Vec<String> = text.split_whitespace().map(|w| w.to_string()).collect();
        assert_eq!(got, want, "{:?}", text);
    }
}

#[test]
fn trims_like_str_trim_and_trim_matches() {
    for text in ["", "  a b  ", "\u{2003}x\n", "── Device ──", "──Device──"] {
        let c = chars_of(text);
        assert_eq!(s(&trim_chars(&c, &Pat::Whitespace)), text.trim());
        assert_eq!(s(&trim_chars(&c, &Pat::Exactly('─'))), text.trim_matches('─'));
    }
    let title = trim_chars(&trim_chars(&chars_of("── Device ──"), &Pat::Exactly('─')), &Pat::Whitespace);
    assert_eq!(s(&title), "Device");
}

#[test]
fn parses_like_str_parse_u64() {
    for text in [
        "", "+", "0", "+42", "-0", "007", "18446744073709551615", "18446744073709551616",
        "12a", " 1", "99999999999999999999999", "1_000",
    ] {
        assert_eq!(parse_u64(&chars_of(text)), text.parse::<u64>().ok(), "{:?}", text);
    }
}

#[test]
fn prints_like_to_string() {
    for n in [0u64, 7, 10, 1234567890, u64::MAX] {
        assert_eq!(s(&u64_chars(n)), n.to_string());
        assert_eq!(parse_u64(&u64_chars(n)), Some(n));
    }
    for n in [0i32, -1, 5, i32::MIN, i32::MAX, -270] {
        assert_eq!(s(&i32_chars(n)), n.to_string());
    }
}

#[test]
fn counts_finds_and_measures() {
    let c = chars_of("10.0.0.1 é");
    assert_eq!(count(&c, '.'), 3);
    assert_eq!(find(&c, ' '), 8);
    assert_eq!(find(&c, 'x'), c.len());
    assert!(utf8_len_exceeds(&c, 10));
    assert!(!utf8_len_exceeds(&c, 11));
    assert_eq!(string_of(&c), "10.0.0.1 é");
}
