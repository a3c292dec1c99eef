use apex_oled::text::{
    chars_of, parse_u64, push_dec, push_dec02, push_dec4, split_lines, split_words, trim_chars,
};

fn s(v: &[char]) -> String {
    v.iter().collect()
}

#[test]
fn parse_u64_matches_from_str() {
    for t in ["0", "42", "+7", "", "+", "-1", "1 2", "18446744073709551615", "18446744073709551616", "00012"] {
        let chars: Vec<char> = t.chars().collect();
        assert_eq!(parse_u64(&chars), t.parse::<u64>().ok(), "{t:?}");
    }
}

#[test]
fn lines_drop_crlf_and_a_final_newline() {
    let c = chars_of("a\r\nb\n\nc\r");
    let l: Vec<String> = split_lines(&c).iter().map(|v| s(v)).collect();
    assert_eq!(l, vec!["a", "b", "", "c\r"]);
    assert_eq!(split_lines(&chars_of("x\n")).len(), 1);
    assert!(split_lines(&chars_of("")).is_empty());
}

#[test]
fn words_split_at_unicode_whitespace() {
    let c = chars_of("  cpu\t1\u{a0}2 \u{3000}3  ");
    let w: Vec<String> = split_words(&c).iter().map(|v| s(v)).collect();
    assert_eq!(w, vec!["cpu", "1", "2", "3"]);
}

#[test]
fn trim_removes_whitespace_at_both_ends() {
    assert_eq!(s(&trim_chars(&chars_of("  300\n"))), "300");
    assert_eq!(s(&trim_chars(&chars_of(" \t "))), "");
    assert_eq!(s(&trim_chars(&chars_of("a b"))), "a b");
}

#[test]
fn decimal_formatting_matches_format() {
    for n in [0i64, 7, 10, 99, -5, 123456, i64::MIN] {
        let mut v = Vec::new();
        push_dec(&mut v, n);
        assert_eq!(s(&v), format!("{n}"));
        let mut v = Vec::new();
        push_dec02(&mut v, n);
        assert_eq!(s(&v), format!("{n:02}"));
    }
    for n in [0u32, 9, 42, 100, 9999, 123456] {
        let mut v = Vec::new();
        push_dec4(&mut v, n);
        assert_eq!(s(&v), format!("{n:4}"));
    }
}
