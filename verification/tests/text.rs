use panko::text::{parse_i64, parse_u32, push_decimal, split_lines, trim_chars};

fn text_chars(s: &str) -> Vec<char> {
    s.chars().collect()
}

#[test]
fn parse_u32_like_str_parse() {
    assert_eq!(parse_u32(&text_chars("123")), Some(123));
    assert_eq!(parse_u32(&text_chars("+7")), Some(7));
    assert_eq!(parse_u32(&text_chars("4294967295")), Some(u32::MAX));
    assert_eq!(parse_u32(&text_chars("4294967296")), None);
    assert_eq!(parse_u32(&text_chars("")), None);
    assert_eq!(parse_u32(&text_chars("+")), None);
    assert_eq!(parse_u32(&text_chars("12a")), None);
    assert_eq!(parse_u32(&text_chars("-1")), None);
}

#[test]
fn parse_i64_like_str_parse() {
    assert_eq!(parse_i64(&text_chars("-42")), Some(-42));
    assert_eq!(parse_i64(&text_chars("-9223372036854775808")), Some(i64::MIN));
    assert_eq!(parse_i64(&text_chars("9223372036854775808")), None);
    assert_eq!(parse_i64(&text_chars("1.5")), None);
}

#[test]
fn decimal_digits_read_back() {
    for n in [0u64, 7, 10, 4294967295] {
        let mut out = Vec::new();
        push_decimal(&mut out, n);
        let s: String = out.iter().collect();
        assert_eq!(s, n.to_string());
        assert_eq!(parse_u32(&out), Some(n as u32));
    }
}

#[test]
fn lines_and_trimming() {
    let lines: Vec<String> = split_lines(&text_chars("a\r\nb\n\nc")).into_iter().map(|l| l.into_iter().collect()).collect();
    assert_eq!(lines, vec!["a", "b", "", "c"]);
    let t: String = trim_chars(&text_chars("  x y \t")).into_iter().collect();
    assert_eq!(t, "x y");
}
