use lib::numeral::{push_decimal, push_signed, read_i64, read_u8};
use lib::text::{chars_of, is_whitespace, split_lines, split_tokens, strip_comments, to_upper};

#[test]
fn whitespace_matches_std() {
    for code in 0u32..0x11_0000 {
        if let Some(c) = char::from_u32(code) {
            assert_eq!(is_whitespace(c), c.is_whitespace(), "{:?}", c);
        }
    }
}

fn strings(v: Vec<Vec<char>>) -> Vec<String> {
    v.into_iter().map(|l| l.into_iter().collect()).collect()
}

#[test]
fn lines_match_std() {
    for s in ["", "a", "a\n", "a\r\n", "a\r", "\n\n", "x\ny\r\nz", "\r\n\r\n", "q\r\r\n"] {
        let expected: Vec<String> = s.lines().map(|l| l.to_string()).collect();
        assert_eq!(strings(split_lines(&chars_of(s))), expected, "{:?}", s);
    }
}

#[test]
fn tokens_and_comments() {
    let line = chars_of("  Push\t 5  ; five ; more ");
    let code = strip_comments(&line);
    assert_eq!(code.iter().collect::<String>(), "Push\t 5");
    assert_eq!(strings(split_tokens(&code)), vec!["Push", "5"]);
    assert_eq!(to_upper(&chars_of("pUsh-é")).iter().collect::<String>(), "PUSH-é");
    assert!(strip_comments(&chars_of("   ; all comment")).is_empty());
}

#[test]
fn numerals_match_std() {
    for s in ["0", "-0", "+12", "-", "+", "", "12a", "9223372036854775807", "-9223372036854775808",
              "9223372036854775808", "99999999999999999999999", " 1", "--1", "+-1"] {
        assert_eq!(read_i64(&chars_of(s)), s.parse::<i64>().ok(), "{:?}", s);
        assert_eq!(read_u8(&chars_of(s)), s.parse::<u8>().ok(), "{:?}", s);
    }
    for s in ["255", "256", "+255", "-1", "000255", "1000"] {
        assert_eq!(read_u8(&chars_of(s)), s.parse::<u8>().ok(), "{:?}", s);
    }
    for v in [0i64, 7, -7, 10, 1234567890, i64::MIN, i64::MAX] {
        let mut out = Vec::new();
        push_signed(&mut out, v);
        assert_eq!(out.iter().collect::<String>(), v.to_string());
    }
    let mut out = Vec::new();
    push_decimal(&mut out, u64::MAX);
    assert_eq!(out.iter().collect::<String>(), u64::MAX.to_string());
}
