use openworkbench::text::{
    chars_of, decimal_string, is_blank, join_strings, lines_of, parse_u16, parse_u32, parse_u64,
    same_text, split_whitespace, tail_text, trimmed,
};

#[test]
fn trims_unicode_whitespace() {
    assert_eq!(trimmed("  \t abc \n"), "abc");
    assert_eq!(trimmed("\u{3000}x y\u{00a0}"), "x y");
    assert_eq!(trimmed("   "), "");
    assert!(is_blank(" \r\n\t"));
    assert!(!is_blank(" a "));
}

#[test]
fn splits_on_whitespace_runs() {
    let toks = split_whitespace("  emulator-5554\tdevice  product:sdk  ");
    assert_eq!(toks, vec!["emulator-5554", "device", "product:sdk"]);
    assert!(split_whitespace("   ").is_empty());
}

#[test]
fn lines_drop_cr_before_newline_only() {
    assert_eq!(lines_of("a\r\nb\n\nc"), vec!["a", "b", "", "c"]);
    assert_eq!(lines_of("a\n"), vec!["a"]);
    assert!(lines_of("").is_empty());
    assert_eq!(lines_of("x\r"), vec!["x\r"]);
}

#[test]
fn parses_like_std() {
    for s in ["0", "42", "+7", "18446744073709551615", "", "+", "-1", " 1", "1a", "18446744073709551616"] {
        assert_eq!(parse_u64(s), s.parse::<u64>().ok(), "{s}");
    }
    for s in ["115200", "4294967295", "4294967296", "+9", "x"] {
        assert_eq!(parse_u32(s), s.parse::<u32>().ok(), "{s}");
    }
    for s in ["22", "65535", "65536"] {
        assert_eq!(parse_u16(s), s.parse::<u16>().ok(), "{s}");
    }
}

#[test]
fn decimal_round_trip() {
    for n in [0u64, 9, 10, 9847, u64::MAX] {
        let s = decimal_string(n);
        assert_eq!(s, n.to_string());
        assert_eq!(parse_u64(&s), Some(n));
    }
}

#[test]
fn joins_with_separator() {
    let parts = vec!["a".to_string(), "b".to_string(), "c".to_string()];
    assert_eq!(join_strings(&parts, ", "), "a, b, c");
    assert_eq!(join_strings(&Vec::new(), ", "), "");
}

#[test]
fn text_equality_and_chars() {
    assert!(same_text("串口", "串口"));
    assert!(!same_text("a", "ab"));
    assert_eq!(chars_of("日志x"), vec!['日', '志', 'x']);
}

#[test]
fn tail_keeps_last_bytes_and_decodes_lossily() {
    assert_eq!(tail_text(b"hello world", 5), "world");
    assert_eq!(tail_text(b"abc", 100), "abc");
    assert_eq!(tail_text(&[b'o', b'k', 0xff], 10), "ok\u{fffd}");
    assert_eq!(tail_text(b"", 0), "");
}
