use session_recorder::text::{bytes_le_exec, decimal_text, first_line_of, padded_int_text};

#[test]
fn decimal_text_writes_digits() {
    assert_eq!(decimal_text(0), "0");
    assert_eq!(decimal_text(7), "7");
    assert_eq!(decimal_text(120), "120");
    assert_eq!(decimal_text(4096), "4096");
    assert_eq!(decimal_text(u64::MAX), "18446744073709551615");
}

#[test]
fn padded_int_text_right_aligns() {
    assert_eq!(padded_int_text(0, 3), "  0");
    assert_eq!(padded_int_text(-1, 3), " -1");
    assert_eq!(padded_int_text(127, 3), "127");
    assert_eq!(padded_int_text(1000, 3), "1000");
    assert_eq!(padded_int_text(i32::MIN, 3), "-2147483648");
    assert_eq!(padded_int_text(42, 0), "42");
    for x in [-100, -12, -5, 0, 3, 99, 255, 65535] {
        assert_eq!(padded_int_text(x, 3), format!("{:3}", x));
    }
}

#[test]
fn first_line_matches_str_lines() {
    let cases = ["", "abc", "ab\ncd", "ab\r\ncd", "ab\r", "\nx", "\r\n", "a\rb\nc", "x\n", "é\nü"];
    for case in cases {
        assert_eq!(first_line_of(case), case.lines().next().unwrap_or(""), "case {:?}", case);
    }
    assert_eq!(first_line_of("total 0\nfoo"), "total 0");
}

#[test]
fn bytes_order_is_lexicographic() {
    assert!(bytes_le_exec(b"", b""));
    assert!(bytes_le_exec(b"", b"a"));
    assert!(!bytes_le_exec(b"a", b""));
    assert!(bytes_le_exec(b"ab", b"ab"));
    assert!(bytes_le_exec(b"ab", b"abc"));
    assert!(bytes_le_exec(b"abc", b"abd"));
    assert!(!bytes_le_exec(b"abd", b"abc"));
    assert!(bytes_le_exec(b"2026-01-01T00:00:00Z", b"2026-01-02T00:00:00Z"));
    let words = ["", "a", "b", "ab", "ba", "\u{e9}", "z", "2026"];
    for a in words {
        for b in words {
            assert_eq!(bytes_le_exec(a.as_bytes(), b.as_bytes()), a <= b, "{:?} {:?}", a, b);
        }
    }
}
