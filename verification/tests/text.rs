use pliny::text::{
    byte_count, comes_before, concat2, cut_bytes, decimal_text, from_chars, join, lines, match_at,
    same, signed_decimal_text, starts_with, to_chars, trim, without_leading,
};

#[test]
fn characters_come_and_go() {
    let chars = to_chars("aü—");
    assert_eq!(chars, vec!['a', 'ü', '—']);
    assert_eq!(from_chars(&chars, 1, 3), "ü—");
    assert_eq!(from_chars(&chars, 2, 2), "");
}

#[test]
fn texts_compare_by_content() {
    assert!(same("a", "a"));
    assert!(!same("a", "A"));
    assert_eq!(concat2("a", "b"), "ab");
    assert!(starts_with("workspace new", "workspace"));
    assert!(starts_with("x", ""));
    assert!(!starts_with("wo", "workspace"));
    assert!(match_at(&to_chars("abc"), &to_chars("bc"), 1));
    assert!(!match_at(&to_chars("abc"), &to_chars("bc"), 2));
}

#[test]
fn order_is_that_of_str() {
    let words = ["", "a", "ab", "b", "ä", "\u{ffff}", "\u{10000}"];
    for a in words {
        for b in words {
            assert_eq!(comes_before(a, b), a < b);
        }
    }
}

#[test]
fn trimming_is_that_of_str() {
    for s in ["", "  ", " a ", "\u{a0}a b\u{3000}", "\u{200b}a", "\n\ta\r\n", "\u{85}x\u{2028}"] {
        assert_eq!(trim(s), s.trim());
    }
    assert_eq!(without_leading("**a*", '*'), "a*");
}

#[test]
fn lines_are_those_of_str() {
    for s in ["", "\n", "a", "a\n", "a\nb", "a\r\nb\r", "\r\n\n", "a\n\nb\n"] {
        assert_eq!(lines(s), s.lines().collect::<Vec<_>>());
    }
}

#[test]
fn numbers_are_written_in_decimal() {
    for n in [0u128, 7, 10, 99, 100, 1_234_567_890, u128::MAX] {
        assert_eq!(decimal_text(n), n.to_string());
    }
    for n in [0i32, -1, 127, i32::MIN, i32::MAX] {
        assert_eq!(signed_decimal_text(n), n.to_string());
    }
}

#[test]
fn bytes_are_counted_and_cut() {
    assert_eq!(byte_count("aü—"), 6);
    assert_eq!(cut_bytes("aü—", 0), "");
    assert_eq!(cut_bytes("aü—", 1), "a");
    assert_eq!(cut_bytes("aü—", 2), "a");
    assert_eq!(cut_bytes("aü—", 3), "aü");
    assert_eq!(cut_bytes("aü—", 5), "aü");
    assert_eq!(cut_bytes("aü—", 6), "aü—");
    assert_eq!(cut_bytes("aü—", 60), "aü—");
}

#[test]
fn parts_are_joined() {
    let parts = |v: &[&str]| v.iter().map(|s| s.to_string()).collect::<Vec<_>>();
    assert_eq!(join(&parts(&[]), ", "), "");
    assert_eq!(join(&parts(&["a"]), ", "), "a");
    assert_eq!(join(&parts(&["a", "", "b"]), ", "), "a, , b");
}
