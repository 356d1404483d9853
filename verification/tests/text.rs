use tokamak::text::{
    chars_of, contains, number, parse_unsigned, pieces, same, str_contains, str_starts_with,
    string_of, trimmed,
};

#[test]
fn texts_are_cut_and_compared() {
    assert!(same("ab", "ab") && !same("ab", "a"));
    assert!(str_contains("llama-cuda", "cuda") && !str_contains("llama", "cuda"));
    assert!(str_contains("x", ""));
    assert!(str_starts_with("data: x", "data:") && !str_starts_with("da", "data:"));
    assert!(contains(&chars_of("a→b"), &chars_of("→")));
    assert_eq!(string_of(trimmed(&chars_of("\u{3000} a b\t\n"))), "a b");
}

#[test]
fn pieces_lie_between_separators() {
    let cs = chars_of("a-b..c");
    let found: Vec<String> = pieces(&cs, &['-', '.']).iter().map(|p| string_of(p)).collect();
    let want: Vec<&str> = "a-b..c".split(['-', '.']).collect();
    assert_eq!(found, want);
}

#[test]
fn numbers_are_written_and_read() {
    for n in [0u64, 7, 10, 1234567890, u64::MAX] {
        assert_eq!(number(n), n.to_string());
        assert_eq!(parse_unsigned(&chars_of(&n.to_string()), u64::MAX), Some(n));
    }
    assert_eq!(parse_unsigned(&chars_of("+5"), 10), Some(5));
    for bad in ["", "+", "-1", " 1", "1a", "18446744073709551616"] {
        assert_eq!(parse_unsigned(&chars_of(bad), u64::MAX), None, "{bad}");
    }
    assert_eq!(parse_unsigned(&chars_of("11"), 10), None);
}
