use rsh::text::{chars_of, push_decimal, push_signed_decimal, read_number, same_text, split_words, string_of};

fn chars(text: &str) -> Vec<char> {
    text.chars().collect()
}

#[test]
fn decimal_numerals() {
    for (n, text) in [(0u64, "0"), (7, "7"), (10, "10"), (4096, "4096"), (u64::MAX, "18446744073709551615")] {
        let mut out = String::from("n=");
        push_decimal(&mut out, n);
        assert_eq!(out, format!("n={}", text));
    }
}

#[test]
fn signed_numerals() {
    for n in [0i32, 1, -1, 42, -42, i32::MAX, i32::MIN] {
        let mut out = String::new();
        push_signed_decimal(&mut out, n);
        assert_eq!(out, n.to_string());
    }
}

#[test]
fn numbers_are_read_back() {
    assert_eq!(read_number(&chars("0"), 0), Some(0));
    assert_eq!(read_number(&chars("007"), 0), Some(7));
    assert_eq!(read_number(&chars("4294967295"), 0), Some(u32::MAX));
    assert_eq!(read_number(&chars("4294967296"), 0), None);
    assert_eq!(read_number(&chars("99999999999999999999999"), 0), None);
    assert_eq!(read_number(&chars("%12"), 1), Some(12));
    assert_eq!(read_number(&chars("+12"), 0), Some(12));
    assert_eq!(read_number(&chars("++12"), 0), None);
    assert_eq!(read_number(&chars("-12"), 0), None);
    assert_eq!(read_number(&chars(""), 0), None);
    assert_eq!(read_number(&chars("12"), 2), None);
    assert_eq!(read_number(&chars("1 2"), 0), None);
    assert_eq!(read_number(&chars("١٢"), 0), None);
}

#[test]
fn split_at_spaces_keeps_empty_pieces() {
    assert_eq!(split_words(&chars("ls -l")), vec!["ls", "-l"]);
    assert_eq!(split_words(&chars("ls")), vec!["ls"]);
    assert_eq!(split_words(&chars("")), vec![""]);
    assert_eq!(split_words(&chars(" a  b ")), vec!["", "a", "", "b", ""]);
    for text in ["", " ", "a b", "  x ", "no-space", "tab\there"] {
        let expected: Vec<String> = text.split(' ').map(|piece| piece.to_string()).collect();
        assert_eq!(split_words(&chars(text)), expected);
    }
}

#[test]
fn characters_and_strings() {
    assert_eq!(chars_of("héllo"), chars("héllo"));
    assert_eq!(string_of(&chars("héllo wörld"), 6, 11), "wörld");
    assert_eq!(string_of(&chars("abc"), 1, 1), "");
    assert!(same_text("fg", "fg"));
    assert!(!same_text("fg", "bg"));
    assert!(!same_text("fg", "fgx"));
}
