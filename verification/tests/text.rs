//! Texts and numbers.

use vredrs_codegen::text::{
    contains, dec_text, insert_before_first, int_text, lines_of, parse_i64, parse_u64,
    push_asm_escaped, push_hex, repeat, sanitize_symbol, split_on, TextList, trim, words_of,
};

fn list(texts: &[&str]) -> TextList {
    let mut l = TextList::new();
    for t in texts {
        l.push(t.to_string());
    }
    l
}

#[test]
fn numbers_read_back() {
    for n in [0u64, 9, 10, 4096, u64::MAX] {
        assert_eq!(dec_text(n), format!("{}", n));
        assert_eq!(parse_u64(&dec_text(n), 10), Some(n));
    }
    for i in [0i64, -1, 42, i64::MIN, i64::MAX] {
        assert_eq!(int_text(i), format!("{}", i));
        assert_eq!(parse_i64(&int_text(i)), Some(i));
    }
    assert_eq!(parse_u64("ff", 16), Some(255));
    assert_eq!(parse_u64("", 10), None);
    assert_eq!(parse_u64("+", 10), None);
    assert_eq!(parse_u64("1_0", 10), None);
    assert_eq!(parse_i64("9223372036854775808"), None);
}

#[test]
fn hexadecimal_numbers_are_padded() {
    let hex = |n: u64, width: u8, upper: bool| {
        let mut s = String::new();
        push_hex(&mut s, n, width, upper);
        s
    };
    assert_eq!(hex(0, 0, false), "0");
    assert_eq!(hex(0x2a, 8, true), "0000002A");
    assert_eq!(hex(u64::MAX, 2, false), "ffffffffffffffff");
}

#[test]
fn sorted_texts_are_unique() {
    let s = list(&["b", "a", "é", "b", "ab", ""]).sorted_unique();
    assert_eq!(s.into_vec(), vec!["", "a", "ab", "b", "é"]);
}

#[test]
fn sanitized_symbols_stay_as_they_are() {
    let once = sanitize_symbol("a-b.c é");
    assert_eq!(once, "a_b_c__");
    assert_eq!(sanitize_symbol(&once), once);
}

#[test]
fn texts_are_taken_apart() {
    assert_eq!(lines_of("a\r\nb\n\nc").into_vec(), vec!["a", "b", "", "c"]);
    assert_eq!(lines_of("").into_vec(), Vec::<String>::new());
    assert_eq!(words_of("  one\ttwo\u{3000}three ").into_vec(), vec!["one", "two", "three"]);
    assert_eq!(split_on("a,,b", ',').into_vec(), vec!["a", "", "b"]);
    assert_eq!(trim("\u{a0} x \n"), "x");
    assert_eq!(list(&["a", "b"]).join(", "), "a, b");
    assert!(contains("abcabd", "abd"));
    assert!(!contains("abcabc", "abd"));
    assert_eq!(insert_before_first("xx.text y .text", ".text", "<>"), "xx<>.text y .text");
    assert_eq!(insert_before_first("none", ".text", "<>"), "<>none");
    assert_eq!(repeat("ab", 3), "ababab");
    assert_eq!(repeat("ab", 0), "");
}

#[test]
fn assembly_strings_are_escaped() {
    let mut s = String::new();
    push_asm_escaped(&mut s, "a\\\"\n\r\t\0é");
    assert_eq!(s, "a\\\\\\\"\\n\\r\\t\\0é");
}
