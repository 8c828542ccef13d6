use speaklab_server::text::{
    before, blank, comma_items, decimal_text, not_after, parse_usize, reads, same, starts_with, strip_prefix,
};

#[test]
fn numbers_are_written_in_decimal() {
    for n in [0u64, 7, 10, 99, 100, 65_535, u64::MAX] {
        assert_eq!(decimal_text(n), n.to_string());
    }
}

#[test]
fn blank_is_what_std_trims_away() {
    for c in (0..=0x3001u32).filter_map(char::from_u32) {
        assert_eq!(blank(&c.to_string()), c.is_whitespace(), "{:?}", c);
    }
    assert!(blank(""));
    assert!(!blank(" x "));
}

#[test]
fn texts_are_ordered_as_std_orders_them() {
    let all = ["", "a", "ab", "b", "é", "Z", "\u{ffff}", "\u{10000}", "2026-01-01", "2026-01-01T", "\0"];
    for a in all {
        for b in all {
            assert_eq!(not_after(a, b), a <= b, "{:?} {:?}", a, b);
            assert_eq!(same(a, b), a == b);
            assert_eq!(starts_with(a, b), a.starts_with(b));
            assert_eq!(strip_prefix(a, b), a.strip_prefix(b));
        }
    }
}

#[test]
fn lists_are_split_at_commas() {
    assert_eq!(comma_items(" a ,,b, \t ,c"), vec!["a", "b", "c"]);
    assert!(comma_items("").is_empty());
    assert!(comma_items(" , ").is_empty());
    assert_eq!(comma_items("一，二,三"), vec!["一，二", "三"]);
}

#[test]
fn what_stands_before_a_character() {
    assert_eq!(before("2026-01-01T09", 'T'), "2026-01-01");
    assert_eq!(before("日T月T", 'T'), "日");
    assert_eq!(before("none", 'T'), "none");
    assert_eq!(before("", 'T'), "");
}

#[test]
fn words_are_read_in_any_case() {
    assert!(reads("TrUe", "true"));
    assert!(!reads("true ", "true"));
    assert!(!reads("ＴＲＵＥ", "true"));
    assert_eq!(parse_usize("+12"), Some(12));
    assert_eq!(parse_usize("1_2"), None);
}
