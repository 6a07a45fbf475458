use extrema_guard::table::Table;
use extrema_guard::text::{
    decimal, hex, is_before, is_blank, join2, join3, padded_hex, parse_unsigned, same_text,
    starts_with, starts_with_lowered,
};
use extrema_guard::pairs::Pairs;

#[test]
fn white_space_is_that_of_the_language() {
    for code in 0..=0x10_ffff_u32 {
        if let Some(c) = char::from_u32(code) {
            let text = c.to_string();
            assert_eq!(is_blank(&text), text.trim().is_empty(), "U+{:04X}", code);
        }
    }
    assert!(is_blank(""));
    assert!(is_blank(" \t\r\n"));
    assert!(!is_blank(" x "));
}

#[test]
fn numbers_print_as_the_language_prints_them() {
    for x in [0, 1, 9, 10, 15, 16, 255, 256, 4_000_000_000, u64::MAX] {
        assert_eq!(decimal(x), format!("{}", x));
        assert_eq!(hex(x), format!("{:x}", x));
        assert_eq!(padded_hex(x, 20), format!("{:020x}", x));
        assert_eq!(padded_hex(x, 4), format!("{:04x}", x));
    }
}

#[test]
fn numbers_parse_as_the_language_parses_them() {
    for text in [
        "", "+", "-", "0", "+0", "-0", "007", "42", "+42", "-42", "4 2", " 42", "4a", "++1",
        "18446744073709551615", "18446744073709551616", "99999999999999999999999",
        "000000000000000000000000001",
    ] {
        assert_eq!(parse_unsigned(text), text.parse::<u64>().ok(), "{}", text);
    }
}

#[test]
fn order_is_that_of_the_language() {
    let texts = ["", "A", "AB", "B", "BTC_USDT_FUT_260327", "BTC_USDT_PERP", "a", "é", "日"];
    for a in texts {
        for b in texts {
            assert_eq!(is_before(a, b), a < b, "{} {}", a, b);
            assert_eq!(same_text(a, b), a == b);
        }
    }
}

#[test]
fn prefixes() {
    assert!(starts_with("t-guard1", "t-guard"));
    assert!(!starts_with("t-gu", "t-guard"));
    assert!(!starts_with("T-guard1", "t-guard"));
    assert!(starts_with_lowered("0XABCD", "0xab"));
    assert!(!starts_with_lowered("0xAC", "0xab"));
    assert_eq!(join2("a", "b"), "ab");
    assert_eq!(join3("a", "", "c"), "ac");
}

#[test]
fn table_keeps_one_value_per_key() {
    let mut table: Table<u64> = Table::new();
    table.insert("a".to_string(), 1);
    table.insert("b".to_string(), 2);
    table.insert("a".to_string(), 3);
    assert_eq!(table.get("a"), Some(&3));
    assert_eq!(table.get("b"), Some(&2));
    assert_eq!(table.get("c"), None);
    assert_eq!(table.keys().len(), 2);
    table.retain(&vec!["b".to_string(), "z".to_string()]);
    assert!(!table.contains("a"));
    assert!(table.remove("b"));
    assert!(!table.remove("b"));
    assert!(table.keys().is_empty());
}

#[test]
fn pairs_are_a_set() {
    let mut pairs = Pairs::new();
    pairs.insert("okx", "A");
    pairs.insert("okx", "B");
    pairs.insert("okx", "A");
    assert!(pairs.contains("okx", "A"));
    assert!(!pairs.contains("A", "okx"));
    assert_eq!(pairs.not_listed(&Vec::new()).len(), 2);
    pairs.remove("okx", "A");
    pairs.remove("okx", "Z");
    assert!(!pairs.contains("okx", "A"));
    assert_eq!(
        pairs.not_listed(&Vec::new()),
        vec![("okx".to_string(), "B".to_string())]
    );
}
