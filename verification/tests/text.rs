use bread::text::{chars_of, digit_of, digit_to_char, find_char, holds_name, push_decimal, read_decimal, skip_char, string_of, Decimal};

fn decimal(s: &str) -> Decimal {
    let chars: Vec<char> = s.chars().collect();
    read_decimal(&chars, 0, chars.len())
}

#[test]
fn reads_decimal_numbers() {
    assert_eq!(decimal("0"), Decimal::Value(0));
    assert_eq!(decimal("1024"), Decimal::Value(1024));
    assert_eq!(decimal("00012"), Decimal::Value(12));
    assert_eq!(decimal("18446744073709551615"), Decimal::Value(u64::MAX));
    assert_eq!(decimal("18446744073709551616"), Decimal::TooLarge);
    assert_eq!(decimal("99999999999999999999999999"), Decimal::TooLarge);
    assert_eq!(decimal(""), Decimal::Invalid);
    assert_eq!(decimal("12a"), Decimal::Invalid);
    assert_eq!(decimal("+12"), Decimal::Invalid);
    assert_eq!(decimal("99999999999999999999999999x"), Decimal::Invalid);
    let chars: Vec<char> = "ab123cd".chars().collect();
    assert_eq!(read_decimal(&chars, 2, 5), Decimal::Value(123));
}

#[test]
fn writes_decimal_numbers() {
    for (n, text) in [(0u64, "0"), (7, "7"), (10, "10"), (1024, "1024"), (u64::MAX, "18446744073709551615")] {
        let mut s = String::from("n=");
        push_decimal(&mut s, n);
        assert_eq!(s, format!("n={}", text));
        assert_eq!(decimal(text), Decimal::Value(n));
    }
}

#[test]
fn digits() {
    assert_eq!(digit_of('7'), Some(7));
    assert_eq!(digit_of('a'), None);
    assert_eq!(digit_to_char(0), '0');
    assert_eq!(digit_to_char(9), '9');
}

#[test]
fn characters_and_strings() {
    let chars = chars_of("héllo wörld");
    assert_eq!(chars.len(), 11);
    assert_eq!(chars[1], 'é');
    assert_eq!(string_of(&chars, 6, 11), "wörld");
    assert_eq!(string_of(&chars, 3, 3), "");
    assert_eq!(find_char(&chars, 0, 11, 'l'), 2);
    assert_eq!(find_char(&chars, 4, 11, 'l'), 9);
    assert_eq!(find_char(&chars, 0, 11, 'z'), 11);
    assert_eq!(skip_char(&chars, 2, 11, 'l'), 4);
    assert_eq!(skip_char(&chars, 0, 11, 'l'), 0);
}

#[test]
fn name_lists() {
    let names = vec!["a".to_string(), "bc".to_string()];
    assert!(holds_name(&names, &"bc".to_string()));
    assert!(!holds_name(&names, &"b".to_string()));
    assert!(!holds_name(&Vec::new(), &"b".to_string()));
}
