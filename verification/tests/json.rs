use kludgine::json::{parse_unsigned_range, JsonEntry, JsonValue};

#[test]
fn parses_unsigned_numbers_like_std() {
    let cases = ["0", "42", "+7", "", "+", "-1", "1.0", "1e3", "4294967295", "4294967296", "007"];
    for case in cases {
        let expected = case.parse::<u32>().ok().map(u64::from);
        assert_eq!(
            parse_unsigned_range(case, 0, case.chars().count(), u64::from(u32::MAX)),
            expected,
            "{case}"
        );
    }
    assert_eq!(parse_unsigned_range("ab12cd", 2, 4, 100), Some(12));
    assert_eq!(
        parse_unsigned_range("18446744073709551615", 0, 20, u64::MAX),
        Some(u64::MAX)
    );
    assert_eq!(parse_unsigned_range("18446744073709551616", 0, 20, u64::MAX), None);
}

#[test]
fn number_accessors() {
    let n = JsonValue::Number(String::from("300"));
    assert_eq!(n.as_u32(), Some(300));
    assert_eq!(n.as_u64(), Some(300));
    assert_eq!(n.as_usize(), Some(300));
    let big = JsonValue::Number(String::from("5000000000"));
    assert_eq!(big.as_u32(), None);
    assert_eq!(big.as_u64(), Some(5_000_000_000));
    assert_eq!(JsonValue::String(String::from("3")).as_u32(), None);
}

#[test]
fn object_lookup_takes_first_entry() {
    let value = JsonValue::Object(vec![
        JsonEntry {
            key: String::from("a"),
            value: JsonValue::Number(String::from("1")),
        },
        JsonEntry {
            key: String::from("a"),
            value: JsonValue::Number(String::from("2")),
        },
    ]);
    assert_eq!(value.get(&String::from("a")).unwrap().as_u32(), Some(1));
    assert!(value.get(&String::from("b")).is_none());
    assert!(JsonValue::Null.get(&String::from("a")).is_none());
    assert_eq!(
        JsonValue::String(String::from("hi")).as_string().map(String::as_str),
        Some("hi")
    );
}
