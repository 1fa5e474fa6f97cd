use hermes::json::{json_null, variant_to_json, Variant};
use hermes::text::{chars_of, compare_text, contains_text, same_text, signed_decimal, unsigned_decimal, TextOrder};

#[test]
fn decimal_text_of_integers() {
    assert_eq!(unsigned_decimal(0), "0");
    assert_eq!(unsigned_decimal(7), "7");
    assert_eq!(unsigned_decimal(1234), "1234");
    assert_eq!(unsigned_decimal(u64::MAX), "18446744073709551615");
    assert_eq!(signed_decimal(-5), "-5");
    assert_eq!(signed_decimal(i64::MIN), "-9223372036854775808");
    assert_eq!(signed_decimal(i64::MAX), "9223372036854775807");
}

#[test]
fn variant_json_text() {
    assert_eq!(variant_to_json(&Variant::Boolean(true)), "true");
    assert_eq!(variant_to_json(&Variant::Boolean(false)), "false");
    assert_eq!(variant_to_json(&Variant::SByte(-128)), "-128");
    assert_eq!(variant_to_json(&Variant::Byte(255)), "255");
    assert_eq!(variant_to_json(&Variant::Int16(-300)), "-300");
    assert_eq!(variant_to_json(&Variant::UInt16(65535)), "65535");
    assert_eq!(variant_to_json(&Variant::Int32(-7)), "-7");
    assert_eq!(variant_to_json(&Variant::UInt32(7)), "7");
    assert_eq!(variant_to_json(&Variant::Int64(-1)), "-1");
    assert_eq!(variant_to_json(&Variant::UInt64(10)), "10");
    assert_eq!(variant_to_json(&Variant::String("Tank \"A\"".to_string())), "\"Tank \\\"A\\\"\"");
    assert_eq!(variant_to_json(&Variant::Other("Empty".to_string())), "\"Empty\"");
    assert_eq!(json_null(), "null");
}

#[test]
fn text_helpers() {
    assert_eq!(chars_of("héllo"), vec!['h', 'é', 'l', 'l', 'o']);
    assert!(same_text("abc", "abc"));
    assert!(!same_text("abc", "abd"));
    assert!(!same_text("abc", "ab"));
    assert!(contains_text("BadNodeIdUnknown", "Bad"));
    assert!(contains_text("x", ""));
    assert!(!contains_text("Ba", "Bad"));
    assert!(contains_text("aaab", "aab"));
}

#[test]
fn text_order_matches_string_order() {
    let cases = [("a", "b"), ("a", "ab"), ("", "a"), ("B", "a"), ("é", "z"), ("abc", "abc")];
    for (x, y) in cases {
        let got = compare_text(&chars_of(x), &chars_of(y));
        let want = match x.cmp(y) {
            std::cmp::Ordering::Less => TextOrder::Less,
            std::cmp::Ordering::Equal => TextOrder::Equal,
            std::cmp::Ordering::Greater => TextOrder::Greater,
        };
        assert_eq!(got, want);
    }
}

#[test]
fn json_string_escapes() {
    assert_eq!(variant_to_json(&Variant::String("a\\b".to_string())), "\"a\\\\b\"");
    assert_eq!(variant_to_json(&Variant::String("\t\n\r\u{8}\u{c}".to_string())), "\"\\t\\n\\r\\b\\f\"");
    assert_eq!(variant_to_json(&Variant::String("\u{1}\u{1f}".to_string())), "\"\\u0001\\u001f\"");
    assert_eq!(variant_to_json(&Variant::String("\u{7f}é/".to_string())), "\"\u{7f}é/\"");
    assert_eq!(variant_to_json(&Variant::String(String::new())), "\"\"");
}
