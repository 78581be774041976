use api_client::encode::{base64_encode, form_encode, json_encode};
use api_client::value::{u64_digits, Field, FieldValue, Record};

fn b(s: &str) -> Vec<u8> {
    s.as_bytes().to_vec()
}

fn record(fields: Vec<(&str, FieldValue)>) -> Record {
    Record {
        fields: fields
            .into_iter()
            .map(|(name, value)| Field { name: b(name), value })
            .collect(),
    }
}

#[test]
fn json_encodes_flat_record() {
    let r = record(vec![
        ("id", FieldValue::Unsigned(1)),
        ("name", FieldValue::Text(b("x"))),
    ]);
    assert_eq!(json_encode(&r), b("{\"id\":1,\"name\":\"x\"}"));
}

#[test]
fn json_encodes_empty_record() {
    let r = record(vec![]);
    assert_eq!(json_encode(&r), b("{}"));
}

#[test]
fn json_encodes_booleans() {
    let r = record(vec![
        ("a", FieldValue::Boolean(true)),
        ("b", FieldValue::Boolean(false)),
    ]);
    assert_eq!(json_encode(&r), b("{\"a\":true,\"b\":false}"));
}

#[test]
fn json_escapes_quote_backslash_and_control() {
    let r = record(vec![("s", FieldValue::Text(vec![34, 92, 1, 97]))]);
    assert_eq!(json_encode(&r), b("{\"s\":\"\\\"\\\\\\u0001a\"}"));
}

#[test]
fn form_encodes_in_declaration_order() {
    let r = record(vec![
        ("a", FieldValue::Unsigned(1)),
        ("b", FieldValue::Unsigned(2)),
    ]);
    assert_eq!(form_encode(&r), b("a=1&b=2"));
}

#[test]
fn form_escapes_space_and_reserved_bytes() {
    let r = record(vec![("q", FieldValue::Text(b("a b&c=d")))]);
    assert_eq!(form_encode(&r), b("q=a+b%26c%3Dd"));
}

#[test]
fn form_keeps_unreserved_bytes() {
    let r = record(vec![("k", FieldValue::Text(b("A9*-._z")))]);
    assert_eq!(form_encode(&r), b("k=A9*-._z"));
}

#[test]
fn base64_standard_vectors() {
    assert_eq!(base64_encode(&b("")), b(""));
    assert_eq!(base64_encode(&b("f")), b("Zg=="));
    assert_eq!(base64_encode(&b("fo")), b("Zm8="));
    assert_eq!(base64_encode(&b("foo")), b("Zm9v"));
    assert_eq!(base64_encode(&b("foob")), b("Zm9vYg=="));
    assert_eq!(base64_encode(&b("fooba")), b("Zm9vYmE="));
    assert_eq!(base64_encode(&b("foobar")), b("Zm9vYmFy"));
}

#[test]
fn decimal_digits_exact() {
    assert_eq!(u64_digits(0), b("0"));
    assert_eq!(u64_digits(7), b("7"));
    assert_eq!(u64_digits(1234567890), b("1234567890"));
    assert_eq!(u64_digits(u64::MAX), b("18446744073709551615"));
}
