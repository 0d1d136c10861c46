//! The pagination cursor codec: round trips over every tag, strictness on
//! malformed tokens, and the base64 armour underneath.

use tilescore::attr::{AttrValue, Record};
use tilescore::cursor::{deserialise_db_key, serialise_db_key};
use tilescore::errors::StoreError;

fn attr_eq(a: &AttrValue, b: &AttrValue) -> bool {
    match (a, b) {
        (AttrValue::S(x), AttrValue::S(y)) => x == y,
        (AttrValue::N(x), AttrValue::N(y)) => x == y,
        (AttrValue::B(x), AttrValue::B(y)) => x == y,
        _ => false,
    }
}

fn records_eq(a: &Record, b: &Record) -> bool {
    a.fields.len() == b.fields.len()
        && a.fields
            .iter()
            .zip(b.fields.iter())
            .all(|(x, y)| x.0 == y.0 && attr_eq(&x.1, &y.1))
}

#[test]
fn cursor_round_trip() {
    let mut key = Record::new();
    key.push("SourceIndex", AttrValue::S("8a1234".to_string()));
    key.push("DestinationIndex", AttrValue::S("8a5678".to_string()));
    let token = serialise_db_key(&key);
    let back = deserialise_db_key(token.as_str()).unwrap();
    assert!(records_eq(&key, &back));
}

#[test]
fn cursor_round_trip_all_tags() {
    let mut key = Record::new();
    key.push("Name", AttrValue::S("with \"quotes\" and \\slashes\\".to_string()));
    key.push("Count", AttrValue::N("-42".to_string()));
    key.push("Flag", AttrValue::B(true));
    key.push("Off", AttrValue::B(false));
    key.push("Tricky", AttrValue::S("line\nbreak\tand {braces},:".to_string()));
    let token = serialise_db_key(&key);
    let back = deserialise_db_key(token.as_str()).unwrap();
    assert!(records_eq(&key, &back));
}

#[test]
fn cursor_round_trip_empty() {
    let key = Record::new();
    let token = serialise_db_key(&key);
    let back = deserialise_db_key(token.as_str()).unwrap();
    assert!(records_eq(&key, &back));
}

#[test]
fn cursor_rejects_bad_base64() {
    assert_eq!(
        deserialise_db_key("not-base64").err(),
        Some(StoreError::InvalidCursor)
    );
}

#[test]
fn cursor_rejects_bad_json() {
    // "bm90anNvbg==" is valid base64 of text that is no JSON object
    assert_eq!(
        deserialise_db_key("bm90anNvbg==").err(),
        Some(StoreError::InvalidCursor)
    );
    // valid base64 of "{\"a\":\"X:1\"}": an unknown tag
    assert_eq!(
        deserialise_db_key("eyJhIjoiWDoxIn0=").err(),
        Some(StoreError::InvalidCursor)
    );
    assert_eq!(deserialise_db_key("").err(), Some(StoreError::InvalidCursor));
}

#[test]
fn cursor_token_is_transport_safe() {
    let mut key = Record::new();
    key.push("K", AttrValue::S("value".to_string()));
    let token = serialise_db_key(&key);
    assert!(token
        .chars()
        .all(|c| c.is_ascii_alphanumeric() || c == '+' || c == '/' || c == '='));
}

#[test]
fn cursor_known_encoding() {
    // {"A":"S:x"} in base64
    let mut key = Record::new();
    key.push("A", AttrValue::S("x".to_string()));
    let token = serialise_db_key(&key);
    assert_eq!(token, "eyJBIjoiUzp4In0=".to_string());
}
