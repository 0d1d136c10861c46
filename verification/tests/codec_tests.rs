//! The typed attribute codec: round trips for every supported shape, and
//! the exact error for every failure mode.

use tilescore::attr::AttrValue;
use tilescore::codec::{
    encode_bool, encode_i32, encode_string, encode_uuid, parse_bool, parse_decimal, parse_i32,
    parse_opt_string, parse_string, parse_uuid, single,
};
use tilescore::errors::StoreError;
use tilescore::codec::{encode_timestamp, parse_timestamp};
use tilescore::stamp::Timestamp;
use tilescore::uid::UuidValue;

#[test]
fn string_round_trip() {
    let v = encode_string(&"Adelaide".to_string());
    assert_eq!(parse_string(Some(&v)).unwrap(), "Adelaide".to_string());
    assert_eq!(
        parse_opt_string(Some(&v)).unwrap(),
        Some("Adelaide".to_string())
    );
}

#[test]
fn string_missing_and_mismatch() {
    assert_eq!(parse_string(None), Err(StoreError::MissingField));
    let num = encode_i32(7);
    assert_eq!(parse_string(Some(&num)), Err(StoreError::TypeMismatch));
    assert_eq!(parse_opt_string(None), Ok(None));
    assert_eq!(parse_opt_string(Some(&num)), Err(StoreError::TypeMismatch));
}

#[test]
fn i32_round_trip() {
    for v in [0, 1, -1, 42, 2147483647, -2147483648] {
        let a = encode_i32(v);
        assert_eq!(parse_i32(Some(&a)).unwrap(), v);
    }
}

#[test]
fn i32_wire_text() {
    match encode_i32(-250) {
        AttrValue::N(s) => assert_eq!(s, "-250".to_string()),
        _ => panic!("integer must ride the number tag"),
    }
}

#[test]
fn i32_errors() {
    assert_eq!(parse_i32(None), Err(StoreError::MissingField));
    let s = AttrValue::S("12".to_string());
    assert_eq!(parse_i32(Some(&s)), Err(StoreError::TypeMismatch));
    let bad = AttrValue::N("12a".to_string());
    assert_eq!(parse_i32(Some(&bad)), Err(StoreError::TypeMismatch));
    let too_big = AttrValue::N("2147483648".to_string());
    assert_eq!(parse_i32(Some(&too_big)), Err(StoreError::TypeMismatch));
    let min = AttrValue::N("-2147483648".to_string());
    assert_eq!(parse_i32(Some(&min)).unwrap(), i32::MIN);
}

#[test]
fn bool_round_trip() {
    assert_eq!(parse_bool(Some(&encode_bool(true))).unwrap(), true);
    assert_eq!(parse_bool(Some(&encode_bool(false))).unwrap(), false);
    assert_eq!(parse_bool(None), Err(StoreError::MissingField));
    let s = AttrValue::S("true".to_string());
    assert_eq!(parse_bool(Some(&s)), Err(StoreError::TypeMismatch));
}

#[test]
fn uuid_round_trip() {
    let u = UuidValue {
        bits: 0x0123_4567_89ab_cdef_0123_4567_89ab_cdef,
    };
    let a = encode_uuid(&u);
    match &a {
        AttrValue::S(s) => assert_eq!(s, "01234567-89ab-cdef-0123-456789abcdef"),
        _ => panic!("identifier must ride the string tag"),
    }
    assert_eq!(parse_uuid(Some(&a)).unwrap(), u);
}

#[test]
fn uuid_text_forms() {
    let u = UuidValue::parse_text("01234567-89AB-CDEF-0123-456789abcdef").unwrap();
    assert_eq!(u.to_text(), "01234567-89ab-cdef-0123-456789abcdef".to_string());
    assert!(UuidValue::parse_text("0123456789abcdef0123456789abcdef").is_none());
    assert!(UuidValue::parse_text("01234567-89ab-cdef-0123-456789abcdeg").is_none());
    assert!(UuidValue::parse_text("").is_none());
    let zero = UuidValue { bits: 0 };
    assert_eq!(zero.to_text(), "00000000-0000-0000-0000-000000000000".to_string());
}

#[test]
fn decimal_texts() {
    for good in ["0", "12", "-34.875", "138.51536049346163", "-0.5"] {
        let a = AttrValue::S(good.to_string());
        assert_eq!(parse_decimal(Some(&a)).unwrap(), good.to_string());
    }
    for bad in ["", "-", ".", "1.", ".5", "1.2.3", "abc", "1e5"] {
        let a = AttrValue::S(bad.to_string());
        assert_eq!(parse_decimal(Some(&a)), Err(StoreError::TypeMismatch));
    }
    assert_eq!(parse_decimal(None), Err(StoreError::MissingField));
}

#[test]
fn single_element() {
    assert_eq!(single(vec![5]).unwrap(), 5);
    assert_eq!(
        single::<i32>(vec![]),
        Err(StoreError::BackendUnavailable)
    );
    assert_eq!(single(vec![1, 2]), Err(StoreError::BackendUnavailable));
}

#[test]
fn timestamp_round_trip() {
    let t = Timestamp {
        year: 2024,
        month: 2,
        day: 29,
        hour: 23,
        minute: 59,
        second: 58,
        micros: 123456,
    };
    let a = encode_timestamp(&t);
    match &a {
        AttrValue::S(s) => assert_eq!(s, "2024-02-29 23:59:58.123456"),
        _ => panic!("timestamp must ride the string tag"),
    }
    assert_eq!(parse_timestamp(Some(&a)).unwrap(), t);
}

#[test]
fn timestamp_calendar_validity() {
    // 2023 is no leap year
    assert!(Timestamp::parse_text("2023-02-29 00:00:00.000000").is_none());
    assert!(Timestamp::parse_text("2024-02-29 00:00:00.000000").is_some());
    // 1900 is divisible by 100 but not 400
    assert!(Timestamp::parse_text("1900-02-29 00:00:00.000000").is_none());
    assert!(Timestamp::parse_text("2000-02-29 00:00:00.000000").is_some());
    assert!(Timestamp::parse_text("2024-04-31 00:00:00.000000").is_none());
    assert!(Timestamp::parse_text("2024-13-01 00:00:00.000000").is_none());
    assert!(Timestamp::parse_text("2024-00-01 00:00:00.000000").is_none());
    assert!(Timestamp::parse_text("2024-01-01 24:00:00.000000").is_none());
    assert!(Timestamp::parse_text("2024-01-01 00:00:00.00000").is_none());
    assert!(Timestamp::parse_text("not a moment").is_none());
    let t = Timestamp::parse_text("0001-12-31 06:07:08.000009").unwrap();
    assert_eq!(t.year, 1);
    assert_eq!(t.micros, 9);
    assert_eq!(t.to_text(), "0001-12-31 06:07:08.000009".to_string());
}
