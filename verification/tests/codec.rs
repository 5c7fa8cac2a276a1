//! The connection-identifier codec: the word dictionary, both printable
//! forms, and the number rendering helpers.

use world_host_server::ids::ConnectionId;
use world_host_server::text::{u64_to_string, u128_to_hex_fixed};
use world_host_server::words::Dictionary;

/// A synthetic dictionary: the first 16384 three-letter lowercase words in
/// alphabetical order. They are ASCII, dash-free and strictly ascending
/// once folded, as `Dictionary::new` demands.
fn test_dictionary() -> Dictionary {
    let mut words = Vec::new();
    'outer: for a in b'a'..=b'z' {
        for b in b'a'..=b'z' {
            for c in b'a'..=b'z' {
                if words.len() == 16384 {
                    break 'outer;
                }
                words.push(String::from_utf8(vec![a, b, c]).unwrap());
            }
        }
    }
    Dictionary::new(words).expect("the synthetic dictionary is well formed")
}

#[test]
fn parse_word_zero() {
    let dict = test_dictionary();
    let id = dict.parse("aaa-aaa-aaa").unwrap();
    assert_eq!(id.raw(), 0);
}

#[test]
fn render_word_zero() {
    let dict = test_dictionary();
    let id = ConnectionId::new(0).unwrap();
    assert_eq!(dict.render(id), "aaa-aaa-aaa");
}

#[test]
fn word_round_trip() {
    let dict = test_dictionary();
    for &v in &[0u64, 1, 16383, 16384, 0x3ffffffffff, 123456789012] {
        let id = ConnectionId::new(v).unwrap();
        let rendered = dict.render(id);
        let parsed = dict.parse(&rendered).unwrap();
        assert_eq!(parsed.raw(), v);
    }
}

#[test]
fn case_insensitive_lookup() {
    let dict = test_dictionary();
    let id = dict.parse("AAB-aaa-Aaa").unwrap();
    assert_eq!(id.raw(), 1);
}

#[test]
fn parse_short_zero() {
    let dict = test_dictionary();
    let id = dict.parse("000000000").unwrap();
    assert_eq!(id.raw(), 0);
}

#[test]
fn parse_short_max() {
    let dict = test_dictionary();
    let id = dict.parse("zzzzzzzzz").unwrap();
    assert_eq!(id.raw(), 36u64.pow(9) - 1);
}

#[test]
fn parse_short_wrong_length() {
    let dict = test_dictionary();
    let err = dict.parse("foo").unwrap_err();
    assert_eq!(
        err,
        "Expected nine digit short connection ID, found 3 digits."
    );
}

#[test]
fn parse_wrong_word_count() {
    let dict = test_dictionary();
    let err = dict.parse("aaa-aaa").unwrap_err();
    assert_eq!(err, "Three words are expected. Found 2 words.");
}

#[test]
fn parse_unknown_word() {
    let dict = test_dictionary();
    let err = dict.parse("aaa-aaa-zzzz").unwrap_err();
    assert_eq!(err, "Unknown word zzzz.");
}

#[test]
fn connection_id_range() {
    assert!(ConnectionId::new((1 << 42) - 1).is_ok());
    let err = ConnectionId::new(1 << 42).unwrap_err();
    assert_eq!(err, format!("Connection ID {} out of range", 1u64 << 42));
}

#[test]
fn decimal_rendering() {
    assert_eq!(u64_to_string(0), "0");
    assert_eq!(u64_to_string(9646), "9646");
    assert_eq!(u64_to_string(u64::MAX), u64::MAX.to_string());
}

#[test]
fn hex_rendering() {
    assert_eq!(u128_to_hex_fixed(0xdeadbeef, 8), "deadbeef");
    assert_eq!(u128_to_hex_fixed(1, 4), "0001");
}
