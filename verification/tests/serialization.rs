//! Serialized query output: exact JSON shape, sentinels, NUL safety.

use wifisnipe::store::Store;

const MAC1: &str = "AA:BB:CC:DD:EE:FF";
const MAC2: &str = "11:22:33:44:55:66";

#[test]
fn get_data_all_on_empty_store_is_empty_array() {
    let store = Store::new();
    assert_eq!(store.get_data_all(), "[]\u{0}");
}

#[test]
fn get_data_last_on_empty_store_is_bare_terminator() {
    let store = Store::new();
    assert_eq!(store.get_data_last(), "\u{0}");
}

#[test]
fn get_data_last_exact_record() {
    let mut store = Store::new();
    store.apply(6, MAC1.to_string(), "-40".to_string(), "Net1".to_string(), 1700000000);
    let expected = "{\"mac\":\"AA:BB:CC:DD:EE:FF\",\"ts\":1700000000,\"rssi\":-40,\"channels\":[6],\"ssids\":[\"Net1\"]}\u{0}";
    assert_eq!(store.get_data_last(), expected);
}

#[test]
fn get_data_all_two_records() {
    let mut store = Store::new();
    store.apply(6, MAC1.to_string(), "-40".to_string(), "Net1".to_string(), 100);
    store.apply(1, MAC2.to_string(), "-7".to_string(), "".to_string(), 200);
    let expected = "[{\"mac\":\"AA:BB:CC:DD:EE:FF\",\"ts\":100,\"rssi\":-40,\"channels\":[6],\"ssids\":[\"Net1\"]},{\"mac\":\"11:22:33:44:55:66\",\"ts\":200,\"rssi\":-7,\"channels\":[1],\"ssids\":[\"\"]}]\u{0}";
    assert_eq!(store.get_data_all(), expected);
}

#[test]
fn multiple_channels_and_ssids_are_listed_in_first_seen_order() {
    let mut store = Store::new();
    store.apply(6, MAC1.to_string(), "-40".to_string(), "b".to_string(), 100);
    store.apply(1, MAC1.to_string(), "-41".to_string(), "a".to_string(), 101);
    let out = store.get_data_last();
    assert!(out.contains("\"channels\":[6,1]"));
    assert!(out.contains("\"ssids\":[\"b\",\"a\"]"));
}

#[test]
fn embedded_nul_is_stripped_from_string_fields() {
    let mut store = Store::new();
    store.apply(6, MAC1.to_string(), "-40".to_string(), "a\u{0}b".to_string(), 100);
    let out = store.get_data_last();
    assert!(out.contains("\"ssids\":[\"ab\"]"));
    // The terminator is the only NUL in the result.
    assert_eq!(out.chars().filter(|c| *c == '\u{0}').count(), 1);
    assert!(out.ends_with('\u{0}'));
}

#[test]
fn special_characters_are_escaped() {
    let mut store = Store::new();
    store.apply(6, MAC1.to_string(), "-40".to_string(), "a\"b\\c\nd".to_string(), 100);
    let out = store.get_data_last();
    assert!(out.contains("\"ssids\":[\"a\\\"b\\\\c\\nd\"]"));
}

#[test]
fn other_control_characters_get_unicode_escapes() {
    let mut store = Store::new();
    store.apply(6, MAC1.to_string(), "-40".to_string(), "x\u{1}y\u{1f}z".to_string(), 100);
    let out = store.get_data_last();
    assert!(out.contains("\"ssids\":[\"x\\u0001y\\u001fz\"]"));
}

#[test]
fn negative_extremes_serialize_exactly() {
    let mut store = Store::new();
    store.apply(0, MAC1.to_string(), "-2147483648".to_string(), "".to_string(), -1);
    let out = store.get_data_last();
    assert!(out.contains("\"ts\":-1"));
    assert!(out.contains("\"rssi\":-2147483648"));
    assert!(out.contains("\"channels\":[0]"));
}
