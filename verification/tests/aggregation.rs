//! Aggregation store behaviour: deduplication, sentinels, ordering.

use wifisnipe::store::Store;

const MAC1: &str = "AA:BB:CC:DD:EE:FF";
const MAC2: &str = "11:22:33:44:55:66";

#[test]
fn get_one_unknown_address_is_not_found() {
    let store = Store::new();
    assert!(store.get_one(MAC1).is_none());
    let mut store = store;
    store.apply(6, MAC1.to_string(), "-40".to_string(), "Net1".to_string(), 100);
    assert!(store.get_one(MAC2).is_none());
}

#[test]
fn get_one_returns_applied_record() {
    let mut store = Store::new();
    store.apply(6, MAC1.to_string(), "-40".to_string(), "Net1".to_string(), 100);
    let d = store.get_one(MAC1).unwrap();
    assert_eq!(d.mac, MAC1);
    assert_eq!(d.channels, vec![6u32]);
    assert_eq!(d.ssids, vec!["Net1".to_string()]);
    assert_eq!(d.rssi, -40);
    assert_eq!(d.ts, 100);
}

#[test]
fn repeated_observations_are_deduplicated() {
    let mut store = Store::new();
    for _ in 0..5 {
        store.apply(6, MAC1.to_string(), "-40".to_string(), "Net1".to_string(), 100);
        store.apply(11, MAC1.to_string(), "-42".to_string(), "Net2".to_string(), 101);
    }
    let d = store.get_one(MAC1).unwrap();
    assert_eq!(d.channels, vec![6u32, 11]);
    assert_eq!(d.ssids, vec!["Net1".to_string(), "Net2".to_string()]);
}

#[test]
fn empty_ssid_is_never_inserted() {
    let mut store = Store::new();
    store.apply(6, MAC1.to_string(), "-40".to_string(), "".to_string(), 100);
    store.apply(6, MAC1.to_string(), "-40".to_string(), "Net1".to_string(), 101);
    store.apply(6, MAC1.to_string(), "-40".to_string(), "".to_string(), 102);
    let d = store.get_one(MAC1).unwrap();
    assert_eq!(d.ssids, vec!["Net1".to_string()]);
}

#[test]
fn only_empty_ssids_yield_the_ssid_sentinel() {
    let mut store = Store::new();
    store.apply(6, MAC1.to_string(), "-40".to_string(), "".to_string(), 100);
    let d = store.get_one(MAC1).unwrap();
    assert_eq!(d.ssids, vec!["".to_string()]);
}

#[test]
fn rssi_and_ts_are_overwritten_not_accumulated() {
    let mut store = Store::new();
    store.apply(6, MAC1.to_string(), "-40".to_string(), "Net1".to_string(), 100);
    store.apply(6, MAC1.to_string(), "-63".to_string(), "Net1".to_string(), 200);
    let d = store.get_one(MAC1).unwrap();
    assert_eq!(d.rssi, -63);
    assert_eq!(d.ts, 200);
}

#[test]
fn unparsable_rssi_falls_back_to_zero() {
    let mut store = Store::new();
    store.apply(6, MAC1.to_string(), "weak".to_string(), "Net1".to_string(), 100);
    let d = store.get_one(MAC1).unwrap();
    assert_eq!(d.rssi, 0);
}

#[test]
fn extreme_rssi_values_parse() {
    let mut store = Store::new();
    store.apply(6, MAC1.to_string(), "-2147483648".to_string(), "".to_string(), 100);
    assert_eq!(store.get_one(MAC1).unwrap().rssi, i32::MIN);
    store.apply(6, MAC1.to_string(), "2147483647".to_string(), "".to_string(), 100);
    assert_eq!(store.get_one(MAC1).unwrap().rssi, i32::MAX);
    store.apply(6, MAC1.to_string(), "-2147483649".to_string(), "".to_string(), 100);
    assert_eq!(store.get_one(MAC1).unwrap().rssi, 0);
}

#[test]
fn get_last_follows_insertion_order_not_recency() {
    let mut store = Store::new();
    store.apply(1, MAC1.to_string(), "-40".to_string(), "A".to_string(), 100);
    store.apply(2, MAC2.to_string(), "-41".to_string(), "B".to_string(), 101);
    // Updating the first address does not make it "last".
    store.apply(3, MAC1.to_string(), "-42".to_string(), "C".to_string(), 102);
    let d = store.get_last().unwrap();
    assert_eq!(d.mac, MAC2);
}

#[test]
fn get_last_on_empty_store_is_none() {
    let store = Store::new();
    assert!(store.get_last().is_none());
}

#[test]
fn get_all_preserves_first_seen_order() {
    let mut store = Store::new();
    store.apply(1, MAC1.to_string(), "-40".to_string(), "A".to_string(), 100);
    store.apply(2, MAC2.to_string(), "-41".to_string(), "B".to_string(), 101);
    store.apply(3, MAC1.to_string(), "-42".to_string(), "C".to_string(), 102);
    let all = store.get_all();
    assert_eq!(all.len(), 2);
    assert_eq!(all[0].mac, MAC1);
    assert_eq!(all[1].mac, MAC2);
}

#[test]
fn invalid_addresses_collapse_into_one_sentinel_record() {
    let mut store = Store::new();
    store.apply(1, "".to_string(), "-40".to_string(), "A".to_string(), 100);
    store.apply(2, "".to_string(), "-41".to_string(), "B".to_string(), 101);
    let all = store.get_all();
    assert_eq!(all.len(), 1);
    assert_eq!(all[0].mac, "");
    assert_eq!(all[0].channels, vec![1u32, 2]);
}

#[test]
fn ingest_applies_decoded_frame() {
    let mut store = Store::new();
    let line = "\u{2}6\u{1f}AA:BB:CC:DD:EE:FF\u{1f}-40\u{1f}Net1\u{1f}\u{3}\r\n";
    store.ingest(line, 100).unwrap();
    let d = store.get_one(MAC1).unwrap();
    assert_eq!(d.channels, vec![6u32]);
    assert_eq!(d.ssids, vec!["Net1".to_string()]);
    assert_eq!(d.rssi, -40);
}

#[test]
fn ingest_malformed_line_leaves_store_unchanged() {
    let mut store = Store::new();
    assert!(store.ingest("nope\n", 100).is_err());
    assert_eq!(store.len(), 0);
    assert!(store.get_all().is_empty());
}

#[test]
fn ingest_now_stamps_with_wall_clock() {
    let mut store = Store::new();
    let line = "\u{2}6\u{1f}AA:BB:CC:DD:EE:FF\u{1f}-40\u{1f}Net1\u{1f}\u{3}\r\n";
    store.ingest_now(line).unwrap();
    let d = store.get_one(MAC1).unwrap();
    // Of the clock only non-negativity is promised.
    assert!(d.ts >= 0);
    assert_eq!(d.channels, vec![6u32]);
    assert!(store.ingest_now("bad\n").is_err());
    assert_eq!(store.len(), 1);
}

#[test]
fn thousand_frames_ten_addresses_aggregate_to_ten_records() {
    let mut store = Store::new();
    // Deterministic pseudo-random frame generation.
    let mut state: u64 = 0x2545F4914F6CDD1D;
    let macs: Vec<String> = (0..10)
        .map(|i| format!("00:11:22:33:44:{:02X}", i * 3))
        .collect();
    for _ in 0..1000 {
        state = state.wrapping_mul(6364136223846793005).wrapping_add(1442695040888963407);
        let mac = &macs[(state >> 33) as usize % 10];
        let channel = ((state >> 20) % 14) as u32 + 1;
        let rssi_text = format!("-{}", (state >> 10) % 100);
        let ssid = format!("net{}", (state >> 5) % 4);
        store.apply(channel, mac.clone(), rssi_text, ssid, 100);
    }
    let all = store.get_all();
    assert_eq!(all.len(), 10);
    for d in all.iter() {
        // Channels and network names are deduplicated in every record.
        for (i, c) in d.channels.iter().enumerate() {
            assert!(!d.channels[i + 1..].contains(c));
        }
        for (i, s) in d.ssids.iter().enumerate() {
            assert!(!d.ssids[i + 1..].contains(s));
            assert!(!s.is_empty());
        }
    }
}
