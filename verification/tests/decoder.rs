//! Frame decoder and line framing behaviour.

use wifisnipe::frame::{decode, extract_line, FrameError};

#[test]
fn decode_full_frame() {
    let line = "\u{2}6\u{1f}AA:BB:CC:DD:EE:FF\u{1f}-40\u{1f}Net1\u{1f}\u{3}\r\n";
    let f = decode(line).unwrap();
    assert_eq!(f.channel, 6);
    assert_eq!(f.address, "AA:BB:CC:DD:EE:FF");
    assert_eq!(f.rssi_raw, "-40");
    assert_eq!(f.ssid, "Net1");
}

#[test]
fn decode_no_ssid_frame() {
    let line = "\u{2}11\u{1f}DC-4B-04-19-12-E7\u{1f}-71\u{1f}\u{3}\r\n";
    let f = decode(line).unwrap();
    assert_eq!(f.channel, 11);
    assert_eq!(f.address, "DC-4B-04-19-12-E7");
    assert_eq!(f.rssi_raw, "-71");
    assert_eq!(f.ssid, "");
}

#[test]
fn decode_ssid_matching_rssi_is_not_taken() {
    // The second-to-last field equals the RSSI field textually, so the
    // last field is used instead.
    let line = "\u{2}1\u{1f}AA:BB:CC:DD:EE:FF\u{1f}-40\u{1f}-40\u{1f}\u{3}\n";
    let f = decode(line).unwrap();
    assert_eq!(f.rssi_raw, "-40");
    assert_eq!(f.ssid, "");
}

#[test]
fn decode_two_fields_is_malformed() {
    let line = "too\u{1f}short\n";
    assert_eq!(decode(line), Err(FrameError::Malformed));
}

#[test]
fn decode_empty_line_is_malformed() {
    assert_eq!(decode("\r\n"), Err(FrameError::Malformed));
    assert_eq!(decode(""), Err(FrameError::Malformed));
}

#[test]
fn decode_unparsable_channel_defaults_to_zero() {
    let line = "\u{2}xx\u{1f}AA:BB:CC:DD:EE:FF\u{1f}-40\u{1f}Net\u{1f}\u{3}\n";
    let f = decode(line).unwrap();
    assert_eq!(f.channel, 0);
}

#[test]
fn decode_channel_overflow_defaults_to_zero() {
    let line = "\u{2}99999999999\u{1f}AA:BB:CC:DD:EE:FF\u{1f}-40\u{1f}Net\u{1f}\u{3}\n";
    let f = decode(line).unwrap();
    assert_eq!(f.channel, 0);
}

#[test]
fn decode_invalid_address_becomes_sentinel() {
    let line = "\u{2}6\u{1f}not-a-mac\u{1f}-40\u{1f}Net\u{1f}\u{3}\n";
    let f = decode(line).unwrap();
    assert_eq!(f.address, "");
    let line2 = "\u{2}6\u{1f}AA:BB:CC:DD:EE:GG\u{1f}-40\u{1f}Net\u{1f}\u{3}\n";
    let f2 = decode(line2).unwrap();
    assert_eq!(f2.address, "");
}

#[test]
fn decode_mixed_separators_address_is_valid() {
    let line = "\u{2}6\u{1f}aa:bb-cc:dd-ee:ff\u{1f}-40\u{1f}Net\u{1f}\u{3}\n";
    let f = decode(line).unwrap();
    assert_eq!(f.address, "aa:bb-cc:dd-ee:ff");
}

#[test]
fn extract_line_cuts_at_first_newline() {
    let mut buf: Vec<u8> = b"first\nsecond\n".to_vec();
    let line = extract_line(&mut buf).unwrap().unwrap();
    assert_eq!(line, "first\n");
    assert_eq!(buf, b"second\n".to_vec());
    let line2 = extract_line(&mut buf).unwrap().unwrap();
    assert_eq!(line2, "second\n");
    assert_eq!(buf, Vec::<u8>::new());
}

#[test]
fn extract_line_without_newline_waits() {
    let mut buf: Vec<u8> = b"partial".to_vec();
    assert_eq!(extract_line(&mut buf), Ok(None));
    assert_eq!(buf, b"partial".to_vec());
}

#[test]
fn extract_line_rejects_invalid_utf8() {
    let mut buf: Vec<u8> = vec![0xff, 0xfe, b'\n', b'o', b'k', b'\n'];
    assert_eq!(extract_line(&mut buf), Err(FrameError::Malformed));
    // The bad line is consumed; the next one decodes.
    let line = extract_line(&mut buf).unwrap().unwrap();
    assert_eq!(line, "ok\n");
}
