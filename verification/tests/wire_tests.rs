use btracked::digits::{from_hex, to_hex, u8x6_from_hex};
use btracked::packet::BeaconPacket;
use btracked::wire::{encode_packet_json, parse_packet_json};

fn packet(time: u64, mac: [u8; 6], rssi: i8, sequence: u8, session: u8) -> BeaconPacket {
    BeaconPacket { time, mac, rssi, sequence, session }
}

#[test]
fn json_round_trip_is_identity() {
    let cases = vec![
        packet(0, [0, 0, 0, 0, 0, 0], 0, 0, 0),
        packet(1234567890123, [0xAA, 0xBB, 0xCC, 0xDD, 0xEE, 0xFF], -50, 17, 3),
        packet(u64::MAX, [0x01, 0x23, 0x45, 0x67, 0x89, 0xAB], -128, 255, 255),
        packet(42, [0x00, 0x10, 0x20, 0x30, 0x40, 0x50], 127, 1, 254),
    ];
    for p in cases {
        let bytes = encode_packet_json(&p);
        let back = parse_packet_json(&bytes);
        assert_eq!(back, Some(p));
    }
}

#[test]
fn json_encoding_has_expected_text() {
    let p = packet(123, [0xAA, 0xBB, 0xCC, 0xDD, 0xEE, 0xFF], -50, 1, 2);
    let bytes = encode_packet_json(&p);
    let text = String::from_utf8(bytes).unwrap();
    assert_eq!(
        text,
        "{\"time\":123,\"mac\":\"aabbccddeeff\",\"rssi\":-50,\"sequence\":1,\"session\":2}"
    );
}

#[test]
fn json_encoding_agrees_with_generic_json_parser() {
    let p = packet(555, [0x0A, 0x1B, 0x2C, 0x3D, 0x4E, 0x5F], -77, 9, 250);
    let bytes = encode_packet_json(&p);
    let v: serde_json::Value = serde_json::from_slice(&bytes).unwrap();
    assert_eq!(v["time"], serde_json::Value::from(555u64));
    assert_eq!(v["mac"], serde_json::Value::from("0a1b2c3d4e5f"));
    assert_eq!(v["rssi"], serde_json::Value::from(-77i64));
    assert_eq!(v["sequence"], serde_json::Value::from(9u64));
    assert_eq!(v["session"], serde_json::Value::from(250u64));
}

#[test]
fn json_parser_rejects_malformed_input() {
    let good = encode_packet_json(&packet(7, [1, 2, 3, 4, 5, 6], -1, 2, 3));
    // Trailing bytes after the closing brace.
    let mut trailing = good.clone();
    trailing.push(b' ');
    assert_eq!(parse_packet_json(&trailing), None);
    // A truncated encoding.
    assert_eq!(parse_packet_json(&good[..good.len() - 1]), None);
    // A leading zero is not canonical.
    let text = "{\"time\":007,\"mac\":\"010203040506\",\"rssi\":-1,\"sequence\":2,\"session\":3}";
    assert_eq!(parse_packet_json(text.as_bytes()), None);
    // An out-of-range signal strength.
    let text = "{\"time\":7,\"mac\":\"010203040506\",\"rssi\":-300,\"sequence\":2,\"session\":3}";
    assert_eq!(parse_packet_json(text.as_bytes()), None);
    // An uppercase mac is rejected by the canonical parser.
    let text = "{\"time\":7,\"mac\":\"0102030405AB\",\"rssi\":-1,\"sequence\":2,\"session\":3}";
    assert_eq!(parse_packet_json(text.as_bytes()), None);
    assert_eq!(parse_packet_json(b""), None);
}

#[test]
fn to_hex_agrees_with_hex_crate() {
    let data = [0x00u8, 0x5A, 0xFF, 0x10, 0xAB, 0xCD];
    let mine = String::from_utf8(to_hex(&data)).unwrap();
    assert_eq!(mine, hex::encode(data));
}

#[test]
fn from_hex_agrees_with_hex_crate() {
    let text = b"00ff10abcd77";
    let mine = from_hex(text).unwrap();
    assert_eq!(mine, hex::decode(text).unwrap());
    assert!(from_hex(b"0g").is_none());
    assert!(from_hex(b"012").is_none());
}

#[test]
fn u8x6_from_hex_parses_both_cases() {
    assert_eq!(u8x6_from_hex(b"aabbccddeeff"), Some([0xAA, 0xBB, 0xCC, 0xDD, 0xEE, 0xFF]));
    assert_eq!(u8x6_from_hex(b"AABBCCDDEEFF"), Some([0xAA, 0xBB, 0xCC, 0xDD, 0xEE, 0xFF]));
    assert_eq!(u8x6_from_hex(b"aabbccddee"), None);
    assert_eq!(u8x6_from_hex(b"aabbccddeeff00"), None);
    assert_eq!(u8x6_from_hex(b"aabbccddeexx"), None);
}
