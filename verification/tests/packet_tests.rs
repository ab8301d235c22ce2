use btracked::packet::{BeaconPacket, BeaconPacketParser};
use btracked::reader::SerialReader;
use btracked::util::{clamped_dt_ms, replay_delay_ms, time_now_ms};

fn v1_parser() -> BeaconPacketParser {
    BeaconPacketParser { min_length: 0x18, header: vec![0x0C, 0xFF, 0x00, 0x00], header_start: 0x0B }
}

/// A 24-byte version-1 frame: 11 bytes of advertisement preamble, the
/// 4-byte header, then the 9-byte body.
fn v1_frame(mac: [u8; 6], rssi: i8, sequence: u8, session: u8) -> Vec<u8> {
    let mut f = vec![0u8; 0x0B];
    f.extend_from_slice(&[0x0C, 0xFF, 0x00, 0x00]);
    f.extend_from_slice(&[mac[5], mac[4], mac[3], mac[2], mac[1], mac[0]]);
    f.push(rssi as u8);
    f.push(sequence);
    f.push(session);
    assert_eq!(f.len(), 0x18);
    f
}

#[test]
fn parse_packet_reads_fields_and_reverses_mac() {
    let parser = v1_parser();
    let frame = v1_frame([0xAA, 0xBB, 0xCC, 0xDD, 0xEE, 0xFF], -60, 7, 9);
    let p = parser.parse_packet_at(&frame, 12345).unwrap();
    assert_eq!(p.time, 12345);
    assert_eq!(p.mac, [0xAA, 0xBB, 0xCC, 0xDD, 0xEE, 0xFF]);
    assert_eq!(p.rssi, -60);
    assert_eq!(p.sequence, 7);
    assert_eq!(p.session, 9);
}

#[test]
fn parse_packet_rejects_short_frames() {
    let parser = v1_parser();
    let mut frame = v1_frame([1, 2, 3, 4, 5, 6], 0, 0, 0);
    frame.pop();
    assert!(parser.parse_packet_at(&frame, 0).is_none());
}

#[test]
fn parse_packet_rejects_wrong_header() {
    let parser = v1_parser();
    let mut frame = v1_frame([1, 2, 3, 4, 5, 6], 0, 0, 0);
    frame[0x0B] = 0x0D;
    assert!(parser.parse_packet_at(&frame, 0).is_none());
}

#[test]
fn parse_packet_stamps_wall_clock() {
    let parser = v1_parser();
    let frame = v1_frame([1, 2, 3, 4, 5, 6], -10, 1, 1);
    let before = time_now_ms();
    let p = parser.parse_packet(&frame).unwrap();
    let after = time_now_ms();
    assert!(before <= p.time && p.time <= after);
    assert_eq!(p.mac, [1, 2, 3, 4, 5, 6]);
}

/// Escape a frame for the version-1 wire: the terminator and escape
/// bytes travel as the escape byte followed by their predecessor.
fn v1_wire(frame: &[u8]) -> Vec<u8> {
    let mut wire = Vec::new();
    for &b in frame {
        if b == 0xFE || b == 0xFF {
            wire.push(0xFE);
            wire.push(b - 1);
        } else {
            wire.push(b);
        }
    }
    wire
}

#[test]
fn reader_decodes_and_parses_a_stream() {
    let mut reader = SerialReader::new(1);
    let frame = v1_frame([0xAA, 0xBB, 0xCC, 0xDD, 0xEE, 0x10], -42, 3, 4);
    let mut stream = v1_wire(&frame);
    stream.push(0xFF);
    // A second, garbage "frame" that the parser rejects.
    stream.extend_from_slice(&[0x01, 0x02, 0x03, 0x04, 0x05, 0xFF]);

    let packets: Vec<BeaconPacket> = reader.parse_packets(&stream);
    assert_eq!(packets.len(), 1);
    assert_eq!(packets[0].mac, [0xAA, 0xBB, 0xCC, 0xDD, 0xEE, 0x10]);
    assert_eq!(packets[0].rssi, -42);
    assert_eq!(packets[0].sequence, 3);
    assert_eq!(packets[0].session, 4);
}

#[test]
fn reader_feeds_bytes_incrementally() {
    let mut reader = SerialReader::new(1);
    let frame = v1_frame([9, 8, 7, 6, 5, 4], -1, 2, 3);
    let mut all = Vec::new();
    for &b in v1_wire(&frame).iter() {
        all.extend(reader.parse_packets(&[b]));
    }
    all.extend(reader.parse_packets(&[0xFF]));
    assert_eq!(all.len(), 1);
    assert_eq!(all[0].mac, [9, 8, 7, 6, 5, 4]);
}

#[test]
fn replay_delay_preserves_inter_arrival_gaps() {
    // The first record goes out at once; later records wait out their
    // recorded gap; records that do not move forward in time do not wait.
    assert_eq!(replay_delay_ms(0, 1000), 0);
    assert_eq!(replay_delay_ms(1000, 1250), 250);
    assert_eq!(replay_delay_ms(1250, 1250), 0);
    assert_eq!(replay_delay_ms(1250, 1000), 0);
}

#[test]
fn dt_is_clamped_to_ten_seconds() {
    assert_eq!(clamped_dt_ms(100, 150), 50);
    assert_eq!(clamped_dt_ms(100, 100), 0);
    assert_eq!(clamped_dt_ms(200, 100), 0);
    assert_eq!(clamped_dt_ms(0, 1_000_000), 10_000);
}
