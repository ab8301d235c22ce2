use btracked::decoder::{SerialDecoder, SerialDecoderV1, SerialDecoderV2};

fn feed_all(dec: &mut SerialDecoder, bytes: &[u8]) -> Vec<Vec<u8>> {
    let mut frames = Vec::new();
    for &b in bytes {
        if let Some(frame) = dec.next(b) {
            frames.push(frame);
        }
    }
    frames
}

#[test]
fn decoder_v1_short_frame_not_emitted() {
    // The escaped byte 0xFD arrives as 0xFE 0xFD and decodes to 0xFE, but
    // the completed buffer has length 3, under the minimum of 5.
    let mut dec = SerialDecoderV1::new();
    assert_eq!(dec.next(0xAA), None);
    assert_eq!(dec.next(0xBB), None);
    assert_eq!(dec.next(0xFE), None);
    assert_eq!(dec.next(0xFD), None);
    assert_eq!(dec.next(0xFF), None);
}

#[test]
fn decoder_v1_emits_frame_longer_than_four() {
    let mut dec = SerialDecoderV1::new();
    for b in [0xAAu8, 0xBB, 0xCC, 0xDD, 0xEE] {
        assert_eq!(dec.next(b), None);
    }
    assert_eq!(dec.next(0xFF), Some(vec![0xAA, 0xBB, 0xCC, 0xDD, 0xEE]));
}

#[test]
fn decoder_v1_unescapes_as_successor() {
    let mut dec = SerialDecoderV1::new();
    for b in [0x01u8, 0x02, 0x03, 0x04, 0xFE, 0xFD] {
        assert_eq!(dec.next(b), None);
    }
    assert_eq!(dec.next(0xFF), Some(vec![0x01, 0x02, 0x03, 0x04, 0xFE]));
}

#[test]
fn decoder_v1_resets_after_frame() {
    let mut dec = SerialDecoderV1::new();
    for b in [0x01u8, 0x02, 0x03, 0x04, 0x05] {
        dec.next(b);
    }
    assert!(dec.next(0xFF).is_some());
    for b in [0x11u8, 0x12, 0x13, 0x14, 0x15] {
        assert_eq!(dec.next(b), None);
    }
    assert_eq!(dec.next(0xFF), Some(vec![0x11, 0x12, 0x13, 0x14, 0x15]));
}

#[test]
fn decoder_v2_emits_four_byte_frame() {
    let mut dec = SerialDecoderV2::new();
    let mut frames = Vec::new();
    for b in [0xABu8, 0x01, 0x02, 0x03, 0x04, 0xBC] {
        if let Some(f) = dec.next(b) {
            frames.push(f);
        }
    }
    assert_eq!(frames, vec![vec![0x01, 0x02, 0x03, 0x04]]);
}

#[test]
fn decoder_v2_escape_restores_reserved_byte() {
    // 0xCD 0xAA decodes to 0xAB inside the frame. With a fourth payload
    // byte the frame reaches the minimum length and is emitted.
    let mut dec = SerialDecoderV2::new();
    let mut frames = Vec::new();
    for b in [0xABu8, 0x01, 0xCD, 0xAA, 0x02, 0x03, 0xBC] {
        if let Some(f) = dec.next(b) {
            frames.push(f);
        }
    }
    assert_eq!(frames, vec![vec![0x01, 0xAB, 0x02, 0x03]]);
}

#[test]
fn decoder_v2_short_frame_not_emitted() {
    // The unescaped payload 0x01 0xAB 0x02 has only three bytes, under
    // the four-byte minimum, so the end byte completes no frame.
    let mut dec = SerialDecoderV2::new();
    for b in [0xABu8, 0x01, 0xCD, 0xAA, 0x02, 0xBC] {
        assert_eq!(dec.next(b), None);
    }
}

#[test]
fn decoder_v2_discards_garbage_between_frames() {
    let mut dec = SerialDecoderV2::new();
    let mut frames = Vec::new();
    let stream = [
        0x55u8, 0x66, // garbage before any start byte
        0xAB, 0x01, 0x02, 0x03, 0x04, 0xBC, // a frame
        0x77, 0x88, // garbage between end and next start
        0xAB, 0x05, 0x06, 0x07, 0x08, 0xBC, // another frame
    ];
    for b in stream {
        if let Some(f) = dec.next(b) {
            frames.push(f);
        }
    }
    assert_eq!(frames, vec![vec![0x01, 0x02, 0x03, 0x04], vec![0x05, 0x06, 0x07, 0x08]]);
}

#[test]
fn decoder_dispatch_selects_version() {
    let mut v1 = SerialDecoder::new(1);
    let mut v2 = SerialDecoder::new(2);
    assert_eq!(feed_all(&mut v1, &[0x01, 0x02, 0x03, 0x04, 0x05, 0xFF]), vec![vec![
        0x01, 0x02, 0x03, 0x04, 0x05,
    ]]);
    assert_eq!(feed_all(&mut v2, &[0xAB, 0x01, 0x02, 0x03, 0x04, 0xBC]), vec![vec![
        0x01, 0x02, 0x03, 0x04,
    ]]);
}
