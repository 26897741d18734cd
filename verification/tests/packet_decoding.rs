use gbt_stream_service::packet::{can_decode, parse_packet};

fn header(first: u8, sn: u16, ts: u32) -> Vec<u8> {
    let mut bytes = vec![first, 96];
    bytes.extend_from_slice(&sn.to_be_bytes());
    bytes.extend_from_slice(&ts.to_be_bytes());
    bytes.extend_from_slice(&[0xde, 0xad, 0xbe, 0xef]);
    bytes
}

#[test]
fn plain_packet_is_decoded() {
    let mut bytes = header(0x80, 0x1234, 0x0102_0304);
    bytes.extend_from_slice(b"payload");
    assert!(can_decode(&bytes));
    let p = parse_packet(&bytes).unwrap();
    assert_eq!(p.timestamp, 0x0102_0304);
    assert_eq!(p.sequence_number, 0x1234);
    assert_eq!(p.payload, b"payload".to_vec());
}

#[test]
fn header_alone_is_a_packet_without_payload() {
    let bytes = header(0x80, 1, 2);
    let p = parse_packet(&bytes).unwrap();
    assert_eq!((p.timestamp, p.sequence_number), (2, 1));
    assert!(p.payload.is_empty());
}

#[test]
fn short_input_is_rejected() {
    assert!(parse_packet(&[]).is_none());
    assert!(parse_packet(&[0x80, 96, 0]).is_none());
    assert!(parse_packet(&header(0x80, 1, 2)[..11]).is_none());
}

#[test]
fn missing_contributing_sources_are_rejected() {
    let bytes = header(0x82, 1, 2);
    assert!(parse_packet(&bytes).is_none());
}

#[test]
fn contributing_sources_are_skipped() {
    let mut bytes = header(0x81, 3, 4);
    bytes.extend_from_slice(&[0, 0, 0, 7]);
    bytes.extend_from_slice(b"xy");
    let p = parse_packet(&bytes).unwrap();
    assert_eq!(p.payload, b"xy".to_vec());
}

#[test]
fn padding_is_cut_off() {
    let mut bytes = header(0xa0, 5, 6);
    bytes.extend_from_slice(&[1, 2, 3, 2]);
    let p = parse_packet(&bytes).unwrap();
    assert_eq!(p.payload, vec![1, 2]);
}

#[test]
fn padding_longer_than_the_payload_is_rejected() {
    let mut bytes = header(0xa0, 5, 6);
    bytes.extend_from_slice(&[1, 9]);
    assert!(parse_packet(&bytes).is_none());
}

#[test]
fn one_byte_extension_is_skipped() {
    let mut bytes = header(0x90, 8, 9);
    bytes.extend_from_slice(&[0xbe, 0xde, 0, 1, 0x10, 0xaa, 0, 0]);
    bytes.extend_from_slice(b"pp");
    assert!(can_decode(&bytes));
    let p = parse_packet(&bytes).unwrap();
    assert_eq!((p.timestamp, p.sequence_number), (9, 8));
    assert_eq!(p.payload, b"pp".to_vec());
}

#[test]
fn two_byte_extension_is_skipped() {
    let mut bytes = header(0x90, 8, 9);
    bytes.extend_from_slice(&[0x10, 0x00, 0, 1, 3, 1, 0x55, 0]);
    bytes.extend_from_slice(b"q");
    assert!(can_decode(&bytes));
    let p = parse_packet(&bytes).unwrap();
    assert_eq!(p.payload, b"q".to_vec());
}

#[test]
fn other_extension_profile_is_skipped_whole() {
    let mut bytes = header(0x90, 8, 9);
    bytes.extend_from_slice(&[0x12, 0x34, 0, 1, 9, 9, 9, 9]);
    bytes.extend_from_slice(b"r");
    let p = parse_packet(&bytes).unwrap();
    assert_eq!(p.payload, b"r".to_vec());
}

#[test]
fn one_byte_extension_element_past_the_end_is_rejected() {
    let mut bytes = header(0x90, 8, 9);
    bytes.extend_from_slice(&[0xbe, 0xde, 0, 1, 0, 0, 0, 0x1f]);
    assert!(!can_decode(&bytes));
    assert!(parse_packet(&bytes).is_none());
}

#[test]
fn two_byte_extension_element_past_the_end_is_rejected() {
    let mut bytes = header(0x90, 8, 9);
    bytes.extend_from_slice(&[0x10, 0x00, 0, 1, 0, 0, 0, 7]);
    assert!(!can_decode(&bytes));
    assert!(parse_packet(&bytes).is_none());
    let mut bytes = header(0x90, 8, 9);
    bytes.extend_from_slice(&[0x10, 0x00, 0, 1, 7, 200, 0, 0]);
    assert!(!can_decode(&bytes));
    assert!(parse_packet(&bytes).is_none());
}

#[test]
fn extension_block_longer_than_the_packet_is_rejected() {
    let mut bytes = header(0x90, 8, 9);
    bytes.extend_from_slice(&[0xbe, 0xde, 0, 2, 0, 0, 0, 0]);
    assert!(can_decode(&bytes));
    assert!(parse_packet(&bytes).is_none());
}

#[test]
fn no_input_with_an_extension_block_stops_the_decoder() {
    let mut state: u32 = 0x2545_f491;
    let mut next = move || {
        state = state.wrapping_mul(1_664_525).wrapping_add(1_013_904_223);
        (state >> 16) as u8
    };
    let mut decoded = 0usize;
    let mut refused = 0usize;
    for round in 0..60_000usize {
        let len = 12 + (next() as usize) % 40;
        let mut bytes: Vec<u8> = (0..len).map(|_| next()).collect();
        bytes[0] = 0x90 | (next() & 0x21);
        if len >= 16 + 4 * (bytes[0] & 0x0f) as usize {
            let at = 12 + 4 * (bytes[0] & 0x0f) as usize;
            let profile: [u8; 2] = if round % 2 == 0 { [0xbe, 0xde] } else { [0x10, 0x00] };
            bytes[at] = profile[0];
            bytes[at + 1] = profile[1];
            bytes[at + 2] = 0;
            bytes[at + 3] = next() % 8;
            for b in bytes.iter_mut().skip(at + 4) {
                if *b % 3 == 0 {
                    *b = 0;
                } else if round % 2 == 1 {
                    *b %= 12;
                }
            }
        }
        if can_decode(&bytes) {
            decoded += 1;
            let _ = parse_packet(&bytes);
        } else {
            refused += 1;
            assert!(parse_packet(&bytes).is_none());
        }
    }
    assert!(decoded > 1000);
    assert!(refused > 1000);
}
