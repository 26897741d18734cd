use gbt_stream_service::packet::RtpPacket;
use gbt_stream_service::reorder::RtpPacketReOrder;

fn packet(ts: u32, sn: u16, payload: &[u8]) -> RtpPacket {
    RtpPacket::new(ts, sn, payload.to_vec())
}

#[test]
fn frames_come_out_in_timestamp_order() {
    let mut buf = RtpPacketReOrder::new(2, "");
    assert!(!buf.feed_rtp(packet(100, 1, b"a1")));
    assert!(!buf.feed_rtp(packet(100, 2, b"a2")));
    assert!(!buf.feed_rtp(packet(200, 1, b"b1")));
    assert!(buf.feed_rtp(packet(300, 1, b"c1")));
    assert!(buf.feed_rtp(packet(300, 2, b"c2")));
    assert_eq!(buf.pop_frame(), (100, b"a1a2".to_vec()));
    assert_eq!(buf.min_timestamp(), 200);
    assert_eq!(buf.pop_frame(), (200, b"b1".to_vec()));
    assert_eq!(buf.min_timestamp(), 300);
    assert_eq!(buf.len(), 1);
}

#[test]
fn fifth_feed_reports_overflow() {
    let mut buf = RtpPacketReOrder::new(2, "");
    let mut answers = Vec::new();
    for (ts, sn) in [(100u32, 1u16), (100, 2), (200, 1), (300, 1), (300, 2)] {
        answers.push(buf.feed_rtp(packet(ts, sn, &[sn as u8])));
    }
    assert_eq!(answers, vec![false, false, false, true, true]);
    assert_eq!(buf.len(), 3);
}

#[test]
fn expired_packet_is_dropped() {
    let mut buf = RtpPacketReOrder::new(2, "");
    for (ts, sn) in [(100u32, 1u16), (100, 2), (200, 1), (300, 1), (300, 2)] {
        buf.feed_rtp(packet(ts, sn, &[ts as u8, sn as u8]));
    }
    assert_eq!(buf.pop_frame().0, 100);
    assert!(!buf.feed_rtp(packet(100, 3, b"late")));
    assert_eq!(buf.len(), 2);
    assert_eq!(buf.min_timestamp(), 200);
    assert_eq!(buf.pop_frame(), (200, vec![200, 1]));
    assert_eq!(buf.pop_frame(), (300, vec![44, 1, 44, 2]));
}

#[test]
fn packets_within_a_frame_are_put_in_sequence_order() {
    let mut buf = RtpPacketReOrder::new(1, "");
    assert!(!buf.feed_rtp(packet(500, 3, b"three")));
    assert!(!buf.feed_rtp(packet(500, 1, b"one")));
    assert!(!buf.feed_rtp(packet(500, 2, b"two")));
    assert!(buf.feed_rtp(packet(600, 1, b"next")));
    assert_eq!(buf.pop_frame(), (500, b"onetwothree".to_vec()));
}

#[test]
fn groups_are_kept_in_timestamp_order_whatever_the_arrival_order() {
    let mut buf = RtpPacketReOrder::new(10, "");
    for ts in [40u32, 10, 30, 20, 50] {
        assert!(!buf.feed_rtp(packet(ts, 0, &[ts as u8])));
    }
    let mut seen = Vec::new();
    while buf.len() > 0 {
        seen.push(buf.pop_frame());
    }
    assert_eq!(
        seen,
        vec![(10, vec![10]), (20, vec![20]), (30, vec![30]), (40, vec![40]), (50, vec![50])]
    );
}

#[test]
fn first_packet_of_a_duplicate_wins() {
    let mut buf = RtpPacketReOrder::new(1, "");
    assert!(!buf.feed_rtp(packet(7, 1, b"first")));
    assert!(!buf.feed_rtp(packet(7, 1, b"second")));
    assert!(!buf.feed_rtp(packet(7, 2, b"+")));
    assert!(!buf.feed_rtp(packet(7, 1, b"third")));
    assert_eq!(buf.len(), 1);
    assert!(buf.feed_rtp(packet(8, 1, b"x")));
    assert_eq!(buf.pop_frame(), (7, b"first+".to_vec()));
}

#[test]
fn timestamp_at_the_low_water_mark_is_taken_and_one_below_is_dropped() {
    let mut buf = RtpPacketReOrder::new(1, "");
    buf.feed_rtp(packet(10, 1, b"a"));
    buf.feed_rtp(packet(20, 1, b"b"));
    assert_eq!(buf.pop_frame(), (10, b"a".to_vec()));
    assert_eq!(buf.min_timestamp(), 20);
    assert!(!buf.feed_rtp(packet(19, 1, b"late")));
    assert_eq!(buf.len(), 1);
    assert!(!buf.feed_rtp(packet(20, 2, b"c")));
    assert!(buf.feed_rtp(packet(21, 1, b"d")));
    assert_eq!(buf.pop_frame(), (20, b"bc".to_vec()));
}

#[test]
fn zero_timestamp_is_taken_by_a_new_buffer() {
    let mut buf = RtpPacketReOrder::new(3, "");
    assert_eq!(buf.min_timestamp(), 0);
    assert!(!buf.feed_rtp(packet(0, 0, b"z")));
    assert_eq!(buf.len(), 1);
}

#[test]
fn limit_zero_makes_every_feed_overflow() {
    let mut buf = RtpPacketReOrder::new(0, "");
    for ts in [5u32, 6, 9] {
        assert!(buf.feed_rtp(packet(ts, 1, &[ts as u8])));
        assert_eq!(buf.pop_frame(), (ts, vec![ts as u8]));
        assert_eq!(buf.len(), 0);
    }
}

#[test]
fn pop_on_an_empty_buffer_gives_zero_and_nothing() {
    let mut buf = RtpPacketReOrder::new(3, "");
    assert_eq!(buf.pop_frame(), (0, Vec::new()));
    assert_eq!(buf.pop_frame(), (0, Vec::new()));
    assert_eq!(buf.min_timestamp(), 0);
    assert_eq!(buf.len(), 0);
}

#[test]
fn low_water_mark_stays_when_the_buffer_runs_empty() {
    let mut buf = RtpPacketReOrder::new(1, "");
    buf.feed_rtp(packet(10, 1, b"a"));
    buf.feed_rtp(packet(20, 1, b"b"));
    buf.pop_frame();
    assert_eq!(buf.min_timestamp(), 20);
    assert_eq!(buf.pop_frame(), (20, b"b".to_vec()));
    assert_eq!(buf.min_timestamp(), 20);
    assert!(!buf.feed_rtp(packet(15, 1, b"old")));
}

#[test]
fn feed_answers_true_exactly_when_groups_exceed_the_limit() {
    let mut buf = RtpPacketReOrder::new(2, "");
    for (n, ts) in [11u32, 12, 13, 13, 14].into_iter().enumerate() {
        let overflow = buf.feed_rtp(packet(ts, n as u16, b"."));
        assert_eq!(overflow, buf.len() > 2);
        if overflow {
            buf.pop_frame();
        }
    }
}

#[test]
fn emitted_timestamps_ascend_strictly() {
    let mut buf = RtpPacketReOrder::new(2, "");
    let mut emitted = Vec::new();
    for ts in [30u32, 10, 20, 5, 40, 15, 50, 45, 60, 10, 70] {
        if buf.feed_rtp(packet(ts, 1, b"p")) {
            emitted.push(buf.pop_frame().0);
        }
    }
    assert_eq!(emitted, vec![10, 20, 30, 40, 45, 50]);
    assert!(emitted.windows(2).all(|w| w[0] < w[1]));
}

#[test]
fn empty_sink_path_means_no_sink() {
    assert_eq!(RtpPacketReOrder::new(3, "").sink(), None);
    assert_eq!(
        RtpPacketReOrder::new(3, "udp.output.ps").sink().map(|s| s.as_str()),
        Some("udp.output.ps")
    );
}
