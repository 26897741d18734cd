use gbt_stream_service::handler::StreamHandler;
use gbt_stream_service::packet::RtpPacket;
use gbt_stream_service::reorder::RtpPacketReOrder;
use gbt_stream_service::worker::{
    TcpEvent, TcpState, TcpWorker, UdpEvent, UdpWorker, Wait, FRAME_LIMIT,
};

fn datagram(sn: u16, ts: u32, payload: &[u8]) -> Vec<u8> {
    let mut bytes = vec![0x80, 96];
    bytes.extend_from_slice(&sn.to_be_bytes());
    bytes.extend_from_slice(&ts.to_be_bytes());
    bytes.extend_from_slice(&[0, 0, 0, 1]);
    bytes.extend_from_slice(payload);
    bytes
}

fn handler() -> StreamHandler {
    StreamHandler::new("10.0.0.1".to_string(), 10001)
}

#[test]
fn handler_keeps_address_and_port() {
    let h = handler();
    assert_eq!(h.ip, "10.0.0.1");
    assert_eq!(h.port, 10001);
}

#[test]
fn on_rtp_feeds_and_emits_the_due_frame() {
    let h = handler();
    let mut buf = RtpPacketReOrder::new(1, "");
    let out = h.on_rtp(&datagram(2, 100, b"b"), &mut buf);
    assert!(out.parsed);
    assert!(out.frame.is_none());
    let out = h.on_rtp(&datagram(1, 100, b"a"), &mut buf);
    assert!(out.parsed && out.frame.is_none());
    let out = h.on_rtp(&datagram(1, 200, b"c"), &mut buf);
    assert!(out.parsed);
    let frame = out.frame.unwrap();
    assert_eq!(frame.timestamp, 100);
    assert_eq!(frame.bytes, b"ab".to_vec());
    assert_eq!(buf.len(), 1);
    assert_eq!(buf.min_timestamp(), 200);
}

#[test]
fn on_rtp_drops_what_is_no_packet() {
    let h = handler();
    let mut buf = RtpPacketReOrder::new(1, "");
    let out = h.on_rtp(&[1, 2, 3], &mut buf);
    assert!(!out.parsed);
    assert!(out.frame.is_none());
    assert_eq!(buf.len(), 0);
}

#[test]
fn on_rtp_counts_an_expired_packet_as_parsed() {
    let h = handler();
    let mut buf = RtpPacketReOrder::new(1, "");
    h.on_rtp(&datagram(1, 10, b"a"), &mut buf);
    h.on_rtp(&datagram(1, 20, b"b"), &mut buf);
    assert_eq!(buf.min_timestamp(), 20);
    let out = h.on_rtp(&datagram(1, 19, b"late"), &mut buf);
    assert!(out.parsed);
    assert!(out.frame.is_none());
    assert_eq!(buf.len(), 1);
}

#[test]
fn dispatch_without_a_packet_does_nothing() {
    let h = handler();
    let mut buf = RtpPacketReOrder::new(0, "");
    let out = h.dispatch(None, &mut buf);
    assert!(!out.parsed && out.frame.is_none());
    let out = h.dispatch(Some(RtpPacket::new(3, 1, vec![7])), &mut buf);
    assert!(out.parsed);
    let frame = out.frame.unwrap();
    assert_eq!((frame.timestamp, frame.bytes), (3, vec![7]));
}

#[test]
fn udp_worker_holds_three_groups_before_it_emits() {
    assert_eq!(FRAME_LIMIT, 3);
    let h = handler();
    let mut w = UdpWorker::new();
    assert!(w.is_running());
    assert_eq!(w.sink().map(|s| s.as_str()), Some("udp.output.ps"));
    for ts in [10u32, 20, 30] {
        let step = w.step(&h, UdpEvent::Datagram(datagram(1, ts, &[ts as u8])));
        assert_eq!(step.wait, Wait::Datagram);
        assert!(step.frame.is_none());
    }
    let step = w.step(&h, UdpEvent::Datagram(datagram(1, 40, &[40])));
    assert_eq!(step.wait, Wait::Datagram);
    let frame = step.frame.unwrap();
    assert_eq!((frame.timestamp, frame.bytes), (10, vec![10]));
}

#[test]
fn udp_worker_goes_on_after_a_bad_datagram() {
    let h = handler();
    let mut w = UdpWorker::new();
    let step = w.step(&h, UdpEvent::Datagram(vec![0xff; 5]));
    assert_eq!(step.wait, Wait::Datagram);
    assert!(step.frame.is_none());
    assert!(w.is_running());
}

#[test]
fn udp_worker_ends_on_cancel_and_on_a_failed_receive() {
    let h = handler();
    let mut w = UdpWorker::new();
    assert_eq!(w.step(&h, UdpEvent::Cancelled).wait, Wait::Nothing);
    assert!(!w.is_running());
    let mut w = UdpWorker::new();
    assert_eq!(w.step(&h, UdpEvent::RecvFailed).wait, Wait::Nothing);
    assert!(!w.is_running());
}

#[test]
fn udp_worker_emits_nothing_once_ended() {
    let h = handler();
    let mut w = UdpWorker::new();
    for ts in [10u32, 20, 30] {
        w.step(&h, UdpEvent::Datagram(datagram(1, ts, b"x")));
    }
    w.step(&h, UdpEvent::Cancelled);
    let step = w.step(&h, UdpEvent::Datagram(datagram(1, 40, b"y")));
    assert_eq!(step.wait, Wait::Nothing);
    assert!(step.frame.is_none());
    assert!(!w.is_running());
}

#[test]
fn tcp_frame_is_ingested_as_one_packet() {
    let h = handler();
    let mut w = TcpWorker::new();
    assert_eq!(w.current(), TcpState::Accepting);
    assert_eq!(w.sink().map(|s| s.as_str()), Some("tcp.output.ps"));
    assert_eq!(w.step(&h, TcpEvent::Accepted).wait, Wait::Length);
    let step = w.step(&h, TcpEvent::Length(0x000c));
    assert_eq!(step.wait, Wait::Body { length: 12 });
    assert_eq!(w.current(), TcpState::ReadingBody { length: 12 });
    let step = w.step(&h, TcpEvent::Body(datagram(1, 1, b"")));
    assert_eq!(step.wait, Wait::Length);
    assert!(step.frame.is_none());
    assert_eq!(w.current(), TcpState::ReadingLength);
}

#[test]
fn tcp_worker_accepts_again_after_the_peer_closed() {
    let h = handler();
    let mut w = TcpWorker::new();
    w.step(&h, TcpEvent::Accepted);
    assert_eq!(w.step(&h, TcpEvent::LengthFailed).wait, Wait::Connection);
    assert_eq!(w.current(), TcpState::Accepting);
    w.step(&h, TcpEvent::Accepted);
    w.step(&h, TcpEvent::Length(4));
    assert_eq!(w.step(&h, TcpEvent::BodyFailed).wait, Wait::Connection);
    w.step(&h, TcpEvent::Accepted);
    w.step(&h, TcpEvent::Length(0));
    assert_eq!(w.step(&h, TcpEvent::Body(Vec::new())).wait, Wait::Connection);
    assert_eq!(w.current(), TcpState::Accepting);
}

#[test]
fn tcp_worker_goes_on_accepting_after_a_failed_accept() {
    let h = handler();
    let mut w = TcpWorker::new();
    assert_eq!(w.step(&h, TcpEvent::AcceptFailed).wait, Wait::Connection);
    assert_eq!(w.current(), TcpState::Accepting);
}

#[test]
fn tcp_connection_starts_with_an_empty_buffer() {
    let h = handler();
    let mut w = TcpWorker::new();
    w.step(&h, TcpEvent::Accepted);
    for ts in [10u32, 20, 30] {
        w.step(&h, TcpEvent::Length(13));
        assert!(w.step(&h, TcpEvent::Body(datagram(1, ts, b"x"))).frame.is_none());
    }
    w.step(&h, TcpEvent::LengthFailed);
    w.step(&h, TcpEvent::Accepted);
    w.step(&h, TcpEvent::Length(13));
    let step = w.step(&h, TcpEvent::Body(datagram(1, 5, b"y")));
    assert!(step.frame.is_none());
    for ts in [6u32, 7] {
        w.step(&h, TcpEvent::Length(13));
        assert!(w.step(&h, TcpEvent::Body(datagram(1, ts, b"y"))).frame.is_none());
    }
    w.step(&h, TcpEvent::Length(13));
    let frame = w.step(&h, TcpEvent::Body(datagram(1, 8, b"z"))).frame.unwrap();
    assert_eq!((frame.timestamp, frame.bytes), (5, b"y".to_vec()));
}

#[test]
fn tcp_worker_ends_on_cancel_from_every_state() {
    let h = handler();
    let mut w = TcpWorker::new();
    assert_eq!(w.step(&h, TcpEvent::Cancelled).wait, Wait::Nothing);
    assert_eq!(w.current(), TcpState::Stopped);
    let mut w = TcpWorker::new();
    w.step(&h, TcpEvent::Accepted);
    assert_eq!(w.step(&h, TcpEvent::Cancelled).wait, Wait::Nothing);
    let mut w = TcpWorker::new();
    w.step(&h, TcpEvent::Accepted);
    w.step(&h, TcpEvent::Length(3));
    assert_eq!(w.step(&h, TcpEvent::Cancelled).wait, Wait::Nothing);
    assert_eq!(w.step(&h, TcpEvent::Accepted).wait, Wait::Nothing);
    assert_eq!(w.step(&h, TcpEvent::Body(datagram(1, 1, b"x"))).wait, Wait::Nothing);
    assert_eq!(w.current(), TcpState::Stopped);
}

#[test]
fn tcp_worker_ignores_an_event_it_does_not_wait_for() {
    let h = handler();
    let mut w = TcpWorker::new();
    assert_eq!(w.step(&h, TcpEvent::Length(4)).wait, Wait::Connection);
    assert_eq!(w.step(&h, TcpEvent::Body(vec![1])).wait, Wait::Connection);
    w.step(&h, TcpEvent::Accepted);
    assert_eq!(w.step(&h, TcpEvent::Accepted).wait, Wait::Length);
    assert_eq!(w.step(&h, TcpEvent::BodyFailed).wait, Wait::Length);
    w.step(&h, TcpEvent::Length(9));
    assert_eq!(w.step(&h, TcpEvent::Length(2)).wait, Wait::Body { length: 9 });
    assert_eq!(w.step(&h, TcpEvent::AcceptFailed).wait, Wait::Body { length: 9 });
}
