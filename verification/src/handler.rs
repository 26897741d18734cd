//! Dispatch of received bytes into a reorder buffer.

use crate::packet::{decoded, packet_value, parse_packet, PacketView, RtpPacket};
use crate::reorder::{
    after, lemma_emitted_timestamps_ascend, lemma_feed_wf, lemma_first_not_below, ts_keys, Op,
    ReorderView, RtpPacketReOrder,
};
use vstd::prelude::*;

verus! {

/// An assembled frame: its timestamp and its bytes.
#[derive(Debug)]
pub struct Frame {
    pub timestamp: u32,
    pub bytes: Vec<u8>,
}

/// What became of one piece of received data.
#[derive(Debug)]
pub struct Ingested {
    /// The data was an RTP packet.
    pub parsed: bool,
    /// The frame that fell due, to be written to the sink.
    pub frame: Option<Frame>,
}

/// The buffer after a decoding result was dispatched into it: a packet is
/// fed, and the oldest frame is taken out where the feed made one due.
pub open spec fn dispatched(v: ReorderView, packet: Option<PacketView>) -> ReorderView {
    match packet {
        Some(p) => if v.feed_overflows(p) {
            v.feed(p).pop()
        } else {
            v.feed(p)
        },
        None => v,
    }
}

/// The frame that dispatching a decoding result hands out: timestamp and bytes.
pub open spec fn emitted(v: ReorderView, packet: Option<PacketView>) -> Option<(u32, Seq<u8>)> {
    match packet {
        Some(p) if v.feed_overflows(p) => Some(
            (v.feed(p).front_timestamp(), v.feed(p).front_frame()),
        ),
        _ => None,
    }
}

/// The value of an optional frame.
pub open spec fn frame_value(frame: Option<Frame>) -> Option<(u32, Seq<u8>)> {
    match frame {
        Some(f) => Some((f.timestamp, f.bytes@)),
        None => None,
    }
}

/// Dispatching keeps a buffer within its limit: where no more groups are
/// held than the limit allows, the same holds afterwards, and in between
/// at most one group more was held.
pub proof fn lemma_dispatch_keeps_within_limit(v: ReorderView, packet: Option<PacketView>)
    requires
        !v.overflowing(),
    ensures
        !dispatched(v, packet).overflowing(),
        packet matches Some(p) ==> v.feed(p).groups.len() <= v.limit_frames + 1,
{
    if let Some(p) = packet {
        lemma_first_not_below(ts_keys(v.groups), p.timestamp as int);
    }
}

/// With a limit of at least one, a frame that dispatching hands out
/// carries a timestamp strictly below that of every frame the buffer
/// hands out later, whatever is fed or popped in between.
pub proof fn lemma_dispatched_frames_ascend(v: ReorderView, p: PacketView, steps: Seq<Op>)
    requires
        v.wf(),
        v.limit_frames >= 1,
        v.feed_overflows(p),
    ensures
        emitted(v, Some(p)) matches Some(frame) && ({
            let later = after(dispatched(v, Some(p)), steps);
            &&& later.wf()
            &&& later.min_timestamp > frame.0
            &&& later.groups.len() > 0 ==> later.front_timestamp() > frame.0
        }),
{
    lemma_feed_wf(v, p);
    lemma_emitted_timestamps_ascend(v.feed(p), steps);
}

/// The ingest endpoint of one bound port.
#[derive(Debug)]
pub struct StreamHandler {
    pub ip: String,
    pub port: u16,
}

impl StreamHandler {
    /// The endpoint of `port`, advertised under `ip`.
    pub fn new(ip: String, port: u16) -> (h: Self)
        ensures
            h.ip == ip,
            h.port == port,
    {
        StreamHandler { ip, port }
    }

    /// Dispatches a decoding result: nothing happens without a packet; a
    /// packet is fed, and where that makes a frame due the frame is taken
    /// out and handed back.
    pub fn dispatch(&self, packet: Option<RtpPacket>, packets_reorder: &mut RtpPacketReOrder) -> (out:
        Ingested)
        requires
            old(packets_reorder).wf(),
        ensures
            final(packets_reorder).wf(),
            final(packets_reorder)@ == dispatched(old(packets_reorder)@, packet_value(packet)),
            out.parsed == packet.is_some(),
            frame_value(out.frame) == emitted(old(packets_reorder)@, packet_value(packet)),
    {
        match packet {
            None => Ingested { parsed: false, frame: None },
            Some(rtp_packet) => {
                if packets_reorder.feed_rtp(rtp_packet) {
                    let (timestamp, bytes) = packets_reorder.pop_frame();
                    Ingested { parsed: true, frame: Some(Frame { timestamp, bytes }) }
                } else {
                    Ingested { parsed: true, frame: None }
                }
            },
        }
    }

    /// Decodes `buff` as one RTP packet and dispatches the result. Bytes
    /// that are no packet are dropped and leave the buffer as it was.
    pub fn on_rtp(&self, buff: &[u8], packets_reorder: &mut RtpPacketReOrder) -> (out: Ingested)
        requires
            old(packets_reorder).wf(),
        ensures
            final(packets_reorder).wf(),
            final(packets_reorder)@ == dispatched(old(packets_reorder)@, decoded(buff@)),
            out.parsed == decoded(buff@).is_some(),
            frame_value(out.frame) == emitted(old(packets_reorder)@, decoded(buff@)),
    {
        let packet = parse_packet(buff);
        self.dispatch(packet, packets_reorder)
    }
}

} // verus!
