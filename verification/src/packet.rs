//! The RTP packet as the ingest path sees it.

use vstd::prelude::*;
use webrtc_util::Unmarshal;

verus! {

/// Mathematical value of a packet: the three fields the broker reads.
pub struct PacketView {
    pub timestamp: u32,
    pub sequence_number: u16,
    pub payload: Seq<u8>,
}

/// A decoded RTP packet, reduced to the fields that ordering and frame
/// assembly depend on.
#[derive(Debug)]
pub struct RtpPacket {
    pub timestamp: u32,
    pub sequence_number: u16,
    pub payload: Vec<u8>,
}

impl View for RtpPacket {
    type V = PacketView;

    open spec fn view(&self) -> PacketView {
        PacketView {
            timestamp: self.timestamp,
            sequence_number: self.sequence_number,
            payload: self.payload@,
        }
    }
}

impl RtpPacket {
    /// A packet with the given fields.
    pub fn new(timestamp: u32, sequence_number: u16, payload: Vec<u8>) -> (p: Self)
        ensures
            p@ == (PacketView { timestamp, sequence_number, payload: payload@ }),
    {
        RtpPacket { timestamp, sequence_number, payload }
    }
}

/// The big-endian number in the two bytes at `at`.
pub open spec fn be16(bytes: Seq<u8>, at: int) -> int {
    bytes[at] as int * 256 + bytes[at + 1] as int
}

/// The big-endian number in the four bytes at `at`.
pub open spec fn be32(bytes: Seq<u8>, at: int) -> int {
    be16(bytes, at) * 65536 + be16(bytes, at + 2)
}

/// The elements of a one-byte-header extension block, read from `pos` up
/// to `end`, all lie within the packet. An element is a zero byte, or a
/// byte whose low four bits plus one give the length of what follows it;
/// identifier 15 ends the block.
pub open spec fn one_byte_elements_fit(bytes: Seq<u8>, pos: int, end: int) -> bool
    decreases bytes.len() - pos,
{
    if pos < 0 || pos >= end || pos >= bytes.len() {
        true
    } else if bytes[pos] == 0 {
        one_byte_elements_fit(bytes, pos + 1, end)
    } else if bytes[pos] >> 4 == 15 {
        true
    } else {
        let len = (bytes[pos] & 0x0f) as int + 1;
        pos + 1 + len <= bytes.len() && one_byte_elements_fit(bytes, pos + 1 + len, end)
    }
}

/// The elements of a two-byte-header extension block, read from `pos` up
/// to `end`, all lie within the packet. An element is a zero byte, or an
/// identifier byte and a length byte followed by that many bytes.
pub open spec fn two_byte_elements_fit(bytes: Seq<u8>, pos: int, end: int) -> bool
    decreases bytes.len() - pos,
{
    if pos < 0 || pos >= end || pos >= bytes.len() {
        true
    } else if bytes[pos] == 0 {
        two_byte_elements_fit(bytes, pos + 1, end)
    } else {
        pos + 1 < bytes.len() && pos + 2 + bytes[pos + 1] <= bytes.len() && two_byte_elements_fit(
            bytes,
            pos + 2 + bytes[pos + 1],
            end,
        )
    }
}

/// The bytes can be handed to the decoder: where they announce a header
/// extension of the one-byte or two-byte form whose block lies within the
/// packet, every element of the block lies within the packet too.
pub open spec fn decodable(bytes: Seq<u8>) -> bool {
    let n = bytes.len();
    if n < 4 {
        true
    } else {
        let fixed = 12 + 4 * (bytes[0] & 0x0f);
        if n < fixed || !((bytes[0] >> 4) & 1 > 0) || n < fixed + 4 {
            true
        } else {
            let end = fixed + 4 + 4 * be16(bytes, fixed + 2);
            if n < end {
                true
            } else if be16(bytes, fixed) == 0xBEDE {
                one_byte_elements_fit(bytes, fixed + 4, end)
            } else if be16(bytes, fixed) == 0x1000 {
                two_byte_elements_fit(bytes, fixed + 4, end)
            } else {
                true
            }
        }
    }
}

/// At least the fixed header, with no padding, no extension and no
/// contributing sources announced in the first byte.
pub open spec fn plain(bytes: Seq<u8>) -> bool {
    &&& bytes.len() >= 12
    &&& (bytes[0] >> 5) & 1 == 0
    &&& (bytes[0] >> 4) & 1 == 0
    &&& bytes[0] & 0x0f == 0
}

/// What the `rtp` crate's `Packet::unmarshal` makes of `bytes`: the
/// timestamp, sequence number and payload of the packet it returns, or
/// `None` where it returns an error.
pub uninterp spec fn rtp_unmarshal(bytes: Seq<u8>) -> Option<PacketView>;

/// The value of an optional packet.
pub open spec fn packet_value(packet: Option<RtpPacket>) -> Option<PacketView> {
    match packet {
        Some(p) => Some(p@),
        None => None,
    }
}

/// What `parse_packet` makes of `bytes`.
pub open spec fn decoded(bytes: Seq<u8>) -> Option<PacketView> {
    if decodable(bytes) {
        rtp_unmarshal(bytes)
    } else {
        None
    }
}

fn one_byte_walk(buff: &[u8], start: usize, end: usize) -> (ok: bool)
    requires
        start <= end <= buff.len(),
    ensures
        ok == one_byte_elements_fit(buff@, start as int, end as int),
{
    let mut pos: usize = start;
    while pos < end
        invariant
            pos <= buff.len(),
            end <= buff.len(),
            one_byte_elements_fit(buff@, pos as int, end as int) == one_byte_elements_fit(
                buff@,
                start as int,
                end as int,
            ),
        decreases buff.len() - pos,
    {
        let b = buff[pos];
        if b == 0 {
            pos += 1;
        } else if b >> 4 == 15 {
            return true;
        } else {
            let len: usize = (b & 0x0f) as usize + 1;
            if len > buff.len() - (pos + 1) {
                return false;
            }
            pos = pos + 1 + len;
        }
    }
    true
}

fn two_byte_walk(buff: &[u8], start: usize, end: usize) -> (ok: bool)
    requires
        start <= end <= buff.len(),
    ensures
        ok == two_byte_elements_fit(buff@, start as int, end as int),
{
    let mut pos: usize = start;
    while pos < end
        invariant
            pos <= buff.len(),
            end <= buff.len(),
            two_byte_elements_fit(buff@, pos as int, end as int) == two_byte_elements_fit(
                buff@,
                start as int,
                end as int,
            ),
        decreases buff.len() - pos,
    {
        let b = buff[pos];
        if b == 0 {
            pos += 1;
        } else {
            if pos + 1 >= buff.len() {
                return false;
            }
            let len: usize = buff[pos + 1] as usize;
            if len > buff.len() - (pos + 2) {
                return false;
            }
            pos = pos + 2 + len;
        }
    }
    true
}

fn read_be16(buff: &[u8], at: usize) -> (v: usize)
    requires
        at + 1 < buff.len(),
    ensures
        v == be16(buff@, at as int),
{
    (buff[at] as usize) * 256 + (buff[at + 1] as usize)
}

/// Whether the bytes can be handed to the decoder.
pub fn can_decode(buff: &[u8]) -> (ok: bool)
    ensures
        ok == decodable(buff@),
{
    let n = buff.len();
    if n < 4 {
        return true;
    }
    let b0 = buff[0];
    let fixed: usize = 12 + 4 * ((b0 & 0x0f) as usize);
    if n < fixed || !((b0 >> 4) & 1 > 0) || n < fixed + 4 {
        return true;
    }
    let profile = read_be16(buff, fixed);
    let end: usize = fixed + 4 + 4 * read_be16(buff, fixed + 2);
    if n < end {
        true
    } else if profile == 0xBEDE {
        one_byte_walk(buff, fixed + 4, end)
    } else if profile == 0x1000 {
        two_byte_walk(buff, fixed + 4, end)
    } else {
        true
    }
}

/// Calls `Packet::unmarshal` of the `rtp` crate on `buff` and keeps the
/// timestamp, the sequence number and the payload of what it returns.
///
/// Believed, not proved: the call returns on every input that `decodable`
/// admits (its only reads past a length check are those of extension
/// elements); its result depends on the bytes alone; it rejects anything
/// shorter than the fixed header of 12 bytes; and of a `plain` packet it
/// takes the sequence number from bytes 2..4, the timestamp from bytes
/// 4..8, both big-endian, and everything from byte 12 on as the payload.
#[verifier::external_body]
fn unmarshal_packet(buff: &[u8]) -> (r: Option<RtpPacket>)
    requires
        decodable(buff@),
    ensures
        packet_value(r) == rtp_unmarshal(buff@),
        buff@.len() < 12 ==> r is None,
        plain(buff@) ==> packet_value(r) == Some(
            PacketView {
                timestamp: be32(buff@, 4) as u32,
                sequence_number: be16(buff@, 2) as u16,
                payload: buff@.skip(12),
            },
        ),
{
    let mut rest = buff;
    match rtp::packet::Packet::unmarshal(&mut rest) {
        Ok(packet) => Some(
            RtpPacket {
                timestamp: packet.header.timestamp,
                sequence_number: packet.header.sequence_number,
                payload: packet.payload.to_vec(),
            },
        ),
        Err(_) => None,
    }
}

/// Decodes one RTP packet; `None` where the bytes are no packet.
pub fn parse_packet(buff: &[u8]) -> (r: Option<RtpPacket>)
    ensures
        packet_value(r) == decoded(buff@),
        buff@.len() < 12 ==> r is None,
        plain(buff@) ==> packet_value(r) == Some(
            PacketView {
                timestamp: be32(buff@, 4) as u32,
                sequence_number: be16(buff@, 2) as u16,
                payload: buff@.skip(12),
            },
        ),
{
    if can_decode(buff) {
        unmarshal_packet(buff)
    } else {
        proof {
            assert(buff@.len() >= 12);
            assert(!plain(buff@));
        }
        None
    }
}

} // verus!
