//! The reorder buffer: packets grouped by timestamp, each group ordered by
//! sequence number, drained oldest timestamp first.

use crate::packet::{PacketView, RtpPacket};
use vstd::prelude::*;

verus! {

/// All packets held for one timestamp, in ascending sequence-number order.
pub struct GroupView {
    pub timestamp: u32,
    pub packets: Seq<PacketView>,
}

/// Mathematical value of a reorder buffer. `groups` is ascending by timestamp.
pub struct ReorderView {
    pub min_timestamp: u32,
    pub limit_frames: usize,
    pub groups: Seq<GroupView>,
    pub sink: Option<Seq<char>>,
}

/// Index of the first key that is not below `k`; the length when every key is below.
pub open spec fn first_not_below(keys: Seq<int>, k: int) -> int
    decreases keys.len(),
{
    if keys.len() == 0 || keys[0] >= k {
        0
    } else {
        1 + first_not_below(keys.skip(1), k)
    }
}

/// The sequence numbers of `packets`, in their order.
pub open spec fn sn_keys(packets: Seq<PacketView>) -> Seq<int> {
    packets.map_values(|p: PacketView| p.sequence_number as int)
}

/// The timestamps of `groups`, in their order.
pub open spec fn ts_keys(groups: Seq<GroupView>) -> Seq<int> {
    groups.map_values(|g: GroupView| g.timestamp as int)
}

/// Strictly ascending sequence numbers: ordered, and none twice.
pub open spec fn packets_sorted(packets: Seq<PacketView>) -> bool {
    forall|i: int, j: int|
        #![trigger packets[i], packets[j]]
        0 <= i < j < packets.len() ==> packets[i].sequence_number < packets[j].sequence_number
}

/// Strictly ascending timestamps: ordered, and none twice.
pub open spec fn groups_sorted(groups: Seq<GroupView>) -> bool {
    forall|i: int, j: int|
        #![trigger groups[i], groups[j]]
        0 <= i < j < groups.len() ==> groups[i].timestamp < groups[j].timestamp
}

/// The payloads of `packets`, one after the other in the order given.
pub open spec fn frame_bytes(packets: Seq<PacketView>) -> Seq<u8>
    decreases packets.len(),
{
    if packets.len() == 0 {
        Seq::empty()
    } else {
        frame_bytes(packets.drop_last()) + packets.last().payload
    }
}

/// `packets` with `p` put at its place by sequence number; unchanged when
/// that sequence number is already held.
pub open spec fn place_packet(packets: Seq<PacketView>, p: PacketView) -> Seq<PacketView> {
    let i = first_not_below(sn_keys(packets), p.sequence_number as int);
    if i < packets.len() && packets[i].sequence_number == p.sequence_number {
        packets
    } else {
        packets.insert(i, p)
    }
}

/// `groups` with `p` put into the group of its timestamp, which is created
/// at its place when it is not there yet.
pub open spec fn place_in_groups(groups: Seq<GroupView>, p: PacketView) -> Seq<GroupView> {
    let i = first_not_below(ts_keys(groups), p.timestamp as int);
    if i < groups.len() && groups[i].timestamp == p.timestamp {
        groups.update(
            i,
            GroupView { timestamp: p.timestamp, packets: place_packet(groups[i].packets, p) },
        )
    } else {
        groups.insert(i, GroupView { timestamp: p.timestamp, packets: seq![p] })
    }
}

impl GroupView {
    /// The group holds at least one packet, all of its timestamp, in
    /// strictly ascending sequence-number order.
    pub open spec fn wf(self) -> bool {
        &&& self.packets.len() > 0
        &&& packets_sorted(self.packets)
        &&& forall|i: int|
            0 <= i < self.packets.len() ==> (#[trigger] self.packets[i]).timestamp
                == self.timestamp
    }
}

impl ReorderView {
    /// Groups ascend strictly by timestamp, none lies below the low-water
    /// mark, and each is a well-formed group.
    pub open spec fn wf(self) -> bool {
        &&& groups_sorted(self.groups)
        &&& forall|i: int|
            0 <= i < self.groups.len() ==> {
                &&& (#[trigger] self.groups[i]).wf()
                &&& self.groups[i].timestamp >= self.min_timestamp
            }
    }

    /// A packet is taken unless its timestamp lies below the low-water mark.
    pub open spec fn accepts(self, p: PacketView) -> bool {
        p.timestamp >= self.min_timestamp
    }

    /// More timestamp groups are held than the limit allows.
    pub open spec fn overflowing(self) -> bool {
        self.groups.len() > self.limit_frames
    }

    /// The buffer after `p` was fed to it.
    pub open spec fn feed(self, p: PacketView) -> ReorderView {
        if self.accepts(p) {
            ReorderView { groups: place_in_groups(self.groups, p), ..self }
        } else {
            self
        }
    }

    /// Timestamp of the frame that the next pop hands out; 0 when nothing is held.
    pub open spec fn front_timestamp(self) -> u32 {
        if self.groups.len() == 0 {
            0
        } else {
            self.groups[0].timestamp
        }
    }

    /// Bytes of the frame that the next pop hands out; empty when nothing is held.
    pub open spec fn front_frame(self) -> Seq<u8> {
        if self.groups.len() == 0 {
            Seq::empty()
        } else {
            frame_bytes(self.groups[0].packets)
        }
    }

    /// The buffer after its oldest group was taken out. The low-water mark
    /// moves to the oldest timestamp left, and stays where nothing is left.
    pub open spec fn pop(self) -> ReorderView {
        if self.groups.len() == 0 {
            self
        } else {
            let rest = self.groups.remove(0);
            ReorderView {
                groups: rest,
                min_timestamp: if rest.len() > 0 {
                    rest[0].timestamp
                } else {
                    self.min_timestamp
                },
                ..self
            }
        }
    }
}

/// `first_not_below` splits the keys: all before it are below `k`, the key at it is not.
pub proof fn lemma_first_not_below(keys: Seq<int>, k: int)
    ensures
        0 <= first_not_below(keys, k) <= keys.len(),
        forall|j: int| 0 <= j < first_not_below(keys, k) ==> keys[j] < k,
        first_not_below(keys, k) < keys.len() ==> keys[first_not_below(keys, k)] >= k,
    decreases keys.len(),
{
    if keys.len() == 0 || keys[0] >= k {
    } else {
        let rest = keys.skip(1);
        lemma_first_not_below(rest, k);
        let r = first_not_below(rest, k);
        assert forall|j: int| 0 <= j < 1 + r implies keys[j] < k by {
            if j > 0 {
                assert(rest[j - 1] == keys[j]);
            }
        }
        if 1 + r < keys.len() {
            assert(rest[r] == keys[r + 1]);
        }
    }
}

/// An index that splits the keys in that way is `first_not_below`.
pub proof fn lemma_first_not_below_is(keys: Seq<int>, k: int, i: int)
    requires
        0 <= i <= keys.len(),
        forall|j: int| 0 <= j < i ==> keys[j] < k,
        i < keys.len() ==> keys[i] >= k,
    ensures
        first_not_below(keys, k) == i,
{
    lemma_first_not_below(keys, k);
    let r = first_not_below(keys, k);
    if r < i {
        assert(keys[r] < k);
    } else if i < r {
        assert(keys[i] < k);
    }
}

/// Placing a packet keeps a group of its timestamp well formed.
pub proof fn lemma_place_packet_wf(g: GroupView, p: PacketView)
    requires
        g.wf(),
        p.timestamp == g.timestamp,
    ensures
        (GroupView { timestamp: g.timestamp, packets: place_packet(g.packets, p) }).wf(),
{
    lemma_first_not_below(sn_keys(g.packets), p.sequence_number as int);
    lemma_place_packet_sorted(g.packets, p);
}

/// Feeding a packet keeps the buffer well formed.
pub proof fn lemma_feed_wf(v: ReorderView, p: PacketView)
    requires
        v.wf(),
    ensures
        v.feed(p).wf(),
{
    if v.accepts(p) {
        let keys = ts_keys(v.groups);
        let ts = p.timestamp as int;
        lemma_first_not_below(keys, ts);
        let i = first_not_below(keys, ts);
        let out = place_in_groups(v.groups, p);
        if i < v.groups.len() && v.groups[i].timestamp == p.timestamp {
            lemma_place_packet_wf(v.groups[i], p);
            assert forall|a: int, b: int| 0 <= a < b < out.len() implies (#[trigger] out[a]).timestamp
                < (#[trigger] out[b]).timestamp by {
                assert(v.groups[a].timestamp < v.groups[b].timestamp);
            }
        } else {
            let fresh = GroupView { timestamp: p.timestamp, packets: seq![p] };
            assert(fresh.wf());
            assert forall|a: int, b: int| 0 <= a < b < out.len() implies (#[trigger] out[a]).timestamp
                < (#[trigger] out[b]).timestamp by {
                if a < i {
                    assert(keys[a] < ts);
                }
                if b > i {
                    assert(out[b] == v.groups[b - 1]);
                    assert(keys[i] >= ts);
                    if b - 1 > i {
                        assert(v.groups[i].timestamp < v.groups[b - 1].timestamp);
                    }
                }
            }
            assert forall|a: int| 0 <= a < out.len() implies (#[trigger] out[a]).wf()
                && out[a].timestamp >= v.min_timestamp by {
                if a > i {
                    assert(out[a] == v.groups[a - 1]);
                }
            }
        }
    }
}

/// Taking out the oldest group keeps the buffer well formed.
pub proof fn lemma_pop_wf(v: ReorderView)
    requires
        v.wf(),
    ensures
        v.pop().wf(),
{
    if v.groups.len() > 0 {
        let rest = v.groups.remove(0);
        assert forall|a: int| 0 <= a < rest.len() implies #[trigger] rest[a] == v.groups[a + 1] by {}
        assert forall|a: int, b: int| 0 <= a < b < rest.len() implies (#[trigger] rest[a]).timestamp
            < (#[trigger] rest[b]).timestamp by {
            assert(v.groups[a + 1].timestamp < v.groups[b + 1].timestamp);
        }
        assert forall|a: int| 0 <= a < rest.len() implies (#[trigger] rest[a]).wf()
            && rest[a].timestamp >= v.pop().min_timestamp by {
            assert(rest[a] == v.groups[a + 1]);
            if a > 0 {
                assert(rest[0].timestamp < rest[a].timestamp);
            }
        }
    }
}

/// One operation on a buffer.
pub enum Op {
    Feed(PacketView),
    Pop,
}

/// The buffer after `steps` were applied to `v`, first to last.
pub open spec fn after(v: ReorderView, steps: Seq<Op>) -> ReorderView
    decreases steps.len(),
{
    if steps.len() == 0 {
        v
    } else {
        let w = after(v, steps.drop_last());
        match steps.last() {
            Op::Feed(p) => w.feed(p),
            Op::Pop => w.pop(),
        }
    }
}

impl ReorderView {
    /// What `feed_rtp` answers for `p`.
    pub open spec fn feed_overflows(self, p: PacketView) -> bool {
        self.accepts(p) && self.feed(p).overflowing()
    }

    /// A group with this timestamp is held.
    pub open spec fn has_timestamp(self, timestamp: u32) -> bool {
        exists|i: int|
            0 <= i < self.groups.len() && (#[trigger] self.groups[i]).timestamp == timestamp
    }

    /// A packet with this timestamp and sequence number is held.
    pub open spec fn holds(self, timestamp: u32, sequence_number: u16) -> bool {
        exists|i: int, j: int|
            0 <= i < self.groups.len() && 0 <= j < self.groups[i].packets.len()
                && self.groups[i].timestamp == timestamp
                && (#[trigger] self.groups[i].packets[j]).sequence_number == sequence_number
    }
}

/// No operation lowers the low-water mark, and a frame never carries a
/// timestamp below it.
pub proof fn lemma_floor_never_sinks(v: ReorderView, p: PacketView)
    requires
        v.wf(),
    ensures
        v.feed(p).min_timestamp == v.min_timestamp,
        v.pop().min_timestamp >= v.min_timestamp,
        v.groups.len() > 0 ==> v.front_timestamp() >= v.min_timestamp,
{
    if v.groups.len() > 1 {
        assert(v.groups.remove(0)[0] == v.groups[1]);
    }
}

/// Once a pop has handed out a frame and left a group behind, every frame
/// handed out later, whatever is fed or popped in between, carries a
/// strictly greater timestamp.
pub proof fn lemma_emitted_timestamps_ascend(v: ReorderView, steps: Seq<Op>)
    requires
        v.wf(),
        v.groups.len() >= 2,
    ensures
        after(v.pop(), steps).wf(),
        after(v.pop(), steps).min_timestamp > v.front_timestamp(),
        after(v.pop(), steps).groups.len() > 0 ==> after(v.pop(), steps).front_timestamp()
            > v.front_timestamp(),
    decreases steps.len(),
{
    if steps.len() == 0 {
        lemma_pop_wf(v);
        assert(v.groups.remove(0)[0] == v.groups[1]);
        assert(v.groups[0].timestamp < v.groups[1].timestamp);
    } else {
        lemma_emitted_timestamps_ascend(v, steps.drop_last());
        let w = after(v.pop(), steps.drop_last());
        match steps.last() {
            Op::Feed(p) => {
                lemma_feed_wf(w, p);
                lemma_floor_never_sinks(w, p);
                lemma_floor_never_sinks(w.feed(p), p);
            },
            Op::Pop => {
                lemma_pop_wf(w);
                lemma_floor_never_sinks(w, arbitrary());
                lemma_floor_never_sinks(w.pop(), arbitrary());
            },
        }
    }
}

/// The frame handed out is the concatenation of the payloads of packets
/// whose sequence numbers ascend strictly: in order, and none twice.
pub proof fn lemma_frame_in_sequence_order(v: ReorderView)
    requires
        v.wf(),
        v.groups.len() > 0,
    ensures
        v.front_frame() == frame_bytes(v.groups[0].packets),
        packets_sorted(v.groups[0].packets),
{
}

/// On a buffer that is not over its limit, the answer of a feed is `true`
/// exactly when the groups then held outnumber the limit.
pub proof fn lemma_overflow_iff_over_limit(v: ReorderView, p: PacketView)
    requires
        v.wf(),
        !v.overflowing(),
    ensures
        v.feed_overflows(p) <==> v.feed(p).overflowing(),
{
}

/// The timestamps held after a feed are those held before it and, where
/// the packet was taken, the packet's.
pub proof fn lemma_feed_timestamps(v: ReorderView, p: PacketView, timestamp: u32)
    ensures
        v.feed(p).has_timestamp(timestamp) <==> v.has_timestamp(timestamp) || (v.accepts(p)
            && timestamp == p.timestamp),
{
    if v.accepts(p) {
        let keys = ts_keys(v.groups);
        lemma_first_not_below(keys, p.timestamp as int);
        let i = first_not_below(keys, p.timestamp as int);
        let out = v.feed(p).groups;
        assert(out[i].timestamp == p.timestamp);
        if i < v.groups.len() && v.groups[i].timestamp == p.timestamp {
            if v.has_timestamp(timestamp) {
                let j = choose|j: int|
                    0 <= j < v.groups.len() && (#[trigger] v.groups[j]).timestamp == timestamp;
                assert(out[j].timestamp == timestamp);
            }
            if v.feed(p).has_timestamp(timestamp) {
                let j = choose|j: int|
                    0 <= j < out.len() && (#[trigger] out[j]).timestamp == timestamp;
                assert(v.groups[j].timestamp == timestamp);
            }
        } else {
            if v.has_timestamp(timestamp) {
                let j = choose|j: int|
                    0 <= j < v.groups.len() && (#[trigger] v.groups[j]).timestamp == timestamp;
                if j < i {
                    assert(out[j].timestamp == timestamp);
                } else {
                    assert(out[j + 1].timestamp == timestamp);
                }
            }
            if v.feed(p).has_timestamp(timestamp) && timestamp != p.timestamp {
                let j = choose|j: int|
                    0 <= j < out.len() && (#[trigger] out[j]).timestamp == timestamp;
                if j < i {
                    assert(v.groups[j].timestamp == timestamp);
                } else {
                    assert(v.groups[j - 1].timestamp == timestamp);
                }
            }
        }
    }
}

/// A pop takes the group with the smallest timestamp and leaves all others.
pub proof fn lemma_pop_takes_smallest(v: ReorderView, timestamp: u32)
    requires
        v.wf(),
        v.groups.len() > 0,
    ensures
        v.has_timestamp(v.front_timestamp()),
        v.has_timestamp(timestamp) ==> v.front_timestamp() <= timestamp,
        v.pop().has_timestamp(timestamp) <==> v.has_timestamp(timestamp) && timestamp
            != v.front_timestamp(),
{
    let rest = v.pop().groups;
    assert(v.groups[0].timestamp == v.front_timestamp());
    if v.has_timestamp(timestamp) {
        let j = choose|j: int|
            0 <= j < v.groups.len() && (#[trigger] v.groups[j]).timestamp == timestamp;
        if j > 0 {
            assert(v.groups[0].timestamp < v.groups[j].timestamp);
            assert(rest[j - 1].timestamp == timestamp);
        }
    }
    if v.pop().has_timestamp(timestamp) {
        let j = choose|j: int| 0 <= j < rest.len() && (#[trigger] rest[j]).timestamp == timestamp;
        assert(v.groups[j + 1].timestamp == timestamp);
        assert(v.groups[0].timestamp < v.groups[j + 1].timestamp);
    }
}

/// The packets of a group as a mapping from sequence number to payload.
pub open spec fn group_map(packets: Seq<PacketView>) -> Map<u16, Seq<u8>> {
    Map::new(
        |sn: u16|
            exists|i: int| 0 <= i < packets.len() && (#[trigger] packets[i]).sequence_number == sn,
        |sn: u16|
            packets[choose|i: int|
                0 <= i < packets.len() && (#[trigger] packets[i]).sequence_number == sn].payload,
    )
}

/// `m` with `payload` entered under `sn` unless `sn` is taken.
pub open spec fn insert_if_absent(m: Map<u16, Seq<u8>>, sn: u16, payload: Seq<u8>) -> Map<
    u16,
    Seq<u8>,
> {
    if m.contains_key(sn) {
        m
    } else {
        m.insert(sn, payload)
    }
}

impl ReorderView {
    /// The buffer as a mapping from timestamp to the packets held for it,
    /// each a mapping from sequence number to payload.
    pub open spec fn as_map(self) -> Map<u32, Map<u16, Seq<u8>>> {
        Map::new(
            |ts: u32| self.has_timestamp(ts),
            |ts: u32|
                group_map(
                    self.groups[choose|i: int|
                        0 <= i < self.groups.len() && (#[trigger] self.groups[i]).timestamp
                            == ts].packets,
                ),
        )
    }
}

/// In a group in ascending order a sequence number stands at one place only.
pub proof fn lemma_sequence_number_once(packets: Seq<PacketView>, a: int, b: int)
    requires
        packets_sorted(packets),
        0 <= a < packets.len(),
        0 <= b < packets.len(),
        packets[a].sequence_number == packets[b].sequence_number,
    ensures
        a == b,
{
    if a < b {
        assert(packets[a].sequence_number < packets[b].sequence_number);
    } else if b < a {
        assert(packets[b].sequence_number < packets[a].sequence_number);
    }
}

/// The payload that a group in ascending order maps a sequence number to
/// is that of the packet that carries the number.
pub proof fn lemma_group_map_at(packets: Seq<PacketView>, i: int)
    requires
        packets_sorted(packets),
        0 <= i < packets.len(),
    ensures
        group_map(packets).contains_key(packets[i].sequence_number),
        group_map(packets)[packets[i].sequence_number] == packets[i].payload,
{
    let sn = packets[i].sequence_number;
    let k = choose|k: int| 0 <= k < packets.len() && (#[trigger] packets[k]).sequence_number == sn;
    lemma_sequence_number_once(packets, i, k);
}

/// Placing a packet keeps a group in ascending order.
pub proof fn lemma_place_packet_sorted(packets: Seq<PacketView>, p: PacketView)
    requires
        packets_sorted(packets),
    ensures
        packets_sorted(place_packet(packets, p)),
{
    let keys = sn_keys(packets);
    let sn = p.sequence_number as int;
    lemma_first_not_below(keys, sn);
    let i = first_not_below(keys, sn);
    let out = place_packet(packets, p);
    if !(i < packets.len() && packets[i].sequence_number == p.sequence_number) {
        assert forall|a: int, b: int| 0 <= a < b < out.len() implies (#[trigger] out[a]).sequence_number
            < (#[trigger] out[b]).sequence_number by {
            if a < i {
                assert(keys[a] < sn);
            }
            if b > i {
                assert(out[b] == packets[b - 1]);
                assert(keys[i] >= sn);
                if b - 1 > i {
                    assert(packets[i].sequence_number < packets[b - 1].sequence_number);
                }
            }
        }
    }
}

/// As a mapping, placing a packet into a group enters its payload under
/// its sequence number unless that number is taken.
pub proof fn lemma_place_packet_map(packets: Seq<PacketView>, p: PacketView)
    requires
        packets_sorted(packets),
    ensures
        group_map(place_packet(packets, p)) == insert_if_absent(
            group_map(packets),
            p.sequence_number,
            p.payload,
        ),
{
    let keys = sn_keys(packets);
    lemma_first_not_below(keys, p.sequence_number as int);
    let i = first_not_below(keys, p.sequence_number as int);
    let out = place_packet(packets, p);
    let m = group_map(packets);
    lemma_place_packet_sorted(packets, p);
    if m.contains_key(p.sequence_number) {
        let j = choose|j: int|
            0 <= j < packets.len() && (#[trigger] packets[j]).sequence_number == p.sequence_number;
        assert forall|a: int| 0 <= a < j implies keys[a] < p.sequence_number by {
            assert(packets[a].sequence_number < packets[j].sequence_number);
        }
        lemma_first_not_below_is(keys, p.sequence_number as int, j);
    } else {
        assert(out[i] == p);
        let target = m.insert(p.sequence_number, p.payload);
        assert forall|sn: u16| group_map(out).contains_key(sn) <==> target.contains_key(sn) by {
            if group_map(out).contains_key(sn) && sn != p.sequence_number {
                let k = choose|k: int|
                    0 <= k < out.len() && (#[trigger] out[k]).sequence_number == sn;
                if k < i {
                    assert(packets[k].sequence_number == sn);
                } else {
                    assert(packets[k - 1].sequence_number == sn);
                }
            }
            if m.contains_key(sn) {
                let k = choose|k: int|
                    0 <= k < packets.len() && (#[trigger] packets[k]).sequence_number == sn;
                if k < i {
                    assert(out[k].sequence_number == sn);
                } else {
                    assert(out[k + 1].sequence_number == sn);
                }
            }
        }
        assert forall|sn: u16| group_map(out).contains_key(sn) implies group_map(out)[sn]
            == target[sn] by {
            let k = choose|k: int| 0 <= k < out.len() && (#[trigger] out[k]).sequence_number == sn;
            lemma_group_map_at(out, k);
            if k < i {
                lemma_group_map_at(packets, k);
            } else if k > i {
                assert(out[k] == packets[k - 1]);
                lemma_group_map_at(packets, k - 1);
            }
        }
        assert(group_map(out) =~= target);
    }
}

/// The mapping that a well-formed buffer holds under a timestamp is that
/// of the group that carries the timestamp.
pub proof fn lemma_as_map_at(v: ReorderView, i: int)
    requires
        v.wf(),
        0 <= i < v.groups.len(),
    ensures
        v.as_map().contains_key(v.groups[i].timestamp),
        v.as_map()[v.groups[i].timestamp] == group_map(v.groups[i].packets),
{
    let ts = v.groups[i].timestamp;
    let k = choose|k: int| 0 <= k < v.groups.len() && (#[trigger] v.groups[k]).timestamp == ts;
    if k < i {
        assert(v.groups[k].timestamp < v.groups[i].timestamp);
    } else if i < k {
        assert(v.groups[i].timestamp < v.groups[k].timestamp);
    }
}

/// As a mapping, feeding a packet that is taken enters its payload under
/// its timestamp and sequence number unless a packet is held there; every
/// other timestamp keeps what it had.
pub proof fn lemma_feed_map(v: ReorderView, p: PacketView)
    requires
        v.wf(),
        v.accepts(p),
    ensures
        v.feed(p).as_map() == v.as_map().insert(
            p.timestamp,
            insert_if_absent(
                if v.as_map().contains_key(p.timestamp) {
                    v.as_map()[p.timestamp]
                } else {
                    Map::empty()
                },
                p.sequence_number,
                p.payload,
            ),
        ),
{
    let w = v.feed(p);
    lemma_feed_wf(v, p);
    let keys = ts_keys(v.groups);
    lemma_first_not_below(keys, p.timestamp as int);
    let i = first_not_below(keys, p.timestamp as int);
    let before = if v.as_map().contains_key(p.timestamp) {
        v.as_map()[p.timestamp]
    } else {
        Map::empty()
    };
    let target = v.as_map().insert(
        p.timestamp,
        insert_if_absent(before, p.sequence_number, p.payload),
    );
    assert(w.groups[i].timestamp == p.timestamp);
    lemma_as_map_at(w, i);
    if i < v.groups.len() && v.groups[i].timestamp == p.timestamp {
        lemma_as_map_at(v, i);
        assert(v.groups[i].wf());
        lemma_place_packet_map(v.groups[i].packets, p);
    } else {
        if v.has_timestamp(p.timestamp) {
            let j = choose|j: int|
                0 <= j < v.groups.len() && (#[trigger] v.groups[j]).timestamp == p.timestamp;
            if j < i {
                assert(keys[j] < p.timestamp);
            } else {
                assert(keys[i] >= p.timestamp);
                if j > i {
                    assert(v.groups[i].timestamp < v.groups[j].timestamp);
                }
            }
        }
        let single = seq![p];
        assert(single[0].sequence_number == p.sequence_number);
        assert(packets_sorted(single));
        lemma_group_map_at(single, 0);
        assert(group_map(single) =~= Map::<u16, Seq<u8>>::empty().insert(
            p.sequence_number,
            p.payload,
        ));
    }
    assert forall|ts: u32| w.as_map().contains_key(ts) <==> target.contains_key(ts) by {
        lemma_feed_timestamps(v, p, ts);
    }
    assert forall|ts: u32| w.as_map().contains_key(ts) && ts != p.timestamp implies w.as_map()[ts]
        == v.as_map()[ts] by {
        let k = choose|k: int| 0 <= k < w.groups.len() && (#[trigger] w.groups[k]).timestamp == ts;
        lemma_as_map_at(w, k);
        if i < v.groups.len() && v.groups[i].timestamp == p.timestamp {
            assert(w.groups[k] == v.groups[k]);
            lemma_as_map_at(v, k);
        } else if k < i {
            assert(w.groups[k] == v.groups[k]);
            lemma_as_map_at(v, k);
        } else {
            assert(w.groups[k] == v.groups[k - 1]);
            lemma_as_map_at(v, k - 1);
        }
    }
    assert(w.as_map() =~= target);
}

/// As a mapping, a pop removes the smallest timestamp held and leaves
/// every other timestamp with what it had.
pub proof fn lemma_pop_map(v: ReorderView)
    requires
        v.wf(),
        v.groups.len() > 0,
    ensures
        v.as_map().contains_key(v.front_timestamp()),
        forall|ts: u32| v.as_map().contains_key(ts) ==> v.front_timestamp() <= ts,
        v.pop().as_map() == v.as_map().remove(v.front_timestamp()),
{
    let w = v.pop();
    lemma_pop_wf(v);
    let target = v.as_map().remove(v.front_timestamp());
    assert forall|ts: u32| v.as_map().contains_key(ts) implies v.front_timestamp() <= ts by {
        lemma_pop_takes_smallest(v, ts);
    }
    lemma_pop_takes_smallest(v, v.front_timestamp());
    assert forall|ts: u32| w.as_map().contains_key(ts) <==> target.contains_key(ts) by {
        lemma_pop_takes_smallest(v, ts);
    }
    assert forall|ts: u32| w.as_map().contains_key(ts) implies w.as_map()[ts] == target[ts] by {
        let k = choose|k: int| 0 <= k < w.groups.len() && (#[trigger] w.groups[k]).timestamp == ts;
        lemma_as_map_at(w, k);
        assert(w.groups[k] == v.groups[k + 1]);
        lemma_as_map_at(v, k + 1);
    }
    assert(w.as_map() =~= target);
}

/// Placing a packet keeps every packet that was there and adds the new one
/// exactly where its sequence number was not there yet.
pub proof fn lemma_place_packet_members(packets: Seq<PacketView>, p: PacketView, q: PacketView)
    requires
        packets_sorted(packets),
    ensures
        place_packet(packets, p).contains(q) <==> packets.contains(q) || (q == p && forall|i: int|
            0 <= i < packets.len() ==> (#[trigger] packets[i]).sequence_number
                != p.sequence_number),
{
    let keys = sn_keys(packets);
    lemma_first_not_below(keys, p.sequence_number as int);
    let i = first_not_below(keys, p.sequence_number as int);
    let out = place_packet(packets, p);
    if i < packets.len() && packets[i].sequence_number == p.sequence_number {
    } else {
        assert(out[i] == p);
        assert forall|j: int| 0 <= j < packets.len() implies (#[trigger] packets[j]).sequence_number
            != p.sequence_number by {
            if j < i {
                assert(keys[j] < p.sequence_number);
            } else {
                assert(keys[i] >= p.sequence_number);
                if j > i {
                    assert(packets[i].sequence_number < packets[j].sequence_number);
                }
            }
        }
        if packets.contains(q) {
            let j = choose|j: int| 0 <= j < packets.len() && packets[j] == q;
            if j < i {
                assert(out[j] == q);
            } else {
                assert(out[j + 1] == q);
            }
        }
        if out.contains(q) {
            let j = choose|j: int| 0 <= j < out.len() && out[j] == q;
            if j < i {
                assert(packets[j] == q);
            } else if j > i {
                assert(packets[j - 1] == q);
            }
        }
    }
}

/// A packet that was taken is held.
pub proof fn lemma_fed_packet_held(v: ReorderView, p: PacketView)
    requires
        v.accepts(p),
    ensures
        v.feed(p).holds(p.timestamp, p.sequence_number),
{
    let keys = ts_keys(v.groups);
    lemma_first_not_below(keys, p.timestamp as int);
    let i = first_not_below(keys, p.timestamp as int);
    let out = v.feed(p).groups;
    if i < v.groups.len() && v.groups[i].timestamp == p.timestamp {
        let inner = sn_keys(v.groups[i].packets);
        lemma_first_not_below(inner, p.sequence_number as int);
        let j = first_not_below(inner, p.sequence_number as int);
        assert(out[i].packets[j].sequence_number == p.sequence_number);
    } else {
        assert(out[i].packets[0].sequence_number == p.sequence_number);
    }
}

/// Feeding a packet whose timestamp and sequence number are already held
/// changes nothing: the packet that came first stays.
pub proof fn lemma_first_packet_wins(v: ReorderView, q: PacketView)
    requires
        v.wf(),
        v.holds(q.timestamp, q.sequence_number),
    ensures
        v.feed(q) == v,
{
    let (i, j) = choose|i: int, j: int|
        0 <= i < v.groups.len() && 0 <= j < v.groups[i].packets.len() && v.groups[i].timestamp
            == q.timestamp && (#[trigger] v.groups[i].packets[j]).sequence_number
            == q.sequence_number;
    let keys = ts_keys(v.groups);
    assert forall|a: int| 0 <= a < i implies keys[a] < q.timestamp by {
        assert(v.groups[a].timestamp < v.groups[i].timestamp);
    }
    lemma_first_not_below_is(keys, q.timestamp as int, i);
    let g = v.groups[i];
    assert(g.wf());
    let inner = sn_keys(g.packets);
    assert forall|b: int| 0 <= b < j implies inner[b] < q.sequence_number by {
        assert(g.packets[b].sequence_number < g.packets[j].sequence_number);
    }
    lemma_first_not_below_is(inner, q.sequence_number as int, j);
    assert(g.timestamp == q.timestamp);
    assert(v.groups.update(i, g) =~= v.groups);
}

/// A timestamp equal to the low-water mark is taken; one below it by one is
/// dropped and leaves the buffer as it was.
pub proof fn lemma_low_water_boundary(v: ReorderView, p: PacketView)
    ensures
        p.timestamp == v.min_timestamp ==> v.accepts(p) && v.feed(p).holds(
            p.timestamp,
            p.sequence_number,
        ),
        p.timestamp + 1 == v.min_timestamp ==> !v.accepts(p) && v.feed(p) == v,
{
    if p.timestamp == v.min_timestamp {
        lemma_fed_packet_held(v, p);
    }
}

/// With a limit of zero every packet that is taken makes a frame due.
pub proof fn lemma_zero_limit_always_overflows(v: ReorderView, p: PacketView)
    requires
        v.limit_frames == 0,
        v.accepts(p),
    ensures
        v.feed_overflows(p),
{
    lemma_first_not_below(ts_keys(v.groups), p.timestamp as int);
}

/// Fed to an empty buffer, a packet that is taken comes out at the next pop
/// as a frame of its own, and the buffer is empty again.
pub proof fn lemma_single_packet_frame(v: ReorderView, p: PacketView)
    requires
        v.groups.len() == 0,
        v.accepts(p),
    ensures
        v.feed(p).front_timestamp() == p.timestamp,
        v.feed(p).front_frame() == p.payload,
        v.feed(p).pop().groups.len() == 0,
{
    let ps = seq![p];
    assert(ps.drop_last() =~= Seq::<PacketView>::empty());
    assert(frame_bytes(ps.drop_last()) =~= Seq::<u8>::empty());
    assert(frame_bytes(ps) =~= p.payload) by {
        reveal_with_fuel(frame_bytes, 2);
    }
}

spec fn packets_view(packets: Seq<RtpPacket>) -> Seq<PacketView> {
    packets.map_values(|p: RtpPacket| p@)
}

spec fn groups_view(groups: Seq<FrameGroup>) -> Seq<GroupView> {
    groups.map_values(|g: FrameGroup| g@)
}

struct FrameGroup {
    timestamp: u32,
    packets: Vec<RtpPacket>,
}

impl View for FrameGroup {
    type V = GroupView;

    closed spec fn view(&self) -> GroupView {
        GroupView { timestamp: self.timestamp, packets: packets_view(self.packets@) }
    }
}

fn packet_slot(packets: &Vec<RtpPacket>, sn: u16) -> (i: usize)
    ensures
        i <= packets.len(),
        i == first_not_below(sn_keys(packets_view(packets@)), sn as int),
{
    let mut i: usize = 0;
    while i < packets.len() && packets[i].sequence_number < sn
        invariant
            i <= packets.len(),
            forall|j: int| 0 <= j < i ==> packets[j].sequence_number < sn,
        decreases packets.len() - i,
    {
        i += 1;
    }
    proof {
        let keys = sn_keys(packets_view(packets@));
        assert forall|j: int| 0 <= j < i implies keys[j] < sn by {
            assert(packets[j].sequence_number < sn);
        }
        lemma_first_not_below_is(keys, sn as int, i as int);
    }
    i
}

fn group_slot(groups: &Vec<FrameGroup>, ts: u32) -> (i: usize)
    ensures
        i <= groups.len(),
        i == first_not_below(ts_keys(groups_view(groups@)), ts as int),
{
    let mut i: usize = 0;
    while i < groups.len() && groups[i].timestamp < ts
        invariant
            i <= groups.len(),
            forall|j: int| 0 <= j < i ==> groups[j].timestamp < ts,
        decreases groups.len() - i,
    {
        i += 1;
    }
    proof {
        let keys = ts_keys(groups_view(groups@));
        assert forall|j: int| 0 <= j < i implies keys[j] < ts by {
            assert(groups[j].timestamp < ts);
        }
        lemma_first_not_below_is(keys, ts as int, i as int);
    }
    i
}

impl FrameGroup {
    fn place(&mut self, packet: RtpPacket)
        ensures
            final(self)@ == (GroupView {
                timestamp: old(self)@.timestamp,
                packets: place_packet(old(self)@.packets, packet@),
            }),
    {
        let sn = packet.sequence_number;
        let i = packet_slot(&self.packets, sn);
        let held = i < self.packets.len() && self.packets[i].sequence_number == sn;
        if !held {
            self.packets.insert(i, packet);
            assert(packets_view(self.packets@) =~= packets_view(old(self).packets@).insert(
                i as int,
                packet@,
            ));
        }
    }

    fn assemble(&self) -> (frame: Vec<u8>)
        ensures
            frame@ == frame_bytes(self@.packets),
    {
        let mut frame: Vec<u8> = Vec::new();
        let mut i: usize = 0;
        let ghost all = packets_view(self.packets@);
        while i < self.packets.len()
            invariant
                i <= self.packets.len(),
                all == packets_view(self.packets@),
                frame@ == frame_bytes(all.take(i as int)),
            decreases self.packets.len() - i,
        {
            frame.extend_from_slice(self.packets[i].payload.as_slice());
            proof {
                let s = all.take(i + 1);
                assert(s.drop_last() =~= all.take(i as int));
                assert(s.last() == all[i as int]);
            }
            i += 1;
        }
        proof {
            assert(all.take(i as int) =~= all);
        }
        frame
    }
}

/// Per-stream reorder buffer.
pub struct RtpPacketReOrder {
    min_timestamp: u32,
    limit_frames: usize,
    packet_groups: Vec<FrameGroup>,
    output_file: Option<String>,
}

impl View for RtpPacketReOrder {
    type V = ReorderView;

    closed spec fn view(&self) -> ReorderView {
        ReorderView {
            min_timestamp: self.min_timestamp,
            limit_frames: self.limit_frames,
            groups: groups_view(self.packet_groups@),
            sink: match self.output_file {
                Some(path) => Some(path@),
                None => None,
            },
        }
    }
}

impl RtpPacketReOrder {
    /// The buffer's value is well formed.
    pub open spec fn wf(&self) -> bool {
        self@.wf()
    }

    /// An empty buffer with low-water mark 0. An empty `output_file` means
    /// that emitted frames go to no sink.
    pub fn new(limit_frames: usize, output_file: &str) -> (r: Self)
        ensures
            r.wf(),
            r@ == (ReorderView {
                min_timestamp: 0,
                limit_frames,
                groups: Seq::empty(),
                sink: if output_file@.len() == 0 {
                    None
                } else {
                    Some(output_file@)
                },
            }),
    {
        let sink = if output_file.is_empty() {
            None
        } else {
            Some(output_file.to_owned())
        };
        let r = RtpPacketReOrder {
            min_timestamp: 0,
            limit_frames,
            packet_groups: Vec::new(),
            output_file: sink,
        };
        assert(r@.groups =~= Seq::empty());
        r
    }

    /// The path of the sink that emitted frames are appended to, if any.
    pub fn sink(&self) -> (path: Option<&String>)
        ensures
            match path {
                Some(p) => self@.sink == Some(p@),
                None => self@.sink is None,
            },
    {
        self.output_file.as_ref()
    }

    /// The low-water mark: packets with a smaller timestamp are dropped.
    pub fn min_timestamp(&self) -> (ts: u32)
        ensures
            ts == self@.min_timestamp,
    {
        self.min_timestamp
    }

    /// The number of timestamp groups held.
    pub fn len(&self) -> (n: usize)
        ensures
            n == self@.groups.len(),
    {
        self.packet_groups.len()
    }

    /// Takes `packet` unless it is expired, and tells whether a frame is due.
    pub fn feed_rtp(&mut self, packet: RtpPacket) -> (overflow: bool)
        requires
            old(self).wf(),
        ensures
            final(self).wf(),
            final(self)@ == old(self)@.feed(packet@),
            overflow == old(self)@.feed_overflows(packet@),
    {
        let timestamp = packet.timestamp;
        if timestamp < self.min_timestamp {
            return false;
        }
        let ghost before = groups_view(self.packet_groups@);
        let ghost p = packet@;
        let i = group_slot(&self.packet_groups, timestamp);
        if i < self.packet_groups.len() && self.packet_groups[i].timestamp == timestamp {
            let mut group = self.packet_groups.remove(i);
            group.place(packet);
            self.packet_groups.insert(i, group);
            assert(groups_view(self.packet_groups@) =~= before.update(i as int, group@));
        } else {
            let mut packets: Vec<RtpPacket> = Vec::new();
            packets.push(packet);
            let group = FrameGroup { timestamp, packets };
            assert(group@.packets =~= seq![p]);
            self.packet_groups.insert(i, group);
            assert(groups_view(self.packet_groups@) =~= before.insert(i as int, group@));
        }
        proof {
            lemma_feed_wf(old(self)@, p);
        }
        self.packet_groups.len() > self.limit_frames
    }

    /// Takes out the oldest group and hands back its timestamp and its
    /// payloads in sequence-number order; `(0, empty)` when nothing is held.
    pub fn pop_frame(&mut self) -> (r: (u32, Vec<u8>))
        requires
            old(self).wf(),
        ensures
            final(self).wf(),
            final(self)@ == old(self)@.pop(),
            r.0 == old(self)@.front_timestamp(),
            r.1@ == old(self)@.front_frame(),
    {
        if self.packet_groups.len() == 0 {
            return (0, Vec::new());
        }
        let ghost before = groups_view(self.packet_groups@);
        let group = self.packet_groups.remove(0);
        let frame = group.assemble();
        assert(groups_view(self.packet_groups@) =~= before.remove(0));
        if self.packet_groups.len() > 0 {
            self.min_timestamp = self.packet_groups[0].timestamp;
        }
        proof {
            lemma_pop_wf(old(self)@);
        }
        (group.timestamp, frame)
    }
}

} // verus!
