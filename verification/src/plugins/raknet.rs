//! The parts of the RakNet protocol that a short-lived fake server needs:
//! frames, fragment headers, batches and addresses.

use vstd::prelude::*;
use vstd::slice::slice_subrange;

use crate::bytes::{
    be16_at, be32_at, low_three_le, push_bytes, push_low_three_le, push_u16_be, read_u16_be,
    read_u32_be, u16_be,
};
use crate::net::{AddrView, SocketAddr};
use crate::varint::{
    decode_at, decoded, decoded_none_iff, encoded, encoded_decodes_back,
    proper_prefix_is_unfinished, push_varint,
};

verus! {

/// Fixed 16 bytes that every RakNet packet outside a connection contains:
/// they tell inbound pings and handshake packets from other traffic, and are
/// stamped on the replies.
pub const RAKNET_MAGIC: [u8; 16] = [
    0x00, 0xff, 0xff, 0x00, 0xfe, 0xfe, 0xfe, 0xfe, 0xfd, 0xfd, 0xfd, 0xfd, 0x12, 0x34, 0x56, 0x78,
];

/// First byte of a batch of game packets.
pub const MC_BATCH_HEADER: u8 = 0xFE;

/// Length of the datagram header: flags and a three-byte sequence number.
pub const DATAGRAM_HEADER_LEN: usize = 4;

/// The contents of a list of slices.
pub open spec fn contents(slices: Seq<&[u8]>) -> Seq<Seq<u8>> {
    Seq::new(slices.len(), |i: int| slices[i]@)
}

/// Whether a frame with these flags is one fragment of a larger packet.
pub open spec fn is_fragment(flags: u8) -> bool {
    flags / 16 % 2 == 1
}

/// Whether frames of this reliability carry a three-byte message index.
pub open spec fn has_message_index(reliability: u8) -> bool {
    reliability == 2 || reliability == 3 || reliability == 4 || reliability == 6 || reliability == 7
}

/// Whether frames of this reliability carry a three-byte order index and a
/// one-byte order channel.
pub open spec fn has_order_index(reliability: u8) -> bool {
    reliability == 1 || reliability == 3 || reliability == 4 || reliability == 5 || reliability == 7
}

/// Length of the header of a frame with these flags: the flags, the length in
/// bits, and the indices that the reliability asks for.
pub open spec fn frame_header_len(flags: u8) -> nat {
    (3 + (if has_message_index(flags / 32) {
        3int
    } else {
        0
    }) + (if has_order_index(flags / 32) {
        4int
    } else {
        0
    })) as nat
}

fn header_len_of(flags: u8) -> (len: usize)
    ensures
        len == frame_header_len(flags),
        3 <= len <= 10,
{
    let reliability = flags / 32;
    let mut len: usize = 3;
    if reliability == 2 || reliability == 3 || reliability == 4 || reliability == 6 || reliability
        == 7 {
        len = len + 3;
    }
    if reliability == 1 || reliability == 3 || reliability == 4 || reliability == 5 || reliability
        == 7 {
        len = len + 4;
    }
    len
}

/// Length in bytes of the payload of the frame at `i`, from its length in
/// bits.
pub open spec fn payload_len_at(data: Seq<u8>, i: int) -> nat {
    (be16_at(data, i + 1) + 7) / 8
}

/// The payloads of the frames of `data` from `i` on, up to the first frame
/// that is a fragment or that does not fit in `data`.
pub open spec fn frames_from(data: Seq<u8>, i: int) -> Seq<Seq<u8>>
    decreases data.len() - i,
{
    if i < 0 || i + 3 > data.len() {
        Seq::empty()
    } else {
        let start = i + frame_header_len(data[i]);
        let end = start + payload_len_at(data, i);
        if is_fragment(data[i]) || end > data.len() {
            Seq::empty()
        } else {
            seq![data.subrange(start, end)] + frames_from(data, end)
        }
    }
}

/// The payloads of the frames of a datagram.
pub open spec fn frames(data: Seq<u8>) -> Seq<Seq<u8>> {
    frames_from(data, DATAGRAM_HEADER_LEN as int)
}

/// The payload of each frame of a datagram. Stops at a fragmented frame, since
/// fragments are not reassembled, and at a malformed length.
pub fn parse_frame_payloads(data: &[u8]) -> (payloads: Vec<&[u8]>)
    ensures
        contents(payloads@) == frames(data@),
{
    let mut out: Vec<&[u8]> = Vec::new();
    if data.len() < DATAGRAM_HEADER_LEN {
        assert(contents(out@) =~= frames(data@));
        return out;
    }
    let mut i: usize = DATAGRAM_HEADER_LEN;
    assert(contents(out@) + frames_from(data@, i as int) =~= frames(data@));
    while data.len() - i >= 3
        invariant_except_break
            i <= data@.len(),
            contents(out@) + frames_from(data@, i as int) == frames(data@),
        ensures
            contents(out@) == frames(data@),
        decreases data@.len() - i,
    {
        let flags = data[i];
        let header: usize = header_len_of(flags);
        let bits: u16 = read_u16_be(data, i + 1);
        let len: usize = (bits as usize + 7) / 8;
        if flags / 16 % 2 == 1 || header + len > data.len() - i {
            assert(contents(out@) =~= frames(data@));
            break;
        }
        let ghost before = out@;
        let start: usize = i + header;
        let end: usize = start + len;
        out.push(slice_subrange(data, start, end));
        assert(contents(out@) =~= contents(before).push(data@.subrange(start as int, end as int)));
        assert(contents(out@) + frames_from(data@, end as int) =~= contents(before) + frames_from(
            data@,
            i as int,
        ));
        i = end;
        if data.len() - i < 3 {
            assert(contents(out@) =~= frames(data@));
        }
    }
    out
}

/// The bookkeeping of one fragment of a split packet.
#[derive(Debug, Clone, Copy, PartialEq, Eq, Structural)]
pub struct FragmentHeader {
    pub split_count: u32,
    pub split_id: u16,
    pub split_index: u32,
}

/// The fragment header of a datagram whose first frame is a fragment.
pub open spec fn fragment_header(data: Seq<u8>) -> Option<FragmentHeader> {
    if data.len() <= DATAGRAM_HEADER_LEN || !is_fragment(data[4]) {
        None
    } else {
        let i = (DATAGRAM_HEADER_LEN + frame_header_len(data[4])) as int;
        if i + 10 > data.len() {
            None
        } else {
            Some(
                FragmentHeader {
                    split_count: be32_at(data, i) as u32,
                    split_id: be16_at(data, i + 4) as u16,
                    split_index: be32_at(data, i + 6) as u32,
                },
            )
        }
    }
}

/// Reads the fields that stand behind the usual header of a datagram's first
/// frame where that frame is a fragment.
pub fn parse_fragment_header(data: &[u8]) -> (header: Option<FragmentHeader>)
    ensures
        header == fragment_header(data@),
{
    if data.len() <= DATAGRAM_HEADER_LEN {
        return None;
    }
    let flags = data[DATAGRAM_HEADER_LEN];
    if flags / 16 % 2 != 1 {
        return None;
    }
    let i: usize = DATAGRAM_HEADER_LEN + header_len_of(flags);
    if data.len() < i + 10 {
        return None;
    }
    Some(
        FragmentHeader {
            split_count: read_u32_be(data, i),
            split_id: read_u16_be(data, i + 4),
            split_index: read_u32_be(data, i + 6),
        },
    )
}

/// The packets of a batch from `i` on: each has its length before it. Ends
/// before the first one that is malformed or does not fit.
pub open spec fn batch_from(payload: Seq<u8>, i: int) -> Seq<Seq<u8>>
    decreases payload.len() - i,
{
    if i < 0 || i >= payload.len() {
        Seq::empty()
    } else {
        match decoded(payload.skip(i)) {
            None => Seq::empty(),
            Some((len, consumed)) => {
                let end = i + consumed + len;
                if consumed < 1 || end > payload.len() {
                    Seq::empty()
                } else {
                    seq![payload.subrange(i + consumed, end)] + batch_from(payload, end)
                }
            },
        }
    }
}

/// The game packets in a frame's payload: those of the batch, or the payload
/// itself where it is no batch.
pub open spec fn batch_packets(payload: Seq<u8>) -> Seq<Seq<u8>> {
    if payload.len() > 0 && payload[0] == MC_BATCH_HEADER {
        batch_from(payload, 1)
    } else {
        seq![payload]
    }
}

/// Splits a batch into its packets. What is no batch comes back whole, as the
/// one packet.
pub fn split_batch_packets(payload: &[u8]) -> (packets: Vec<&[u8]>)
    ensures
        contents(packets@) == batch_packets(payload@),
{
    let mut out: Vec<&[u8]> = Vec::new();
    if payload.len() == 0 || payload[0] != MC_BATCH_HEADER {
        out.push(payload);
        assert(contents(out@) =~= batch_packets(payload@));
        return out;
    }
    let mut i: usize = 1;
    assert(contents(out@) + batch_from(payload@, i as int) =~= batch_packets(payload@));
    while i < payload.len()
        invariant_except_break
            1 <= i <= payload@.len(),
            contents(out@) + batch_from(payload@, i as int) == batch_packets(payload@),
        ensures
            contents(out@) == batch_packets(payload@),
        decreases payload@.len() - i,
    {
        match decode_at(payload, i) {
            None => {
                assert(contents(out@) =~= batch_packets(payload@));
                break;
            },
            Some((len, consumed)) => {
                let start: usize = i + consumed;
                if len as usize > payload.len() - start {
                    assert(contents(out@) =~= batch_packets(payload@));
                    break;
                }
                let ghost before = out@;
                let end: usize = start + len as usize;
                out.push(slice_subrange(payload, start, end));
                assert(contents(out@) =~= contents(before).push(
                    payload@.subrange(start as int, end as int),
                ));
                assert(contents(out@) + batch_from(payload@, end as int) =~= contents(before)
                    + batch_from(payload@, i as int));
                i = end;
                if i >= payload.len() {
                    assert(contents(out@) =~= batch_packets(payload@));
                }
            },
        }
    }
    out
}

/// A batch of one game packet.
pub open spec fn batch_of(packet: Seq<u8>) -> Seq<u8> {
    seq![MC_BATCH_HEADER] + encoded(packet.len() % 0x1_0000_0000) + packet
}

/// Wraps one game packet as a batch.
pub fn batch(packet: &[u8]) -> (out: Vec<u8>)
    ensures
        out@ == batch_of(packet@),
{
    let mut out: Vec<u8> = Vec::new();
    out.push(MC_BATCH_HEADER);
    push_varint(&mut out, (packet.len() as u64 % 0x1_0000_0000) as u32);
    push_bytes(&mut out, packet);
    assert(out@ =~= batch_of(packet@));
    out
}

/// A packet with its length before it.
pub open spec fn batch_entry(packet: Seq<u8>) -> Seq<u8> {
    encoded(packet.len()) + packet
}

/// Packets one after another, each with its length before it.
pub open spec fn batch_entries(packets: Seq<Seq<u8>>) -> Seq<u8>
    decreases packets.len(),
{
    if packets.len() == 0 {
        Seq::empty()
    } else {
        batch_entry(packets[0]) + batch_entries(packets.drop_first())
    }
}

/// A batch of any number of packets.
pub open spec fn batch_of_all(packets: Seq<Seq<u8>>) -> Seq<u8> {
    seq![MC_BATCH_HEADER] + batch_entries(packets)
}

/// How many packets, with their lengths, fit in `room` bytes from the first one
/// on.
pub open spec fn packets_within(packets: Seq<Seq<u8>>, room: int) -> nat
    decreases packets.len(),
{
    if packets.len() == 0 || batch_entry(packets[0]).len() > room {
        0
    } else {
        1 + packets_within(packets.drop_first(), room - batch_entry(packets[0]).len())
    }
}

/// Whether the length of each packet can be written.
pub open spec fn lengths_fit(packets: Seq<Seq<u8>>) -> bool {
    forall|k: int| 0 <= k < packets.len() ==> (#[trigger] packets[k]).len() < 0x1_0000_0000
}

proof fn lemma_packets_within(packets: Seq<Seq<u8>>, room: int)
    ensures
        packets_within(packets, room) <= packets.len(),
        room >= batch_entries(packets).len() ==> packets_within(packets, room) == packets.len(),
        0 <= room < batch_entries(packets).len() ==> packets_within(packets, room)
            < packets.len(),
    decreases packets.len(),
{
    if packets.len() > 0 {
        lemma_packets_within(packets.drop_first(), room - batch_entry(packets[0]).len());
    }
}

proof fn lemma_cut_entry(payload: Seq<u8>, i: int, packet: Seq<u8>)
    requires
        1 <= i <= payload.len(),
        packet.len() < 0x1_0000_0000,
        payload.len() - i < batch_entry(packet).len(),
        payload.skip(i) == batch_entry(packet).take(payload.len() - i),
    ensures
        batch_from(payload, i) == Seq::<Seq<u8>>::empty(),
{
    let len = packet.len() as u32;
    let prefix = encoded(len as nat);
    let room = payload.len() - i;
    if 0 < room < prefix.len() {
        proper_prefix_is_unfinished(len, room);
        assert(payload.skip(i) =~= prefix.take(room));
    } else if room >= prefix.len() {
        let rest = packet.take(room - prefix.len());
        encoded_decodes_back(len, rest);
        assert(payload.skip(i) =~= prefix + rest);
    }
}

#[verifier::rlimit(40)]
proof fn lemma_batch_from(payload: Seq<u8>, i: int, packets: Seq<Seq<u8>>)
    requires
        1 <= i <= payload.len(),
        lengths_fit(packets),
        payload.len() - i <= batch_entries(packets).len(),
        payload.skip(i) == batch_entries(packets).take(payload.len() - i),
    ensures
        batch_from(payload, i) == packets.take(
            packets_within(packets, payload.len() - i) as int,
        ),
    decreases packets.len(),
{
    let room = payload.len() - i;
    lemma_packets_within(packets, room);
    if packets.len() == 0 {
        assert(batch_from(payload, i) =~= packets.take(0));
    } else {
        let entry = batch_entry(packets[0]);
        let others = packets.drop_first();
        if entry.len() > room {
            assert(payload.skip(i) =~= entry.take(room));
            lemma_cut_entry(payload, i, packets[0]);
            assert(batch_from(payload, i) =~= packets.take(0));
        } else {
            let len = packets[0].len() as u32;
            let end = i + entry.len();
            let rest = payload.skip(end);
            assert forall|j: int| i <= j < payload.len() implies #[trigger] payload[j]
                == batch_entries(packets)[j - i] by {
                assert(payload.skip(i)[j - i] == payload[j]);
            }
            assert(payload.skip(i) =~= encoded(len as nat) + (packets[0] + rest));
            encoded_decodes_back(len, packets[0] + rest);
            decoded_none_iff(payload.skip(i));
            assert(payload.subrange(i + encoded(len as nat).len(), end) =~= packets[0]);
            assert(rest =~= batch_entries(others).take(payload.len() - end));
            assert(lengths_fit(others)) by {
                assert forall|k: int| 0 <= k < others.len() implies (#[trigger] others[k]).len()
                    < 0x1_0000_0000 by {
                    assert(others[k] == packets[k + 1]);
                }
            }
            lemma_batch_from(payload, end, others);
            let n = packets_within(others, payload.len() - end);
            lemma_packets_within(others, payload.len() - end);
            assert(seq![packets[0]] + others.take(n as int) =~= packets.take(n as int + 1));
        }
    }
}

/// A batch splits into exactly the packets that were put in it, in order.
pub proof fn batch_splits_back(packets: Seq<Seq<u8>>)
    requires
        lengths_fit(packets),
    ensures
        batch_packets(batch_of_all(packets)) == packets,
{
    let whole = batch_of_all(packets);
    assert(whole.skip(1) =~= batch_entries(packets).take(whole.len() - 1));
    lemma_batch_from(whole, 1, packets);
    lemma_packets_within(packets, whole.len() - 1);
    assert(packets.take(packets.len() as int) =~= packets);
}

/// A batch that is cut short splits into the packets that it still holds in
/// full: the first ones, unchanged and in order, and none of what is left of
/// the next.
pub proof fn cut_batch_gives_whole_packets(packets: Seq<Seq<u8>>, cut: int)
    requires
        lengths_fit(packets),
        1 <= cut <= batch_of_all(packets).len(),
    ensures
        packets_within(packets, cut - 1) <= packets.len(),
        cut < batch_of_all(packets).len() ==> packets_within(packets, cut - 1) < packets.len(),
        batch_packets(batch_of_all(packets).take(cut)) == packets.take(
            packets_within(packets, cut - 1) as int,
        ),
{
    let part = batch_of_all(packets).take(cut);
    assert(part.skip(1) =~= batch_entries(packets).take(cut - 1));
    lemma_batch_from(part, 1, packets);
    lemma_packets_within(packets, cut - 1);
}

/// A batch of one packet is what wrapping that packet gives, and splits into
/// it.
pub proof fn wrapped_packet_splits_back(packet: Seq<u8>)
    requires
        packet.len() < 0x1_0000_0000,
    ensures
        batch_of(packet) == batch_of_all(seq![packet]),
        batch_packets(batch_of(packet)) == seq![packet],
{
    assert(seq![packet].drop_first() =~= Seq::empty());
    assert(batch_entries(Seq::empty()) =~= Seq::empty());
    assert(batch_of(packet) =~= batch_of_all(seq![packet]));
    batch_splits_back(seq![packet]);
}

/// The number that `v` becomes for a variable-length signed field: small
/// magnitudes stay small.
pub open spec fn zigzag(v: i32) -> nat {
    if v >= 0 {
        (2 * v) as nat
    } else {
        (-2 * v - 1) as nat
    }
}

/// Encodes the sign in the lowest bit, for signed variable-length fields.
pub fn zigzag_encode(value: i32) -> (v: u32)
    ensures
        v == zigzag(value),
{
    if value >= 0 {
        (2 * value as i64) as u32
    } else {
        (-2 * value as i64 - 1) as u32
    }
}

/// Different values have different encodings.
pub proof fn zigzag_is_injective(a: i32, b: i32)
    requires
        zigzag(a) == zigzag(b),
    ensures
        a == b,
{
}

/// An address on the wire: its version, four octets and the port. An IPv6
/// address is written with zero octets.
pub open spec fn wire_address(addr: AddrView) -> Seq<u8> {
    seq![4u8] + match addr {
        AddrView::V4 { octets, port } => octets,
        AddrView::V6 { ip, port, flowinfo } => seq![0u8, 0, 0, 0],
    } + u16_be(addr.port())
}

/// Appends an address.
pub fn push_address(out: &mut Vec<u8>, addr: &SocketAddr)
    ensures
        final(out)@ == old(out)@ + wire_address(addr@),
{
    out.push(4);
    match addr {
        SocketAddr::V4 { octets, port: _ } => {
            push_bytes(out, octets);
        },
        SocketAddr::V6 { ip: _, port: _, flowinfo: _ } => {
            push_bytes(out, &[0, 0, 0, 0]);
        },
    }
    push_u16_be(out, addr.port());
    assert(out@ =~= old(out)@ + wire_address(addr@));
}

/// An acknowledgement of one datagram.
pub open spec fn ack(seq_number: u32) -> Seq<u8> {
    seq![0xC0u8, 0, 1, 1] + low_three_le(seq_number)
}

/// Acknowledges the datagram with this sequence number: one record, that of a
/// single number. Nothing is ever sent again, so ranges are not needed.
pub fn build_ack(seq_number: u32) -> (out: Vec<u8>)
    ensures
        out@ == ack(seq_number),
{
    let mut out: Vec<u8> = Vec::new();
    out.push(0xC0);
    push_u16_be(&mut out, 1);
    out.push(1);
    push_low_three_le(&mut out, seq_number);
    assert(out@ =~= ack(seq_number));
    out
}

} // verus!
