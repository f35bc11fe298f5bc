//! What holds of the packets of Minecraft: Java Edition, and of the exchange
//! with a client as a whole.

use vstd::prelude::*;
use vstd::utf8::encode_utf8;

use crate::bytes::u16_be;
use crate::json::{array_text, escaped, joined, object_text, quoted};
use crate::plugin::{
    handshake_fields, handshake_kind, leading_varint, probe_done, probe_step, PacketError,
    PacketKind, ProbeStep, MAX_FIRST_PACKET_LEN, PROBE_BUFFER_LEN, PROBE_WAIT_MS,
};
use crate::plugins::minecraft_offline::{
    framed, login_disconnect, on_packet, on_read_failure, packet_parts, status_text, text_payload,
    two_lines, SlpActionView, SlpState, HANDSHAKE_TIMEOUT, MAX_PACKET_LEN,
};
use crate::text::{decimal, signed_decimal};
use crate::varint::{
    as_unsigned, decoded_none_iff, encoded, encoded_decodes_back, encoded_len_bounds,
    proper_prefix_is_unfinished, signed_unsigned_roundtrip,
};

verus! {

/// A variable-length integer that is written is read back, whatever follows.
pub proof fn written_varint_reads_back(value: i32, rest: Seq<u8>)
    ensures
        leading_varint(encoded(as_unsigned(value)) + rest) == Ok::<(int, nat), PacketError>(
            (value as int, encoded(as_unsigned(value)).len()),
        ),
        encoded(as_unsigned(value)).len() >= 1,
{
    encoded_decodes_back(as_unsigned(value) as u32, rest);
    encoded_len_bounds(as_unsigned(value) as u32);
    signed_unsigned_roundtrip(value, as_unsigned(value) as u32);
}

/// A packet that is framed is read back: its length, its id and its payload.
pub proof fn framed_packet_reads_back(packet_id: i32, payload: Seq<u8>)
    requires
        encoded(as_unsigned(packet_id)).len() + payload.len() <= i32::MAX,
    ensures
        ({
            let body = encoded(as_unsigned(packet_id)) + payload;
            let prefix = encoded(body.len());
            &&& framed(packet_id, payload) == prefix + body
            &&& leading_varint(framed(packet_id, payload)) == Ok::<(int, nat), PacketError>(
                (body.len() as int, prefix.len()),
            )
            &&& framed(packet_id, payload).skip(prefix.len() as int) == body
            &&& packet_parts(body) == Ok::<(int, Seq<u8>), PacketError>(
                (packet_id as int, payload),
            )
        }),
{
    let body = encoded(as_unsigned(packet_id)) + payload;
    let prefix = encoded(body.len());
    written_varint_reads_back(packet_id, payload);
    written_varint_reads_back(body.len() as i32, body);
    assert((prefix + body).skip(prefix.len() as int) =~= body);
    assert(body.skip(encoded(as_unsigned(packet_id)).len() as int) =~= payload);
}

/// The body of a handshake.
pub open spec fn handshake_body(
    protocol_version: i32,
    address: Seq<u8>,
    port: u16,
    next_state: i32,
) -> Seq<u8> {
    encoded(as_unsigned(protocol_version)) + encoded(address.len()) + address + u16_be(port)
        + encoded(as_unsigned(next_state))
}

/// A handshake that is written is read back.
pub proof fn handshake_reads_back(
    protocol_version: i32,
    address: Seq<u8>,
    port: u16,
    next_state: i32,
)
    requires
        address.len() <= i32::MAX,
    ensures
        handshake_fields(handshake_body(protocol_version, address, port, next_state)) == Ok::<
            (int, int),
            PacketError,
        >((protocol_version as int, next_state as int)),
{
    let body = handshake_body(protocol_version, address, port, next_state);
    let version = encoded(as_unsigned(protocol_version));
    let len = encoded(address.len());
    let last = encoded(as_unsigned(next_state));
    let tail = address + u16_be(port) + last;
    written_varint_reads_back(protocol_version, len + tail);
    written_varint_reads_back(address.len() as i32, tail);
    written_varint_reads_back(next_state, Seq::empty());
    assert(body =~= version + (len + tail));
    assert(body.skip(version.len() as int) =~= len + tail);
    let at = (version.len() + len.len() + address.len() + 2) as int;
    assert(body.skip(at) =~= last + Seq::<u8>::empty());
}

/// A framed handshake tells a client that asks for the status from one that
/// joins.
pub proof fn framed_handshake_is_recognized(
    protocol_version: i32,
    address: Seq<u8>,
    port: u16,
    next_state: i32,
)
    requires
        address.len() + 18 <= i32::MAX,
    ensures
        handshake_kind(framed(0, handshake_body(protocol_version, address, port, next_state)))
            == if next_state == 1 {
            Some(PacketKind::StatusPing)
        } else if next_state == 2 {
            Some(PacketKind::LoginAttempt)
        } else {
            None::<PacketKind>
        },
{
    let payload = handshake_body(protocol_version, address, port, next_state);
    encoded_len_bounds(as_unsigned(protocol_version) as u32);
    encoded_len_bounds(address.len() as u32);
    encoded_len_bounds(as_unsigned(next_state) as u32);
    assert(encoded(as_unsigned(0)).len() == 1);
    framed_packet_reads_back(0, payload);
    handshake_reads_back(protocol_version, address, port, next_state);
    let packet = framed(0, payload);
    let body = encoded(as_unsigned(0)) + payload;
    let prefix = encoded(body.len());
    assert(packet.skip((prefix.len() + 1) as int) =~= payload);
}

/// The whole of a packet is decided on, whatever follows it.
proof fn lemma_whole_packet(packet_id: i32, payload: Seq<u8>, seen: Seq<u8>, rest: Seq<u8>)
    requires
        encoded(as_unsigned(packet_id)).len() + payload.len() <= MAX_FIRST_PACKET_LEN,
    ensures
        probe_step(seen, framed(packet_id, payload) + rest) == probe_done(
            handshake_kind(framed(packet_id, payload)),
        ),
{
    let packet = framed(packet_id, payload);
    let body = encoded(as_unsigned(packet_id)) + payload;
    let prefix = encoded(body.len());
    encoded_len_bounds(as_unsigned(packet_id) as u32);
    framed_packet_reads_back(packet_id, payload);
    written_varint_reads_back(body.len() as i32, body + rest);
    let visible = packet + rest;
    assert(visible =~= prefix + (body + rest));
    assert(visible.take((prefix.len() + body.len()) as int) =~= packet);
}

/// A part of a packet is not decided on.
proof fn lemma_part_of_packet(packet_id: i32, payload: Seq<u8>, seen: Seq<u8>, k: int)
    requires
        encoded(as_unsigned(packet_id)).len() + payload.len() <= MAX_FIRST_PACKET_LEN,
        0 < k < framed(packet_id, payload).len(),
        k < PROBE_BUFFER_LEN,
    ensures
        probe_step(seen, framed(packet_id, payload).take(k)) == ProbeStep::Peek,
{
    let packet = framed(packet_id, payload);
    let body = encoded(as_unsigned(packet_id)) + payload;
    let prefix = encoded(body.len());
    encoded_len_bounds(as_unsigned(packet_id) as u32);
    encoded_len_bounds(body.len() as u32);
    framed_packet_reads_back(packet_id, payload);
    let part = packet.take(k);
    if k < prefix.len() {
        assert(part =~= prefix.take(k));
        proper_prefix_is_unfinished(body.len() as u32, k);
    } else {
        let tail = body.take(k - prefix.len());
        assert(part =~= prefix + tail);
        written_varint_reads_back(body.len() as i32, tail);
    }
}

/// However the bytes of a client's handshake trickle in, it is recognized as
/// soon as all of them can be seen, whatever follows, and not decided on
/// before.
pub proof fn handshake_is_recognized_in_pieces(
    protocol_version: i32,
    address: Seq<u8>,
    port: u16,
    next_state: i32,
    seen: Seq<u8>,
    rest: Seq<u8>,
    k: int,
)
    requires
        framed(0, handshake_body(protocol_version, address, port, next_state)).len()
            <= PROBE_BUFFER_LEN,
        0 < k < framed(0, handshake_body(protocol_version, address, port, next_state)).len(),
    ensures
        probe_step(
            seen,
            framed(0, handshake_body(protocol_version, address, port, next_state)).take(k),
        ) == ProbeStep::Peek,
        probe_step(
            seen,
            framed(0, handshake_body(protocol_version, address, port, next_state)) + rest,
        ) == probe_done(
            if next_state == 1 {
                Some(PacketKind::StatusPing)
            } else if next_state == 2 {
                Some(PacketKind::LoginAttempt)
            } else {
                None
            },
        ),
{
    let payload = handshake_body(protocol_version, address, port, next_state);
    lemma_whole_packet(0, payload, seen, rest);
    lemma_part_of_packet(0, payload, seen, k);
    framed_handshake_is_recognized(protocol_version, address, port, next_state);
}

/// A client that asks for the status gets it, and its ping is sent back as it
/// came.
pub proof fn status_exchange(
    handshake: Seq<u8>,
    protocol_version: int,
    request: Seq<u8>,
    ping: Seq<u8>,
    status: Seq<char>,
    kick_text: Seq<char>,
)
    requires
        handshake_fields(handshake) == Ok::<(int, int), PacketError>((protocol_version, 1)),
    ensures
        on_packet(SlpState::AwaitingHandshake, 0, handshake, status, kick_text) == (
            SlpState::AwaitingStatusRequest,
            SlpActionView::Read,
        ),
        on_packet(SlpState::AwaitingStatusRequest, 0, request, status, kick_text) == (
            SlpState::AwaitingPing,
            SlpActionView::SendAndRead(framed(0, text_payload(status))),
        ),
        on_packet(SlpState::AwaitingPing, 1, ping, status, kick_text) == (
            SlpState::Closed,
            SlpActionView::EchoAndClose(framed(1, ping)),
        ),
        on_read_failure(SlpState::AwaitingPing) == SlpActionView::Close,
{
}

/// A client that joins is turned away with the message, whatever its version
/// of the protocol.
pub proof fn login_exchange(
    handshake: Seq<u8>,
    protocol_version: int,
    start: Seq<u8>,
    status: Seq<char>,
    kick_text: Seq<char>,
)
    requires
        handshake_fields(handshake) == Ok::<(int, int), PacketError>((protocol_version, 2)),
    ensures
        on_packet(SlpState::AwaitingHandshake, 0, handshake, status, kick_text) == (
            SlpState::AwaitingLoginStart,
            SlpActionView::Read,
        ),
        on_packet(SlpState::AwaitingLoginStart, 0, start, status, kick_text) == (
            SlpState::Closed,
            SlpActionView::SendAndClose(framed(0, login_disconnect(kick_text))),
        ),
{
}

// ---------------------------------------------------------------------
// What a client reads
// ---------------------------------------------------------------------

/// Whether a payload is one string of these bytes: the number of bytes before
/// them, and nothing behind them.
pub open spec fn is_string(payload: Seq<u8>, bytes: Seq<u8>) -> bool {
    leading_varint(payload) matches Ok((len, n)) && len == bytes.len() && payload.skip(n as int)
        == bytes
}

/// Whether bytes on the wire are one packet: the length of its body before the
/// body, and in the body the id before the payload.
pub open spec fn is_packet(wire: Seq<u8>, packet_id: int, payload: Seq<u8>) -> bool {
    leading_varint(wire) matches Ok((len, n)) && len == wire.len() - n && packet_parts(
        wire.skip(n as int),
    ) == Ok::<(int, Seq<u8>), PacketError>((packet_id, payload))
}

/// Whether bytes on the wire are one packet with the id zero whose payload is
/// one string of these bytes.
pub open spec fn carries_string(wire: Seq<u8>, bytes: Seq<u8>) -> bool {
    exists|payload: Seq<u8>| #[trigger] is_packet(wire, 0, payload) && is_string(payload, bytes)
}

/// A string that is written is read back, whatever its characters: the number
/// before it counts bytes.
pub proof fn written_text_reads_back(text: Seq<char>)
    requires
        encode_utf8(text).len() <= i32::MAX,
    ensures
        leading_varint(text_payload(text)) matches Ok((len, n)) && len == encode_utf8(text).len()
            && text_payload(text).skip(n as int) == encode_utf8(text),
        is_string(text_payload(text), encode_utf8(text)),
{
    let bytes = encode_utf8(text);
    let prefix = encoded(bytes.len());
    written_varint_reads_back(bytes.len() as i32, bytes);
    assert((prefix + bytes).skip(prefix.len() as int) =~= bytes);
}

/// A packet that is framed is one packet to whoever reads it.
pub proof fn framed_packets_are_packets(packet_id: i32, payload: Seq<u8>)
    requires
        payload.len() <= i32::MAX - 5,
    ensures
        is_packet(framed(packet_id, payload), packet_id as int, payload),
{
    encoded_len_bounds(as_unsigned(packet_id) as u32);
    framed_packet_reads_back(packet_id, payload);
}

proof fn lemma_text_packet(text: Seq<char>)
    requires
        encode_utf8(text).len() <= i32::MAX - 10,
    ensures
        carries_string(framed(0, text_payload(text)), encode_utf8(text)),
{
    encoded_len_bounds(encode_utf8(text).len() as u32);
    written_text_reads_back(text);
    framed_packets_are_packets(0, text_payload(text));
}

/// Whoever asks for the status gets one packet with the id zero that holds the
/// whole status as a string, and may send a ping then.
pub proof fn status_request_gets_the_status(
    request: Seq<u8>,
    status: Seq<char>,
    kick_text: Seq<char>,
)
    requires
        encode_utf8(status).len() <= i32::MAX - 10,
    ensures
        on_packet(SlpState::AwaitingStatusRequest, 0, request, status, kick_text) matches (
            SlpState::AwaitingPing,
            SlpActionView::SendAndRead(wire),
        ) && carries_string(wire, encode_utf8(status)),
{
    lemma_text_packet(status);
}

/// A ping comes back as it came: one packet with the id one and the same
/// payload.
pub proof fn ping_comes_back(ping: Seq<u8>, status: Seq<char>, kick_text: Seq<char>)
    requires
        ping.len() <= i32::MAX - 5,
    ensures
        on_packet(SlpState::AwaitingPing, 1, ping, status, kick_text) matches (
            SlpState::Closed,
            SlpActionView::EchoAndClose(wire),
        ) && is_packet(wire, 1, ping),
{
    framed_packets_are_packets(1, ping);
}

/// Whoever joins gets one packet with the id zero that holds the message as
/// the text of a JSON component, and is disconnected.
pub proof fn join_gets_the_message(start: Seq<u8>, status: Seq<char>, kick_text: Seq<char>)
    requires
        encode_utf8(object_text(seq![("text"@, quoted(kick_text))])).len() <= i32::MAX - 10,
    ensures
        on_packet(SlpState::AwaitingLoginStart, 0, start, status, kick_text) matches (
            SlpState::Closed,
            SlpActionView::SendAndClose(wire),
        ) && carries_string(
            wire,
            encode_utf8("{\"text\":\""@ + escaped(kick_text) + "\"}"@),
        ),
{
    lemma_text_object(kick_text);
    let json = object_text(seq![("text"@, quoted(kick_text))]);
    lemma_text_packet(json);
}

/// What a handshake leads to: one and two ask for the status and to join, and
/// any other number fails with that number.
pub proof fn handshake_decides(
    protocol_version: i32,
    address: Seq<u8>,
    port: u16,
    next_state: i32,
    status: Seq<char>,
    kick_text: Seq<char>,
)
    requires
        address.len() <= i32::MAX,
    ensures
        on_packet(
            SlpState::AwaitingHandshake,
            0,
            handshake_body(protocol_version, address, port, next_state),
            status,
            kick_text,
        ) == if next_state == 1 {
            (SlpState::AwaitingStatusRequest, SlpActionView::Read)
        } else if next_state == 2 {
            (SlpState::AwaitingLoginStart, SlpActionView::Read)
        } else {
            (
                SlpState::Closed,
                SlpActionView::Fail(PacketError::UnsupportedNextState(next_state)),
            )
        },
{
    handshake_reads_back(protocol_version, address, port, next_state);
}

/// A packet out of turn ends the exchange, with the packet that was expected
/// in its place; only in place of the ping anything may come. Once the
/// exchange is over, nothing more is sent.
pub proof fn packets_out_of_turn_end_the_exchange(
    packet_id: int,
    payload: Seq<u8>,
    status: Seq<char>,
    kick_text: Seq<char>,
)
    ensures
        packet_id != 0 ==> on_packet(
            SlpState::AwaitingHandshake,
            packet_id,
            payload,
            status,
            kick_text,
        ) == (SlpState::Closed, SlpActionView::Fail(PacketError::ExpectedHandshake)),
        packet_id != 0 ==> on_packet(
            SlpState::AwaitingStatusRequest,
            packet_id,
            payload,
            status,
            kick_text,
        ) == (SlpState::Closed, SlpActionView::Fail(PacketError::ExpectedStatusRequest)),
        packet_id != 0 ==> on_packet(
            SlpState::AwaitingLoginStart,
            packet_id,
            payload,
            status,
            kick_text,
        ) == (SlpState::Closed, SlpActionView::Fail(PacketError::ExpectedLoginStart)),
        packet_id != 1 ==> on_packet(
            SlpState::AwaitingPing,
            packet_id,
            payload,
            status,
            kick_text,
        ) == (SlpState::Closed, SlpActionView::Close),
        on_packet(SlpState::Closed, packet_id, payload, status, kick_text) == (
            SlpState::Closed,
            SlpActionView::Close,
        ),
{
}

/// A connection that ends early has failed, unless only the ping was still
/// awaited.
pub proof fn only_the_ping_may_be_missing(state: SlpState)
    ensures
        on_read_failure(state) == SlpActionView::GiveUp <==> state == SlpState::AwaitingHandshake
            || state == SlpState::AwaitingStatusRequest || state == SlpState::AwaitingLoginStart,
        on_read_failure(state) == SlpActionView::Close <==> state == SlpState::AwaitingPing || state
            == SlpState::Closed,
{
}

// ---------------------------------------------------------------------
// The status
// ---------------------------------------------------------------------

proof fn lemma_escaped_concat(a: Seq<char>, b: Seq<char>)
    ensures
        escaped(a + b) == escaped(a) + escaped(b),
    decreases b.len(),
{
    if b.len() == 0 {
        assert(a + b =~= a);
        assert(escaped(a) + escaped(b) =~= escaped(a));
    } else {
        assert((a + b).drop_last() =~= a + b.drop_last());
        lemma_escaped_concat(a, b.drop_last());
        assert(escaped(a + b) =~= escaped(a) + escaped(b));
    }
}

/// A letter, a digit or another character that stands for itself in a JSON
/// string.
pub open spec fn is_plain(c: char) -> bool {
    c as int >= 0x20 && c != '"' && c != '\\'
}

proof fn lemma_plain_is_kept(s: Seq<char>)
    requires
        forall|i: int| 0 <= i < s.len() ==> is_plain(#[trigger] s[i]),
    ensures
        escaped(s) == s,
    decreases s.len(),
{
    if s.len() > 0 {
        let init = s.drop_last();
        assert forall|i: int| 0 <= i < init.len() implies is_plain(#[trigger] init[i]) by {
            assert(init[i] == s[i]);
        }
        lemma_plain_is_kept(init);
        assert(is_plain(s[s.len() - 1]));
        assert(init.push(s.last()) =~= s);
        assert(escaped(s) =~= s);
    } else {
        assert(escaped(s) =~= s);
    }
}

proof fn lemma_quoted_plain(s: Seq<char>)
    requires
        forall|i: int| 0 <= i < s.len() ==> is_plain(#[trigger] s[i]),
    ensures
        quoted(s) == seq!['"'] + s + seq!['"'],
{
    lemma_plain_is_kept(s);
}

proof fn lemma_text_object(text: Seq<char>)
    ensures
        object_text(seq![("text"@, quoted(text))]) == "{\"text\":\""@ + escaped(text) + "\"}"@,
{
    reveal_strlit("text");
    reveal_strlit("{\"text\":\"");
    reveal_strlit("\"}");
    lemma_quoted_plain("text"@);
    let member = quoted("text"@) + seq![':'] + quoted(text);
    let members = seq![("text"@, quoted(text))];
    let texts = Seq::new(
        members.len(),
        |i: int| quoted(members[i].0) + seq![':'] + members[i].1,
    );
    assert(texts =~= seq![member]);
    assert(joined(texts) == member);
    assert(object_text(members) =~= "{\"text\":\""@ + escaped(text) + "\"}"@);
}

proof fn lemma_three_members(
    a: (Seq<char>, Seq<char>),
    b: (Seq<char>, Seq<char>),
    c: (Seq<char>, Seq<char>),
)
    ensures
        object_text(seq![a, b, c]) == seq!['{'] + (quoted(a.0) + seq![':'] + a.1) + seq![','] + (
        quoted(b.0) + seq![':'] + b.1) + seq![','] + (quoted(c.0) + seq![':'] + c.1) + seq!['}'],
{
    let members = seq![a, b, c];
    let texts = Seq::new(
        members.len(),
        |i: int| quoted(members[i].0) + seq![':'] + members[i].1,
    );
    let x = quoted(a.0) + seq![':'] + a.1;
    let y = quoted(b.0) + seq![':'] + b.1;
    let z = quoted(c.0) + seq![':'] + c.1;
    assert(texts =~= seq![x, y, z]);
    assert(texts.drop_last() =~= seq![x, y]);
    assert(texts.drop_last().drop_last() =~= seq![x]);
    reveal_with_fuel(joined, 3);
    assert(joined(texts) =~= x + seq![','] + y + seq![','] + z);
    assert(object_text(members) =~= seq!['{'] + x + seq![','] + y + seq![','] + z + seq!['}']);
}

proof fn lemma_four_members(
    a: (Seq<char>, Seq<char>),
    b: (Seq<char>, Seq<char>),
    c: (Seq<char>, Seq<char>),
    d: (Seq<char>, Seq<char>),
)
    ensures
        object_text(seq![a, b, c, d]) == seq!['{'] + (quoted(a.0) + seq![':'] + a.1) + seq![',']
            + (quoted(b.0) + seq![':'] + b.1) + seq![','] + (quoted(c.0) + seq![':'] + c.1) + seq![
            ',',
        ] + (quoted(d.0) + seq![':'] + d.1) + seq!['}'],
{
    let members = seq![a, b, c, d];
    let texts = Seq::new(
        members.len(),
        |i: int| quoted(members[i].0) + seq![':'] + members[i].1,
    );
    let x = quoted(a.0) + seq![':'] + a.1;
    let y = quoted(b.0) + seq![':'] + b.1;
    let z = quoted(c.0) + seq![':'] + c.1;
    let w = quoted(d.0) + seq![':'] + d.1;
    assert(texts =~= seq![x, y, z, w]);
    assert(texts.drop_last() =~= seq![x, y, z]);
    assert(texts.drop_last().drop_last() =~= seq![x, y]);
    assert(texts.drop_last().drop_last().drop_last() =~= seq![x]);
    reveal_with_fuel(joined, 4);
    assert(joined(texts) =~= x + seq![','] + y + seq![','] + z + seq![','] + w);
    assert(object_text(members) =~= seq!['{'] + x + seq![','] + y + seq![','] + z + seq![','] + w
        + seq!['}']);
}

proof fn lemma_two_members(a: (Seq<char>, Seq<char>), b: (Seq<char>, Seq<char>))
    ensures
        object_text(seq![a, b]) == seq!['{'] + (quoted(a.0) + seq![':'] + a.1) + seq![','] + (
        quoted(b.0) + seq![':'] + b.1) + seq!['}'],
{
    let members = seq![a, b];
    let texts = Seq::new(
        members.len(),
        |i: int| quoted(members[i].0) + seq![':'] + members[i].1,
    );
    let x = quoted(a.0) + seq![':'] + a.1;
    let y = quoted(b.0) + seq![':'] + b.1;
    assert(texts =~= seq![x, y]);
    assert(texts.drop_last() =~= seq![x]);
    reveal_with_fuel(joined, 2);
    assert(joined(texts) =~= x + seq![','] + y);
    assert(object_text(members) =~= seq!['{'] + x + seq![','] + y + seq!['}']);
}

/// The description in a status: both lines, with a line feed between them.
pub open spec fn description_member(line1: Seq<char>, line2: Seq<char>) -> Seq<char> {
    "\"description\":{\"text\":\""@ + escaped(line1) + "\\n"@ + escaped(line2) + "\"}"@
}

/// The version in a status: a name to show, and a number that no client has.
pub open spec fn version_member(status_line: Seq<char>) -> Seq<char> {
    "\"version\":{\"name\":\""@ + escaped(status_line) + "\",\"protocol\":-1}"@
}

#[verifier::rlimit(40)]
proof fn lemma_description(line1: Seq<char>, line2: Seq<char>)
    ensures
        quoted("description"@) + seq![':'] + object_text(
            seq![("text"@, quoted(two_lines(line1, line2)))],
        ) == description_member(line1, line2),
{
    let text = two_lines(line1, line2);
    lemma_text_object(text);
    reveal_strlit("description");
    lemma_quoted_plain("description"@);
    lemma_escaped_concat(line1 + seq!['\n'], line2);
    lemma_escaped_concat(line1, seq!['\n']);
    assert(seq!['\n'].drop_last() =~= Seq::empty());
    assert(escaped(Seq::empty()) =~= Seq::empty());
    assert(escaped(seq!['\n']) =~= seq!['\\', 'n']);
    assert(escaped(text) =~= escaped(line1) + seq!['\\', 'n'] + escaped(line2));
    reveal_strlit("\\n");
    reveal_strlit("{\"text\":\"");
    reveal_strlit("\"description\":{\"text\":\"");
    assert("\\n"@ =~= seq!['\\', 'n']);
    assert("\"description\":{\"text\":\""@ =~= seq!['"'] + "description"@ + seq!['"'] + seq![':']
        + "{\"text\":\""@);
    assert(quoted("description"@) + seq![':'] + object_text(seq![("text"@, quoted(text))])
        =~= description_member(line1, line2));
}

proof fn lemma_minus_one()
    ensures
        signed_decimal(-1) == seq!['-', '1'],
        decimal(0) == seq!['0'],
{
    assert(decimal(1) =~= seq!['1']);
    assert(decimal(0) =~= seq!['0']);
    assert(signed_decimal(-1) =~= seq!['-', '1']);
}

#[verifier::rlimit(40)]
proof fn lemma_version(status_line: Seq<char>)
    ensures
        quoted("version"@) + seq![':'] + object_text(
            seq![("name"@, quoted(status_line)), ("protocol"@, signed_decimal(-1))],
        ) == version_member(status_line),
{
    reveal_strlit("version");
    reveal_strlit("name");
    reveal_strlit("protocol");
    reveal_strlit("\"version\":{\"name\":\"");
    reveal_strlit("\",\"protocol\":-1}");
    lemma_quoted_plain("version"@);
    lemma_quoted_plain("name"@);
    lemma_quoted_plain("protocol"@);
    lemma_minus_one();
    lemma_two_members(("name"@, quoted(status_line)), ("protocol"@, signed_decimal(-1)));
    assert("\"version\":{\"name\":\""@ =~= seq!['"'] + "version"@ + seq!['"', ':', '{', '"']
        + "name"@ + seq!['"', ':', '"']);
    assert("\",\"protocol\":-1}"@ =~= seq!['"', ',', '"'] + "protocol"@ + seq![
        '"',
        ':',
        '-',
        '1',
        '}',
    ]);
    assert(quoted("version"@) + seq![':'] + object_text(
        seq![("name"@, quoted(status_line)), ("protocol"@, signed_decimal(-1))],
    ) =~= version_member(status_line));
}

#[verifier::rlimit(40)]
proof fn lemma_players()
    ensures
        quoted("players"@) + seq![':'] + object_text(
            seq![
                ("max"@, decimal(0)),
                ("online"@, decimal(0)),
                ("sample"@, array_text(Seq::empty())),
            ],
        ) == "\"players\":{\"max\":0,\"online\":0,\"sample\":[]}"@,
{
    reveal_strlit("players");
    reveal_strlit("max");
    reveal_strlit("online");
    reveal_strlit("sample");
    reveal_strlit("\"players\":{\"max\":0,\"online\":0,\"sample\":[]}");
    lemma_quoted_plain("players"@);
    lemma_quoted_plain("max"@);
    lemma_quoted_plain("online"@);
    lemma_quoted_plain("sample"@);
    lemma_minus_one();
    assert(array_text(Seq::empty()) =~= seq!['[', ']']);
    lemma_three_members(
        ("max"@, decimal(0)),
        ("online"@, decimal(0)),
        ("sample"@, array_text(Seq::empty())),
    );
    assert(quoted("players"@) + seq![':'] + object_text(
        seq![
            ("max"@, decimal(0)),
            ("online"@, decimal(0)),
            ("sample"@, array_text(Seq::empty())),
        ],
    ) =~= "\"players\":{\"max\":0,\"online\":0,\"sample\":[]}"@);
}

/// The status holds the two lines in order, the icon where there is one, no
/// players, and the status line in place of a version's name.
#[verifier::rlimit(40)]
pub proof fn status_holds_what_is_shown(
    status_line: Seq<char>,
    line1: Seq<char>,
    line2: Seq<char>,
    icon: Seq<char>,
)
    ensures
        status_text(status_line, line1, line2, None) == "{"@ + description_member(line1, line2)
            + ","@ + "\"players\":{\"max\":0,\"online\":0,\"sample\":[]}"@ + ","@
            + version_member(status_line) + "}"@,
        status_text(status_line, line1, line2, Some(icon)) == "{"@ + description_member(
            line1,
            line2,
        ) + ","@ + "\"favicon\":\"data:image/png;base64,"@ + escaped(icon) + "\""@ + ","@
            + "\"players\":{\"max\":0,\"online\":0,\"sample\":[]}"@ + ","@ + version_member(
            status_line,
        ) + "}"@,
{
    let description = (
        "description"@,
        object_text(seq![("text"@, quoted(two_lines(line1, line2)))]),
    );
    let players = (
        "players"@,
        object_text(
            seq![
                ("max"@, decimal(0)),
                ("online"@, decimal(0)),
                ("sample"@, array_text(Seq::empty())),
            ],
        ),
    );
    let version = (
        "version"@,
        object_text(seq![("name"@, quoted(status_line)), ("protocol"@, signed_decimal(-1))]),
    );
    let data = "data:image/png;base64,"@ + icon;
    let favicon = ("favicon"@, quoted(data));
    lemma_description(line1, line2);
    lemma_players();
    lemma_version(status_line);
    lemma_three_members(description, players, version);
    lemma_four_members(description, favicon, players, version);
    lemma_favicon(icon);
    reveal_strlit("{");
    reveal_strlit("}");
    reveal_strlit(",");
    assert("{"@ =~= seq!['{']);
    assert("}"@ =~= seq!['}']);
    assert(","@ =~= seq![',']);
    let d = description_member(line1, line2);
    let p = "\"players\":{\"max\":0,\"online\":0,\"sample\":[]}"@;
    let v = version_member(status_line);
    let f = quoted("favicon"@) + seq![':'] + quoted(data);
    assert(status_text(status_line, line1, line2, None) =~= "{"@ + d + ","@ + p + ","@ + v + "}"@);
    assert(status_text(status_line, line1, line2, Some(icon)) =~= "{"@ + d + ","@ + f + ","@ + p
        + ","@ + v + "}"@);
    assert("{"@ + d + ","@ + f + ","@ + p + ","@ + v + "}"@ =~= "{"@ + d + ","@
        + "\"favicon\":\"data:image/png;base64,"@ + escaped(icon) + "\""@ + ","@ + p + ","@ + v
        + "}"@);
}

#[verifier::rlimit(40)]
proof fn lemma_favicon(icon: Seq<char>)
    ensures
        quoted("favicon"@) + seq![':'] + quoted("data:image/png;base64,"@ + icon)
            == "\"favicon\":\"data:image/png;base64,"@ + escaped(icon) + "\""@,
{
    let head = "data:image/png;base64,"@;
    reveal_strlit("favicon");
    reveal_strlit("data:image/png;base64,");
    reveal_strlit("\"favicon\":\"data:image/png;base64,");
    reveal_strlit("\"");
    lemma_quoted_plain("favicon"@);
    lemma_plain_is_kept(head);
    lemma_escaped_concat(head, icon);
    assert("\"favicon\":\"data:image/png;base64,"@ =~= seq!['"'] + "favicon"@ + seq![
        '"',
        ':',
        '"',
    ] + head);
    assert("\""@ =~= seq!['"']);
    assert(quoted("favicon"@) + seq![':'] + quoted(head + icon)
        =~= "\"favicon\":\"data:image/png;base64,"@ + escaped(icon) + "\""@);
}

// ---------------------------------------------------------------------
// The first packet
// ---------------------------------------------------------------------

/// A probe comes to a kind exactly where the client speaks the protocol, and a
/// probe that sees nothing more goes by what it has seen.
pub proof fn probes_say_whether_it_is_minecraft(seen: Seq<u8>, visible: Seq<u8>)
    ensures
        probe_step(seen, visible) matches ProbeStep::Done(kind, is_minecraft) ==> (is_minecraft
            <==> kind is Some),
        visible.len() == 0 ==> probe_step(seen, visible) == ProbeStep::Done(
            handshake_kind(seen),
            handshake_kind(seen) is Some,
        ),
{
}

/// What starts with a length that no first packet has is not looked at any
/// longer: it is no handshake.
pub proof fn other_protocols_are_recognized(len: i32, rest: Seq<u8>, seen: Seq<u8>)
    requires
        len < 1 || len > 4096,
    ensures
        probe_step(seen, encoded(as_unsigned(len)) + rest) == ProbeStep::Done(None, false),
{
    written_varint_reads_back(len, rest);
}

/// A packet that is no handshake, by its id, is recognized as none.
pub proof fn other_packets_are_no_handshakes(packet_id: i32, payload: Seq<u8>)
    requires
        packet_id != 0,
        payload.len() <= i32::MAX - 5,
    ensures
        handshake_kind(framed(packet_id, payload)) is None,
{
    let body = encoded(as_unsigned(packet_id)) + payload;
    encoded_len_bounds(as_unsigned(packet_id) as u32);
    framed_packet_reads_back(packet_id, payload);
    written_varint_reads_back(packet_id, payload);
    assert(framed(packet_id, payload).skip(encoded(body.len()).len() as int) == body);
}

/// A look that fills the buffer settles it, one way or the other.
pub proof fn probes_end_with_the_buffer(seen: Seq<u8>, visible: Seq<u8>)
    requires
        visible.len() >= 512,
    ensures
        probe_step(seen, visible) is Done,
{
}

/// Five bytes that all ask for another one are too long for a number, and
/// fewer are not all of it.
pub proof fn unfinished_numbers_are_refused(s: Seq<u8>)
    requires
        forall|i: int| 0 <= i < s.len() && i < 5 ==> #[trigger] s[i] >= 128,
    ensures
        leading_varint(s) == Err::<(int, nat), PacketError>(
            if s.len() >= 5 {
                PacketError::VarIntTooLong
            } else {
                PacketError::UnexpectedEof
            },
        ),
{
    decoded_none_iff(s);
}

proof fn lemma_cut_varint(value: i32, k: int)
    requires
        0 <= k < encoded(as_unsigned(value)).len(),
    ensures
        leading_varint(encoded(as_unsigned(value)).take(k)) == Err::<(int, nat), PacketError>(
            PacketError::UnexpectedEof,
        ),
{
    encoded_len_bounds(as_unsigned(value) as u32);
    proper_prefix_is_unfinished(as_unsigned(value) as u32, k);
}

/// A handshake that is cut short anywhere is recognized as not complete.
#[verifier::rlimit(40)]
pub proof fn cut_handshakes_are_not_complete(
    protocol_version: i32,
    address: Seq<u8>,
    port: u16,
    next_state: i32,
    k: int,
)
    requires
        address.len() <= i32::MAX,
        0 <= k < handshake_body(protocol_version, address, port, next_state).len(),
    ensures
        handshake_fields(handshake_body(protocol_version, address, port, next_state).take(k))
            == Err::<(int, int), PacketError>(PacketError::UnexpectedEof),
{
    let whole = handshake_body(protocol_version, address, port, next_state);
    let part = whole.take(k);
    let version = encoded(as_unsigned(protocol_version));
    let len = encoded(address.len());
    let last = encoded(as_unsigned(next_state));
    let v = version.len() as int;
    let m = len.len() as int;
    let tail = address + u16_be(port) + last;
    assert(whole =~= version + (len + tail));
    if k < v {
        assert(part =~= version.take(k));
        lemma_cut_varint(protocol_version, k);
    } else {
        let rest = (len + tail).take(k - v);
        assert(part =~= version + rest);
        written_varint_reads_back(protocol_version, rest);
        assert(part.skip(v) =~= rest);
        if k < v + m {
            assert(rest =~= len.take(k - v));
            lemma_cut_varint(address.len() as i32, k - v);
        } else {
            let after = tail.take(k - v - m);
            assert(rest =~= len + after);
            written_varint_reads_back(address.len() as i32, after);
            let at = v + m + address.len() + 2;
            if k >= at {
                assert(part.skip(at) =~= last.take(k - at));
                lemma_cut_varint(next_state, k - at);
            }
        }
    }
}

/// A handshake whose address has a negative length is refused for it.
pub proof fn negative_lengths_are_refused(protocol_version: i32, len: i32, rest: Seq<u8>)
    requires
        len < 0,
    ensures
        handshake_fields(
            encoded(as_unsigned(protocol_version)) + encoded(as_unsigned(len)) + rest,
        ) == Err::<(int, int), PacketError>(PacketError::InvalidAddressLength),
{
    let version = encoded(as_unsigned(protocol_version));
    let length = encoded(as_unsigned(len));
    let body = version + length + rest;
    written_varint_reads_back(protocol_version, length + rest);
    written_varint_reads_back(len, rest);
    assert(body =~= version + (length + rest));
    assert(body.skip(version.len() as int) =~= length + rest);
}

/// A client has five seconds for the exchange, a packet has at most a
/// megabyte, and each look at a first packet waits for a fifth of a second.
pub proof fn exchange_limits()
    ensures
        HANDSHAKE_TIMEOUT == 5,
        MAX_PACKET_LEN == 1024 * 1024,
        PROBE_WAIT_MS == 200,
{
}

} // verus!
