//! What the datagrams of Minecraft: Bedrock Edition hold, byte by byte.

use vstd::prelude::*;
use vstd::utf8::encode_utf8;

use crate::bytes::{i64_be, i64_be_reads_back, low_three_le, signed_be64_at, u16_be};
use crate::net::AddrView;
use crate::plugins::bedrock_offline::{
    connection_request_accepted, disconnect, hex_pairs, hex_text, motd, network_settings,
    open_connection_reply_1, open_connection_reply_2, ping_probe, pong_matches, sanitized,
    string_field, unconnected_ping, unconnected_pong, BedrockOfflineConfig, SessionView,
    MC_ID_NETWORK_SETTINGS,
};
use crate::plugins::raknet::{
    batch_of, batch_packets, fragment_header, frame_header_len, frames_from, is_fragment,
    payload_len_at, wire_address, wrapped_packet_splits_back, zigzag, FragmentHeader, RAKNET_MAGIC,
};
use crate::text::{decimal, hex_digit, signed_decimal};
use crate::varint::{decoded, encoded, encoded_decodes_back, encoded_len_bounds};

verus! {

/// The sixteen bytes that mark a packet outside a connection.
pub open spec fn magic() -> Seq<u8> {
    seq![
        0x00u8,
        0xff,
        0xff,
        0x00,
        0xfe,
        0xfe,
        0xfe,
        0xfe,
        0xfd,
        0xfd,
        0xfd,
        0xfd,
        0x12,
        0x34,
        0x56,
        0x78,
    ]
}

/// Whether the two bytes at `i` hold a number, most significant byte first.
pub open spec fn number_at(p: Seq<u8>, i: int, n: int) -> bool {
    p[i] * 256 + p[i + 1] == n
}

/// Whether the seven bytes at `i` hold an address: the digit four, the octets
/// or zeros in their place, and the port.
pub open spec fn address_at(p: Seq<u8>, i: int, addr: AddrView) -> bool {
    &&& p[i] == 4
    &&& match addr {
        AddrView::V4 { octets, port } => p.subrange(i + 1, i + 5) == octets && number_at(
            p,
            i + 5,
            port as int,
        ),
        AddrView::V6 { ip, port, flowinfo } => p.subrange(i + 1, i + 5) == seq![0u8, 0, 0, 0]
            && number_at(p, i + 5, port as int),
    }
}

/// Whether an address has four octets, if it is one of those that have any.
pub open spec fn is_address(addr: AddrView) -> bool {
    addr matches AddrView::V4 { octets, port } ==> octets.len() == 4
}

proof fn lemma_magic()
    ensures
        RAKNET_MAGIC@ == magic(),
        magic().len() == 16,
{
    assert(RAKNET_MAGIC@ =~= magic());
}

proof fn lemma_i64_at(p: Seq<u8>, i: int, v: i64)
    requires
        0 <= i,
        i + 8 <= p.len(),
        p.subrange(i, i + 8) == i64_be(v),
    ensures
        signed_be64_at(p, i) == v,
{
    i64_be_reads_back(v);
    let q = p.subrange(i, i + 8);
    assert(q[0] == p[i] && q[1] == p[i + 1] && q[2] == p[i + 2] && q[3] == p[i + 3] && q[4] == p[i
        + 4] && q[5] == p[i + 5] && q[6] == p[i + 6] && q[7] == p[i + 7]);
}

proof fn lemma_address_at(p: Seq<u8>, i: int, addr: AddrView)
    requires
        is_address(addr),
        0 <= i,
        i + 7 <= p.len(),
        p.subrange(i, i + 7) == wire_address(addr),
    ensures
        address_at(p, i, addr),
{
    let q = p.subrange(i, i + 7);
    assert(q[0] == p[i] && q[5] == p[i + 5] && q[6] == p[i + 6]);
    assert(p.subrange(i + 1, i + 5) =~= q.subrange(1, 5));
    match addr {
        AddrView::V4 { octets, port } => {
            assert(q.subrange(1, 5) =~= octets);
        },
        AddrView::V6 { ip, port, flowinfo } => {
            assert(q.subrange(1, 5) =~= seq![0u8, 0, 0, 0]);
        },
    }
}

// ---------------------------------------------------------------------
// The server list
// ---------------------------------------------------------------------

/// Whatever has a ping's id, eight bytes of time and the magic is a ping, with
/// anything behind it; and nothing else is.
pub proof fn pings_are_recognized(id: u8, time: Seq<u8>, mark: Seq<u8>, rest: Seq<u8>)
    requires
        time.len() == 8,
        mark.len() == 16,
    ensures
        unconnected_ping(seq![id] + time + mark + rest) <==> (id == 0x01 || id == 0x02) && mark
            == magic(),
{
    lemma_magic();
    assert((seq![id] + time + mark + rest).subrange(9, 25) =~= mark);
}

/// What is shorter than 25 bytes is no ping.
pub proof fn short_datagrams_are_no_pings(data: Seq<u8>)
    requires
        data.len() < 25,
    ensures
        !unconnected_ping(data),
{
}

/// A pong holds its id, the time of the ping, the identifier of the server,
/// the magic, and the server-list entry behind the length of its bytes.
#[verifier::rlimit(40)]
pub proof fn pong_is_laid_out(ping: Seq<u8>, config: &BedrockOfflineConfig, listen_port: u16)
    requires
        ping.len() >= 25,
        encode_utf8(motd(config, listen_port)).len() < 65536,
    ensures
        ({
            let p = unconnected_pong(ping, config, listen_port);
            let entry = encode_utf8(motd(config, listen_port));
            &&& p.len() == 35 + entry.len()
            &&& p[0] == 0x1c
            &&& p.subrange(1, 9) == ping.subrange(1, 9)
            &&& signed_be64_at(p, 9) == config.server_guid
            &&& p.subrange(17, 33) == magic()
            &&& number_at(p, 33, entry.len() as int)
            &&& p.skip(35) == entry
        }),
{
    lemma_magic();
    let p = unconnected_pong(ping, config, listen_port);
    assert(p.subrange(1, 9) =~= ping.subrange(1, 9));
    assert(p.subrange(9, 17) =~= i64_be(config.server_guid));
    lemma_i64_at(p, 9, config.server_guid);
    assert(p.subrange(17, 33) =~= magic());
    assert(p.skip(35) =~= encode_utf8(motd(config, listen_port)));
}

/// Fields, each with a semicolon behind it.
pub open spec fn delimited(fields: Seq<Seq<char>>) -> Seq<char>
    decreases fields.len(),
{
    if fields.len() == 0 {
        Seq::empty()
    } else {
        delimited(fields.drop_last()) + fields.last() + seq![';']
    }
}

/// Whether `shown` is `text` but for its semicolons, each of which has become
/// a comma.
pub open spec fn shows(shown: Seq<char>, text: Seq<char>) -> bool {
    shown.len() == text.len() && forall|i: int|
        0 <= i < text.len() ==> #[trigger] shown[i] == if text[i] == ';' {
            ','
        } else {
            text[i]
        }
}

/// The server-list entry has twelve fields: the first line is the second one,
/// the second line the eighth, and the port is there twice. What a line holds
/// cannot shift the fields behind it.
#[verifier::rlimit(40)]
pub proof fn entry_has_its_fields(config: &BedrockOfflineConfig, listen_port: u16)
    ensures
        exists|line1: Seq<char>, line2: Seq<char>|
            {
                &&& #[trigger] shows(line1, config.motd_line1@)
                &&& #[trigger] shows(line2, config.motd_line2@)
                &&& !line1.contains(';')
                &&& !line2.contains(';')
                &&& motd(config, listen_port) == delimited(
                    seq![
                        "MCPE"@,
                        line1,
                        "766"@,
                        "1.21.60"@,
                        "0"@,
                        "20"@,
                        signed_decimal(config.server_guid as int),
                        line2,
                        "Survival"@,
                        "1"@,
                        decimal(listen_port as nat),
                        decimal(listen_port as nat),
                    ],
                )
            },
{
    let line1 = sanitized(config.motd_line1@);
    let line2 = sanitized(config.motd_line2@);
    assert(shows(line1, config.motd_line1@));
    assert(shows(line2, config.motd_line2@));
    let guid = signed_decimal(config.server_guid as int);
    let port = decimal(listen_port as nat);
    reveal_strlit("MCPE;");
    reveal_strlit("MCPE");
    reveal_strlit(";766;1.21.60;0;20;");
    reveal_strlit("766");
    reveal_strlit("1.21.60");
    reveal_strlit("0");
    reveal_strlit("20");
    reveal_strlit(";Survival;1;");
    reveal_strlit("Survival");
    reveal_strlit("1");
    lemma_delimited(line1, guid, line2, port);
    assert("MCPE;"@ =~= "MCPE"@ + seq![';']);
    assert(";766;1.21.60;0;20;"@ =~= seq![';'] + "766"@ + seq![';'] + "1.21.60"@ + seq![';'] + "0"@
        + seq![';'] + "20"@ + seq![';']);
    assert(";Survival;1;"@ =~= seq![';'] + "Survival"@ + seq![';'] + "1"@ + seq![';']);
    let semi = seq![';'];
    let mid = "766"@ + semi + "1.21.60"@ + semi + "0"@ + semi + "20"@ + semi;
    let end = "Survival"@ + semi + "1"@ + semi;
    assert(";766;1.21.60;0;20;"@ =~= semi + mid);
    assert(";Survival;1;"@ =~= semi + end);
    assert(motd(config, listen_port) =~= "MCPE"@ + semi + line1 + semi + mid + guid + semi + line2
        + semi + end + port + semi + port + semi);
    assert("MCPE"@ + semi + line1 + semi + mid + guid + semi + line2 + semi + end + port + semi
        + port + semi =~= delimited(
        seq![
            "MCPE"@,
            line1,
            "766"@,
            "1.21.60"@,
            "0"@,
            "20"@,
            guid,
            line2,
            "Survival"@,
            "1"@,
            port,
            port,
        ],
    ));
}

proof fn lemma_delimited_push(fields: Seq<Seq<char>>, field: Seq<char>)
    ensures
        delimited(fields.push(field)) == delimited(fields) + field + seq![';'],
{
    assert(fields.push(field).drop_last() =~= fields);
}

proof fn lemma_delimited(line1: Seq<char>, guid: Seq<char>, line2: Seq<char>, port: Seq<char>)
    ensures
        delimited(
            seq![
                "MCPE"@,
                line1,
                "766"@,
                "1.21.60"@,
                "0"@,
                "20"@,
                guid,
                line2,
                "Survival"@,
                "1"@,
                port,
                port,
            ],
        ) == Seq::<char>::empty() + "MCPE"@ + seq![';'] + line1 + seq![';'] + "766"@ + seq![';']
            + "1.21.60"@ + seq![';'] + "0"@ + seq![';'] + "20"@ + seq![';'] + guid + seq![';']
            + line2 + seq![';'] + "Survival"@ + seq![';'] + "1"@ + seq![';'] + port + seq![';']
            + port + seq![';'],
{
    let f0 = Seq::<Seq<char>>::empty();
    let f1 = f0.push("MCPE"@);
    let f2 = f1.push(line1);
    let f3 = f2.push("766"@);
    let f4 = f3.push("1.21.60"@);
    let f5 = f4.push("0"@);
    let f6 = f5.push("20"@);
    let f7 = f6.push(guid);
    let f8 = f7.push(line2);
    let f9 = f8.push("Survival"@);
    let f10 = f9.push("1"@);
    let f11 = f10.push(port);
    let f12 = f11.push(port);
    lemma_delimited_push(f0, "MCPE"@);
    lemma_delimited_push(f1, line1);
    lemma_delimited_push(f2, "766"@);
    lemma_delimited_push(f3, "1.21.60"@);
    lemma_delimited_push(f4, "0"@);
    lemma_delimited_push(f5, "20"@);
    lemma_delimited_push(f6, guid);
    lemma_delimited_push(f7, line2);
    lemma_delimited_push(f8, "Survival"@);
    lemma_delimited_push(f9, "1"@);
    lemma_delimited_push(f10, port);
    lemma_delimited_push(f11, port);
    assert(f12 =~= seq![
        "MCPE"@,
        line1,
        "766"@,
        "1.21.60"@,
        "0"@,
        "20"@,
        guid,
        line2,
        "Survival"@,
        "1"@,
        port,
        port,
    ]);
}

/// The probe of a target is a ping of 25 bytes that holds the time.
pub proof fn probe_is_laid_out(millis: i64)
    ensures
        ping_probe(millis).len() == 25,
        ping_probe(millis)[0] == 0x01,
        signed_be64_at(ping_probe(millis), 1) == millis,
        ping_probe(millis).subrange(9, 25) == magic(),
{
    lemma_magic();
    let p = ping_probe(millis);
    assert(p.subrange(1, 9) =~= i64_be(millis));
    lemma_i64_at(p, 1, millis);
    assert(p.subrange(9, 25) =~= magic());
}

/// A target is there exactly where its reply is a pong with the time of this
/// ping, the magic, and an entry of the length that it declares: neither a
/// late reply to another ping nor one that is cut short or too long counts.
pub proof fn only_a_whole_pong_counts(
    ping: Seq<u8>,
    id: u8,
    time: Seq<u8>,
    guid: Seq<u8>,
    mark: Seq<u8>,
    len: u16,
    entry: Seq<u8>,
)
    requires
        ping.len() >= 9,
        time.len() == 8,
        guid.len() == 8,
        mark.len() == 16,
    ensures
        pong_matches(
            ping,
            seq![id] + time + guid + mark + seq![(len / 256) as u8, (len % 256) as u8] + entry,
        ) <==> id == 0x1c && time == ping.subrange(1, 9) && mark == magic() && entry.len() == len,
{
    lemma_magic();
    let p = seq![id] + time + guid + mark + seq![(len / 256) as u8, (len % 256) as u8] + entry;
    assert(p.subrange(1, 9) =~= time);
    assert(p.subrange(17, 33) =~= mark);
}

/// What is shorter than 35 bytes is no pong.
pub proof fn short_replies_do_not_count(ping: Seq<u8>, reply: Seq<u8>)
    requires
        reply.len() < 35,
    ensures
        !pong_matches(ping, reply),
{
}

// ---------------------------------------------------------------------
// The handshake
// ---------------------------------------------------------------------

/// The first request is answered exactly where the magic stands behind its
/// id. The reply holds its id, the magic, the identifier, a zero, and the size
/// of the request, but not less than 46 and not more than 1492.
#[verifier::rlimit(40)]
pub proof fn first_reply_is_laid_out(request: Seq<u8>, server_guid: i64)
    requires
        request.len() < 65536,
    ensures
        open_connection_reply_1(request, server_guid) is Some <==> request.len() >= 17
            && request.subrange(1, 17) == magic(),
        open_connection_reply_1(request, server_guid) matches Some(p) ==> {
            &&& p.len() == 28
            &&& p[0] == 0x06
            &&& p.subrange(1, 17) == magic()
            &&& signed_be64_at(p, 17) == server_guid
            &&& p[25] == 0
            &&& request.len() < 46 ==> number_at(p, 26, 46)
            &&& 46 <= request.len() <= 1492 ==> number_at(p, 26, request.len() as int)
            &&& request.len() > 1492 ==> number_at(p, 26, 1492)
        },
{
    lemma_magic();
    if let Some(p) = open_connection_reply_1(request, server_guid) {
        assert(p.subrange(1, 17) =~= magic());
        assert(p.subrange(17, 25) =~= i64_be(server_guid));
        lemma_i64_at(p, 17, server_guid);
    }
}

/// The second request is answered exactly where it is long enough and the
/// magic stands behind its id. The reply holds its id, the magic, the
/// identifier, the client's address, the size that the client has asked for,
/// and a zero.
#[verifier::rlimit(40)]
#[verifier::spinoff_prover]
pub proof fn second_reply_is_laid_out(request: Seq<u8>, client: AddrView, server_guid: i64)
    requires
        is_address(client),
    ensures
        open_connection_reply_2(request, client, server_guid) is Some <==> request.len() >= 34
            && request.subrange(1, 17) == magic(),
        open_connection_reply_2(request, client, server_guid) matches Some(p) ==> {
            &&& p.len() == 35
            &&& p[0] == 0x08
            &&& p.subrange(1, 17) == magic()
            &&& signed_be64_at(p, 17) == server_guid
            &&& address_at(p, 25, client)
            &&& p.subrange(32, 34) == request.subrange(24, 26)
            &&& p[34] == 0
        },
{
    lemma_magic();
    if let Some(p) = open_connection_reply_2(request, client, server_guid) {
        assert(wire_address(client).len() == 7);
        assert(p.subrange(1, 17) =~= magic());
        assert(p.subrange(17, 25) =~= i64_be(server_guid));
        lemma_i64_at(p, 17, server_guid);
        assert(p.subrange(25, 32) =~= wire_address(client));
        lemma_address_at(p, 25, client);
        assert(p.subrange(32, 34) =~= request.subrange(24, 26));
    }
}

/// What accepts a connection holds its id, the client's address, two zeros,
/// ten times the address 0.0.0.0:0, the time of the request, and the time now.
#[verifier::rlimit(40)]
#[verifier::spinoff_prover]
pub proof fn acceptance_is_laid_out(client: AddrView, request_timestamp: Seq<u8>, millis: i64)
    requires
        is_address(client),
        request_timestamp.len() == 8,
    ensures
        ({
            let p = connection_request_accepted(client, request_timestamp, millis);
            &&& p.len() == 96
            &&& p[0] == 0x10
            &&& address_at(p, 1, client)
            &&& p[8] == 0 && p[9] == 0
            &&& forall|k: int|
                0 <= k < 10 ==> #[trigger] p.subrange(10 + 7 * k, 17 + 7 * k) == seq![
                    4u8,
                    0,
                    0,
                    0,
                    0,
                    0,
                    0,
                ]
            &&& p.subrange(80, 88) == request_timestamp
            &&& signed_be64_at(p, 88) == millis
        }),
{
    let p = connection_request_accepted(client, request_timestamp, millis);
    assert(wire_address(client).len() == 7);
    assert(p.subrange(1, 8) =~= wire_address(client));
    lemma_address_at(p, 1, client);
    assert forall|k: int| 0 <= k < 10 implies #[trigger] p.subrange(10 + 7 * k, 17 + 7 * k)
        == seq![4u8, 0, 0, 0, 0, 0, 0] by {
        assert(p.subrange(10 + 7 * k, 17 + 7 * k) =~= seq![4u8, 0, 0, 0, 0, 0, 0]);
    }
    assert(p.subrange(80, 88) =~= request_timestamp);
    assert(p.subrange(88, 96) =~= i64_be(millis));
    lemma_i64_at(p, 88, millis);
}

/// The network settings are one packet: its id, no threshold, no compression,
/// and no throttling.
pub proof fn network_settings_are_laid_out()
    ensures
        batch_packets(network_settings()) == seq![
            seq![0x8Fu8, 0x01, 0, 0, 0xFF, 0xFF, 0, 0, 0, 0, 0, 0],
        ],
        network_settings()[0] == 0xFE,
{
    let packet = MC_ID_NETWORK_SETTINGS@ + seq![0u8, 0, 0xFF, 0xFF, 0, 0, 0, 0, 0, 0];
    assert(packet =~= seq![0x8Fu8, 0x01, 0, 0, 0xFF, 0xFF, 0, 0, 0, 0, 0, 0]);
    wrapped_packet_splits_back(packet);
}

/// Whether a string of these bytes stands at `i`: its length as a
/// variable-length integer, and the bytes. It ends at `end`.
pub open spec fn string_at(p: Seq<u8>, i: int, bytes: Seq<u8>, end: int) -> bool {
    &&& 0 <= i < end <= p.len()
    &&& decoded(p.skip(i)) matches Some((len, n)) && len == bytes.len() && i + n + len == end
        && p.subrange(i + n, end) == bytes
}

proof fn lemma_string_at(before: Seq<u8>, bytes: Seq<u8>, rest: Seq<u8>)
    requires
        bytes.len() < 0x1_0000_0000,
    ensures
        string_at(
            before + string_field(bytes) + rest,
            before.len() as int,
            bytes,
            (before.len() + string_field(bytes).len()) as int,
        ),
{
    let p = before + string_field(bytes) + rest;
    let prefix = encoded(bytes.len());
    encoded_decodes_back(bytes.len() as u32, bytes + rest);
    encoded_len_bounds(bytes.len() as u32);
    assert(p.skip(before.len() as int) =~= prefix + (bytes + rest));
    let start = (before.len() + prefix.len()) as int;
    assert(p.subrange(start, start + bytes.len()) =~= bytes);
}

/// A disconnect is one packet: its id, two zeros for an unknown reason and for
/// a message that follows, then the two lines with a line feed between them,
/// twice, and nothing else.
#[verifier::rlimit(40)]
pub proof fn disconnect_carries_both_lines(line1: Seq<char>, line2: Seq<char>)
    requires
        encode_utf8(line1 + seq!['\n'] + line2).len() < 0x4000_0000,
    ensures
        disconnect(line1, line2)[0] == 0xFE,
        batch_packets(disconnect(line1, line2)).len() == 1,
        ({
            let p = batch_packets(disconnect(line1, line2))[0];
            let message = encode_utf8(line1 + seq!['\n'] + line2);
            &&& p.take(3) == seq![0x05u8, 0, 0]
            &&& exists|middle: int|
                #[trigger] string_at(p, 3, message, middle) && string_at(
                    p,
                    middle,
                    message,
                    p.len() as int,
                )
        }),
{
    let message = encode_utf8(line1 + seq!['\n'] + line2);
    let field = string_field(message);
    let head = seq![0x05u8, 0, 0];
    encoded_len_bounds(message.len() as u32);
    let packet = seq![0x05u8] + encoded(zigzag(0)) + encoded(0) + field + field;
    assert(encoded(0) =~= seq![0u8]);
    assert(packet =~= head + field + field);
    assert(disconnect(line1, line2) == batch_of(packet));
    wrapped_packet_splits_back(packet);
    let p = batch_packets(disconnect(line1, line2))[0];
    assert(p == packet);
    assert(p.take(3) =~= head);
    lemma_string_at(head, message, field);
    lemma_string_at(head + field, message, Seq::empty());
    assert(p =~= head + field + field + Seq::<u8>::empty());
    let middle = (3 + field.len()) as int;
    assert(string_at(p, 3, message, middle));
    assert(string_at(p, middle, message, p.len() as int));
}

/// Whether the three bytes at `i` hold the low 24 bits of a number, least
/// significant byte first.
pub open spec fn low_bits_at(p: Seq<u8>, i: int, n: int) -> bool {
    p[i] + p[i + 1] * 256 + p[i + 2] * 65536 == n % 0x100_0000
}

/// A datagram that carries a payload holds the mark of a frame set and its
/// sequence number; then one frame that is reliable and ordered, with the
/// length of the payload in bits, its two indices and channel zero.
#[verifier::rlimit(40)]
#[verifier::spinoff_prover]
pub proof fn frame_is_laid_out(s: SessionView, payload: Seq<u8>)
    requires
        payload.len() <= 8191,
    ensures
        ({
            let p = s.wrapped(payload);
            &&& p.len() == 14 + payload.len()
            &&& p[0] == 0x84
            &&& low_bits_at(p, 1, s.out_seq as int)
            &&& p[4] == 0x60
            &&& number_at(p, 5, 8 * payload.len() as int)
            &&& low_bits_at(p, 7, s.out_reliable_index as int)
            &&& low_bits_at(p, 10, s.out_order_index as int)
            &&& p[13] == 0
            &&& p.skip(14) == payload
        }),
{
    let p = s.wrapped(payload);
    lemma_bits(payload.len());
    assert(p.skip(14) =~= payload);
    assert(p.subrange(1, 4) =~= low_three_le(s.out_seq));
    assert(p.subrange(7, 10) =~= low_three_le(s.out_reliable_index));
    assert(p.subrange(10, 13) =~= low_three_le(s.out_order_index));
    lemma_low_bits_at(p, 1, s.out_seq);
    lemma_low_bits_at(p, 7, s.out_reliable_index);
    lemma_low_bits_at(p, 10, s.out_order_index);
    let bits = u16_be((payload.len() % 65536 * 8) as u16);
    assert(p[5] == bits[0] && p[6] == bits[1]);
}

proof fn lemma_bits(len: nat)
    requires
        len <= 8191,
    ensures
        u16_be((len % 65536 * 8) as u16)[0] * 256 + u16_be((len % 65536 * 8) as u16)[1] == 8 * len,
{
    assert(len % 65536 == len);
}

proof fn lemma_low_bits_at(p: Seq<u8>, i: int, n: u32)
    requires
        0 <= i,
        i + 3 <= p.len(),
        p.subrange(i, i + 3) == low_three_le(n),
    ensures
        low_bits_at(p, i, n as int),
{
    let q = p.subrange(i, i + 3);
    assert(q[0] == p[i] && q[1] == p[i + 1] && q[2] == p[i + 2]);
    assert(q[0] == n % 256 && q[1] == n / 256 % 256 && q[2] == n / 65536 % 256);
    assert(n % 256 + n / 256 % 256 * 256 + n / 65536 % 256 * 65536 == n % 0x100_0000)
        by (bit_vector);
}

/// Each frame that is sent has the next number: the counters never repeat one.
pub proof fn frames_are_numbered(s: SessionView)
    requires
        s.out_seq < u32::MAX,
        s.out_reliable_index < u32::MAX,
        s.out_order_index < u32::MAX,
    ensures
        s.sent_one().out_seq == s.out_seq + 1,
        s.sent_one().out_reliable_index == s.out_reliable_index + 1,
        s.sent_one().out_order_index == s.out_order_index + 1,
        s.sent_one().stage == s.stage,
        s.sent_one().pending_split == s.pending_split,
        s.sent_one().last_activity == s.last_activity,
{
}

// ---------------------------------------------------------------------
// Frames that are read
// ---------------------------------------------------------------------

/// The header of a frame: the reliability in the high three bits of the flags,
/// the length in bits, and the two indices.
pub open spec fn header_bytes(
    reliability: u8,
    low: u8,
    bits: u16,
    index: Seq<u8>,
    order: Seq<u8>,
) -> Seq<u8> {
    seq![(reliability * 32 + low) as u8, (bits / 256) as u8, (bits % 256) as u8] + index + order
}

/// Whether a frame of this reliability has a message index of three bytes, and
/// an order index and channel of four, exactly where it should.
pub open spec fn indices_fit(reliability: u8, index: Seq<u8>, order: Seq<u8>) -> bool {
    &&& reliability < 8
    &&& index.len() == if seq![2u8, 3, 4, 6, 7].contains(reliability) {
        3
    } else {
        0nat
    }
    &&& order.len() == if seq![1u8, 3, 4, 5, 7].contains(reliability) {
        4
    } else {
        0nat
    }
}

proof fn lemma_indices(reliability: u8, index: Seq<u8>, order: Seq<u8>, low: u8)
    requires
        indices_fit(reliability, index, order),
        low < 32,
    ensures
        frame_header_len((reliability * 32 + low) as u8) == 3 + index.len() + order.len(),
        is_fragment((reliability * 32 + low) as u8) <==> low >= 16,
{
    let with_index = seq![2u8, 3, 4, 6, 7];
    let with_order = seq![1u8, 3, 4, 5, 7];
    assert(with_index[0] == 2 && with_index[1] == 3 && with_index[2] == 4 && with_index[3] == 6
        && with_index[4] == 7);
    assert(with_order[0] == 1 && with_order[1] == 3 && with_order[2] == 4 && with_order[3] == 5
        && with_order[4] == 7);
    let flags = (reliability * 32 + low) as u8;
    assert(flags / 32 == reliability);
}

/// A frame of any reliability is read back as its payload, whatever stands
/// before and behind it, and reading goes on right behind it. The length in
/// bits is rounded up to bytes.
#[verifier::rlimit(40)]
pub proof fn frames_are_read_in_turn(
    head: Seq<u8>,
    reliability: u8,
    low: u8,
    bits: u16,
    index: Seq<u8>,
    order: Seq<u8>,
    payload: Seq<u8>,
    rest: Seq<u8>,
)
    requires
        indices_fit(reliability, index, order),
        low < 16,
        8 * payload.len() - 7 <= bits <= 8 * payload.len(),
    ensures
        ({
            let data = head + header_bytes(reliability, low, bits, index, order) + payload + rest;
            frames_from(data, head.len() as int) == seq![payload] + frames_from(
                data,
                data.len() - rest.len(),
            )
        }),
{
    let header = header_bytes(reliability, low, bits, index, order);
    let data = head + header + payload + rest;
    let i = head.len() as int;
    lemma_indices(reliability, index, order, low);
    assert(data[i] == header[0] && data[i + 1] == header[1] && data[i + 2] == header[2]);
    assert(payload_len_at(data, i) == payload.len());
    let start = i + header.len();
    assert(data.subrange(start, start + payload.len()) =~= payload);
}

/// Reading ends at a fragment, and at a frame that is cut short.
pub proof fn reading_ends_at_a_fragment(
    head: Seq<u8>,
    reliability: u8,
    low: u8,
    bits: u16,
    index: Seq<u8>,
    order: Seq<u8>,
    rest: Seq<u8>,
)
    requires
        indices_fit(reliability, index, order),
        low < 32,
        low >= 16 || 8 * rest.len() < bits,
    ensures
        frames_from(
            head + header_bytes(reliability, low, bits, index, order) + rest,
            head.len() as int,
        ) == Seq::<Seq<u8>>::empty(),
{
    let header = header_bytes(reliability, low, bits, index, order);
    let data = head + header + rest;
    let i = head.len() as int;
    lemma_indices(reliability, index, order, low);
    assert(data[i] == header[0] && data[i + 1] == header[1] && data[i + 2] == header[2]);
}

/// The four bytes of a number, most significant first.
pub open spec fn four_bytes(n: u32) -> Seq<u8> {
    seq![
        (n / 0x100_0000) as u8,
        (n / 0x1_0000 % 256) as u8,
        (n / 0x100 % 256) as u8,
        (n % 256) as u8,
    ]
}

/// The numbers of a fragment stand behind the header of its frame: the count,
/// the id and the index. They are read back, and only from a fragment.
#[verifier::rlimit(40)]
pub proof fn fragment_numbers_are_read_back(
    head: Seq<u8>,
    reliability: u8,
    low: u8,
    bits: u16,
    index: Seq<u8>,
    order: Seq<u8>,
    fragment: FragmentHeader,
    rest: Seq<u8>,
)
    requires
        head.len() == 4,
        indices_fit(reliability, index, order),
        low < 32,
    ensures
        fragment_header(
            head + header_bytes(reliability, low, bits, index, order) + four_bytes(
                fragment.split_count,
            ) + seq![(fragment.split_id / 256) as u8, (fragment.split_id % 256) as u8]
                + four_bytes(fragment.split_index) + rest,
        ) == if low >= 16 {
            Some(fragment)
        } else {
            None
        },
{
    let header = header_bytes(reliability, low, bits, index, order);
    let numbers = four_bytes(fragment.split_count) + seq![
        (fragment.split_id / 256) as u8,
        (fragment.split_id % 256) as u8,
    ] + four_bytes(fragment.split_index);
    let data = head + header + four_bytes(fragment.split_count) + seq![
        (fragment.split_id / 256) as u8,
        (fragment.split_id % 256) as u8,
    ] + four_bytes(fragment.split_index) + rest;
    lemma_indices(reliability, index, order, low);
    assert(data[4] == header[0]);
    let i = (4 + header.len()) as int;
    assert(data.subrange(i, i + 10) =~= numbers);
    assert forall|k: int| 0 <= k < 10 implies #[trigger] data[i + k] == numbers[k] by {
        assert(data.subrange(i, i + 10)[k] == data[i + k]);
    }
    assert(data[i] == data[i + 0]);
    lemma_four_bytes(fragment.split_count);
    lemma_four_bytes(fragment.split_index);
}

proof fn lemma_four_bytes(n: u32)
    ensures
        four_bytes(n)[0] * 0x100_0000 + four_bytes(n)[1] * 0x1_0000 + four_bytes(n)[2] * 0x100
            + four_bytes(n)[3] == n,
{
}

/// What is no batch is one packet, as it stands.
pub proof fn unbatched_payloads_come_whole(payload: Seq<u8>)
    requires
        payload.len() == 0 || payload[0] != 0xFE,
    ensures
        batch_packets(payload) == seq![payload],
{
}

/// The sign of a number goes to its lowest bit, and its size to the others.
pub proof fn zigzag_folds_the_sign(v: i32)
    ensures
        v >= 0 ==> zigzag(v) == 2 * v,
        v < 0 ==> zigzag(v) == 2 * (-(v + 1)) + 1,
{
}

/// Bytes are shown as two hexadecimal digits each, with a space between them.
pub proof fn bytes_are_shown_in_pairs(data: Seq<u8>, i: int)
    requires
        0 <= i < data.len(),
    ensures
        hex_pairs(data).len() == 3 * data.len() - 1,
        hex_pairs(data)[3 * i] == hex_digit((data[i] / 16) as nat),
        hex_pairs(data)[3 * i + 1] == hex_digit((data[i] % 16) as nat),
        i < data.len() - 1 ==> hex_pairs(data)[3 * i + 2] == ' ',
    decreases data.len(),
{
    let init = data.drop_last();
    if i < data.len() - 1 {
        bytes_are_shown_in_pairs(init, i);
        assert(init[i] == data[i]);
        assert(hex_pairs(data)[3 * i] == hex_pairs(init)[3 * i]);
        assert(hex_pairs(data)[3 * i + 1] == hex_pairs(init)[3 * i + 1]);
        if i < data.len() - 2 {
            assert(hex_pairs(data)[3 * i + 2] == hex_pairs(init)[3 * i + 2]);
        }
    } else if data.len() > 1 {
        bytes_are_shown_in_pairs(init, i - 1);
    }
}

/// At most 64 bytes are shown; of more, the number of all of them is.
pub proof fn long_data_is_cut_short(data: Seq<u8>)
    ensures
        data.len() <= 64 ==> hex_text(data) == hex_pairs(data),
        data.len() > 64 ==> hex_text(data) == hex_pairs(data.take(64)) + " ... ("@ + decimal(
            data.len(),
        ) + " bytes total)"@,
{
}

} // verus!
