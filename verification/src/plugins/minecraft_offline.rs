//! Offline support for Minecraft: Java Edition. While the target is
//! unreachable, the server list shows a canned status and joins are turned
//! away with a message.

use serde_json::Value;
use vstd::prelude::*;
use vstd::slice::slice_subrange;
use vstd::utf8::encode_utf8;

use crate::bytes::push_bytes;
use crate::json::{
    array_text, base64, base64_encode, base64_fits, comes_before, json_array, json_integer,
    json_object, json_string, json_text, member_texts, names_in_order, object_text, quoted, render,
    value_texts,
};
use crate::net::SocketAddr;
use crate::plugin::{
    handshake_fields, leading_varint, parse_handshake, read_varint_from_slice, Cursor,
    FailureAction, PacketError,
};
use crate::text::{decimal, signed_decimal};
use crate::varint::{
    as_unsigned, decode_at, decoded_ends_at_small_byte, decoded_none_iff, encoded, push_varint,
    to_signed, to_unsigned, MAX_VARINT_BYTES,
};

verus! {

/// Seconds that a client has to get through the exchange.
pub const HANDSHAKE_TIMEOUT: u64 = 5;

/// Longest packet that is read.
pub const MAX_PACKET_LEN: i32 = 1_048_576;

fn default_status_line() -> (line: String)
    ensures
        line@ == "\u{00A7}c伺服器無法連線！ / Server unreachable!"@,
{
    "\u{00A7}c伺服器無法連線！ / Server unreachable!".to_string()
}

fn default_motd_line1() -> (line: String)
    ensures
        line@ == "\u{00A7}c伺服器無法連線！ / Server unreachable!"@,
{
    "\u{00A7}c伺服器無法連線！ / Server unreachable!".to_string()
}

fn default_motd_line2() -> (line: String)
    ensures
        line@ == "\u{00A7}e請稍後再試 / Please Try Again"@,
{
    "\u{00A7}e請稍後再試 / Please Try Again".to_string()
}

/// Answers the server list and joins while the target is unreachable.
pub struct MinecraftOfflinePlugin {
    pub listen_port: u16,
    pub status_line: String,
    pub motd_line1: String,
    pub motd_line2: String,
    pub favicon_base64: Option<String>,
}

/// The view of text that may be missing.
pub open spec fn optional_text(text: Option<String>) -> Option<Seq<char>> {
    match text {
        Some(t) => Some(t@),
        None => None,
    }
}

impl MinecraftOfflinePlugin {
    /// A plugin for one port with the built-in text, and with the icon that the
    /// program has built in: the bytes of a PNG file.
    pub fn new(listen_port: u16, built_in_icon: &[u8]) -> (plugin: Self)
        requires
            base64_fits(built_in_icon@.len()),
        ensures
            plugin.listen_port == listen_port,
            plugin.status_line@ == "\u{00A7}c伺服器無法連線！ / Server unreachable!"@,
            plugin.motd_line1@ == "\u{00A7}c伺服器無法連線！ / Server unreachable!"@,
            plugin.motd_line2@ == "\u{00A7}e請稍後再試 / Please Try Again"@,
            optional_text(plugin.favicon_base64) == Some(base64(built_in_icon@)),
    {
        MinecraftOfflinePlugin {
            listen_port,
            status_line: default_status_line(),
            motd_line1: default_motd_line1(),
            motd_line2: default_motd_line2(),
            favicon_base64: Some(base64_encode(built_in_icon)),
        }
    }

    /// Sets the text shown in place of the player count.
    pub fn with_status_line(self, status_line: String) -> (plugin: Self)
        ensures
            plugin == (MinecraftOfflinePlugin { status_line, ..self }),
    {
        MinecraftOfflinePlugin { status_line, ..self }
    }

    /// Sets the two lines shown under the server's name.
    pub fn with_motd(self, line1: String, line2: String) -> (plugin: Self)
        ensures
            plugin == (MinecraftOfflinePlugin { motd_line1: line1, motd_line2: line2, ..self }),
    {
        MinecraftOfflinePlugin { motd_line1: line1, motd_line2: line2, ..self }
    }

    /// Sets the icon from the bytes of a PNG file, or leaves it out.
    pub fn with_favicon_png_bytes(self, png_bytes: Option<&[u8]>) -> (plugin: Self)
        requires
            png_bytes matches Some(bytes) ==> base64_fits(bytes@.len()),
        ensures
            plugin.listen_port == self.listen_port,
            plugin.status_line == self.status_line,
            plugin.motd_line1 == self.motd_line1,
            plugin.motd_line2 == self.motd_line2,
            optional_text(plugin.favicon_base64) == match png_bytes {
                Some(bytes) => Some(base64(bytes@)),
                None => None,
            },
    {
        let favicon_base64 = match png_bytes {
            Some(bytes) => Some(base64_encode(bytes)),
            None => None,
        };
        MinecraftOfflinePlugin { favicon_base64, ..self }
    }

    pub fn name(&self) -> (name: &'static str)
        ensures
            name@ == "minecraft-offline-motd"@,
    {
        "minecraft-offline-motd"
    }

    /// Whether the plugin is for the listener at this address.
    pub fn applies_to(&self, listen_addr: &SocketAddr) -> (applies: bool)
        ensures
            applies == (listen_addr@.port() == self.listen_port),
    {
        listen_addr.port() == self.listen_port
    }

    /// The status that the server list gets.
    pub fn status_json(&self) -> (status: String)
        ensures
            status@ == status_text(
                self.status_line@,
                self.motd_line1@,
                self.motd_line2@,
                optional_text(self.favicon_base64),
            ),
    {
        match &self.favicon_base64 {
            Some(favicon) => build_status_json(
                self.status_line.as_str(),
                self.motd_line1.as_str(),
                self.motd_line2.as_str(),
                Some(favicon.as_str()),
            ),
            None => build_status_json(
                self.status_line.as_str(),
                self.motd_line1.as_str(),
                self.motd_line2.as_str(),
                None,
            ),
        }
    }

    /// What a client that joins is told.
    pub fn kick_text(&self) -> (text: String)
        ensures
            text@ == two_lines(self.motd_line1@, self.motd_line2@),
    {
        join_lines(self.motd_line1.as_str(), self.motd_line2.as_str())
    }
}

/// Two lines of text.
pub open spec fn two_lines(line1: Seq<char>, line2: Seq<char>) -> Seq<char> {
    line1 + seq!['\n'] + line2
}

fn join_lines(line1: &str, line2: &str) -> (text: String)
    ensures
        text@ == two_lines(line1@, line2@),
{
    let mut text = String::new();
    text.append(line1);
    text.push('\n');
    text.append(line2);
    assert(text@ =~= two_lines(line1@, line2@));
    text
}

/// The status that the server list gets: the two lines, the icon where there
/// is one, no players, and a version that no client has, so that its name is
/// shown.
pub open spec fn status_text(
    status_line: Seq<char>,
    line1: Seq<char>,
    line2: Seq<char>,
    favicon: Option<Seq<char>>,
) -> Seq<char> {
    let description = (
        "description"@,
        object_text(seq![("text"@, quoted(two_lines(line1, line2)))]),
    );
    let players = (
        "players"@,
        object_text(
            seq![
                ("max"@, decimal(0)),
                ("online"@, decimal(0)),
                ("sample"@, array_text(Seq::empty())),
            ],
        ),
    );
    let version = (
        "version"@,
        object_text(
            seq![("name"@, quoted(status_line)), ("protocol"@, signed_decimal(-1))],
        ),
    );
    match favicon {
        Some(data) => object_text(
            seq![
                description,
                ("favicon"@, quoted("data:image/png;base64,"@ + data)),
                players,
                version,
            ],
        ),
        None => object_text(seq![description, players, version]),
    }
}

proof fn lemma_names_in_order()
    ensures
        comes_before("description"@, "favicon"@),
        comes_before("description"@, "players"@),
        comes_before("favicon"@, "players"@),
        comes_before("players"@, "version"@),
        comes_before("max"@, "online"@),
        comes_before("online"@, "sample"@),
        comes_before("name"@, "protocol"@),
{
    reveal_strlit("description");
    reveal_strlit("favicon");
    reveal_strlit("players");
    reveal_strlit("version");
    reveal_strlit("max");
    reveal_strlit("online");
    reveal_strlit("sample");
    reveal_strlit("name");
    reveal_strlit("protocol");
}

fn players_value() -> (v: Value)
    ensures
        json_text(v) == object_text(
            seq![
                ("max"@, decimal(0)),
                ("online"@, decimal(0)),
                ("sample"@, array_text(Seq::empty())),
            ],
        ),
{
    let items: Vec<Value> = Vec::new();
    assert(value_texts(items@) =~= Seq::empty());
    let mut fields: Vec<(String, Value)> = Vec::new();
    fields.push(("max".to_string(), json_integer(0)));
    fields.push(("online".to_string(), json_integer(0)));
    fields.push(("sample".to_string(), json_array(items)));
    proof {
        lemma_names_in_order();
        assert(member_texts(fields@) =~= seq![
            ("max"@, decimal(0)),
            ("online"@, decimal(0)),
            ("sample"@, array_text(Seq::empty())),
        ]);
    }
    json_object(fields)
}

fn version_value(status_line: &str) -> (v: Value)
    ensures
        json_text(v) == object_text(
            seq![("name"@, quoted(status_line@)), ("protocol"@, signed_decimal(-1))],
        ),
{
    let mut fields: Vec<(String, Value)> = Vec::new();
    fields.push(("name".to_string(), json_string(status_line)));
    fields.push(("protocol".to_string(), json_integer(-1)));
    proof {
        lemma_names_in_order();
        assert(member_texts(fields@) =~= seq![
            ("name"@, quoted(status_line@)),
            ("protocol"@, signed_decimal(-1)),
        ]);
    }
    json_object(fields)
}

fn text_value(text: &str) -> (v: Value)
    ensures
        json_text(v) == object_text(seq![("text"@, quoted(text@))]),
{
    let mut fields: Vec<(String, Value)> = Vec::new();
    fields.push(("text".to_string(), json_string(text)));
    assert(member_texts(fields@) =~= seq![("text"@, quoted(text@))]);
    json_object(fields)
}

/// Builds the status that the server list gets.
pub fn build_status_json(
    status_line: &str,
    motd_line1: &str,
    motd_line2: &str,
    favicon_base64: Option<&str>,
) -> (status: String)
    ensures
        status@ == status_text(
            status_line@,
            motd_line1@,
            motd_line2@,
            match favicon_base64 {
                Some(data) => Some(data@),
                None => None,
            },
        ),
{
    proof {
        lemma_names_in_order();
    }
    let lines = join_lines(motd_line1, motd_line2);
    let mut fields: Vec<(String, Value)> = Vec::new();
    fields.push(("description".to_string(), text_value(lines.as_str())));
    match favicon_base64 {
        Some(favicon) => {
            let mut data = "data:image/png;base64,".to_string();
            data.append(favicon);
            fields.push(("favicon".to_string(), json_string(data.as_str())));
            fields.push(("players".to_string(), players_value()));
            fields.push(("version".to_string(), version_value(status_line)));
            assert(member_texts(fields@) =~= seq![
                (
                    "description"@,
                    object_text(seq![("text"@, quoted(two_lines(motd_line1@, motd_line2@)))]),
                ),
                ("favicon"@, quoted("data:image/png;base64,"@ + favicon@)),
                member_texts(fields@)[2],
                member_texts(fields@)[3],
            ]);
        },
        None => {
            fields.push(("players".to_string(), players_value()));
            fields.push(("version".to_string(), version_value(status_line)));
            assert(member_texts(fields@) =~= seq![
                (
                    "description"@,
                    object_text(seq![("text"@, quoted(two_lines(motd_line1@, motd_line2@)))]),
                ),
                member_texts(fields@)[1],
                member_texts(fields@)[2],
            ]);
        },
    }
    assert(names_in_order(fields@));
    render(&json_object(fields))
}

// ---------------------------------------------------------------------
// Packets
// ---------------------------------------------------------------------

/// Appends a variable-length integer.
pub fn write_varint(buf: &mut Vec<u8>, value: i32)
    ensures
        final(buf)@ == old(buf)@ + encoded(as_unsigned(value)),
{
    push_varint(buf, to_unsigned(value));
}

/// Reads a variable-length integer one byte at a time.
pub struct VarIntReader {
    pub bytes: Vec<u8>,
}

/// What a byte leads to.
#[derive(Debug, Clone, Copy, PartialEq, Eq, Structural)]
pub enum VarIntStep {
    More,
    Done(i32),
    TooLong,
}

impl VarIntReader {
    /// Fewer bytes than an integer may have, each asking for another one.
    pub open spec fn wf(&self) -> bool {
        &&& self.bytes@.len() < MAX_VARINT_BYTES
        &&& forall|i: int| 0 <= i < self.bytes@.len() ==> #[trigger] self.bytes@[i] >= 128
    }

    pub fn new() -> (reader: Self)
        ensures
            reader.wf(),
            reader.bytes@ == Seq::<u8>::empty(),
    {
        VarIntReader { bytes: Vec::new() }
    }

    /// Takes in one byte.
    pub fn push(&mut self, byte: u8) -> (step: VarIntStep)
        requires
            old(self).wf(),
        ensures
            final(self).bytes@ == old(self).bytes@.push(byte),
            match step {
                VarIntStep::Done(v) => leading_varint(final(self).bytes@) == Ok::<
                    (int, nat),
                    PacketError,
                >((v as int, final(self).bytes@.len())),
                VarIntStep::TooLong => leading_varint(final(self).bytes@) == Err::<
                    (int, nat),
                    PacketError,
                >(PacketError::VarIntTooLong),
                VarIntStep::More => leading_varint(final(self).bytes@) == Err::<
                    (int, nat),
                    PacketError,
                >(PacketError::UnexpectedEof) && final(self).wf(),
            },
    {
        self.bytes.push(byte);
        let data = self.bytes.as_slice();
        proof {
            decoded_none_iff(data@);
            decoded_ends_at_small_byte(data@);
            assert(data@.skip(0) =~= data@);
        }
        match decode_at(data, 0) {
            Some((v, _)) => VarIntStep::Done(to_signed(v)),
            None => if data.len() >= MAX_VARINT_BYTES as usize {
                VarIntStep::TooLong
            } else {
                VarIntStep::More
            },
        }
    }
}

/// The length of a packet's body, where the number before the packet is one.
pub fn packet_body_len(len: i32) -> (result: Result<usize, PacketError>)
    ensures
        result == if 0 <= len <= MAX_PACKET_LEN {
            Ok::<usize, PacketError>(len as usize)
        } else {
            Err::<usize, PacketError>(PacketError::InvalidPacketLength)
        },
{
    if len < 0 || len > MAX_PACKET_LEN {
        return Err(PacketError::InvalidPacketLength);
    }
    Ok(len as usize)
}

/// The id and the payload in the body of a packet.
pub open spec fn packet_parts(body: Seq<u8>) -> Result<(int, Seq<u8>), PacketError> {
    match leading_varint(body) {
        Ok((packet_id, n)) => Ok((packet_id, body.skip(n as int))),
        Err(e) => Err(e),
    }
}

/// Splits the body of a packet in its id and its payload.
pub fn split_packet(body: &[u8]) -> (result: Result<(i32, Vec<u8>), PacketError>)
    ensures
        match result {
            Ok((packet_id, payload)) => packet_parts(body@) == Ok::<(int, Seq<u8>), PacketError>(
                (packet_id as int, payload@),
            ),
            Err(e) => packet_parts(body@) == Err::<(int, Seq<u8>), PacketError>(e),
        },
{
    let mut cursor = Cursor::new(body);
    assert(body@.skip(0) =~= body@);
    match read_varint_from_slice(&mut cursor) {
        Ok(packet_id) => {
            let mut payload: Vec<u8> = Vec::new();
            push_bytes(&mut payload, slice_subrange(body, cursor.pos, body.len()));
            assert(payload@ =~= body@.skip(cursor.pos as int));
            Ok((packet_id, payload))
        },
        Err(e) => Err(e),
    }
}

/// A packet with its length before it.
pub open spec fn framed(packet_id: i32, payload: Seq<u8>) -> Seq<u8> {
    let body = encoded(as_unsigned(packet_id)) + payload;
    encoded(body.len() % 0x1_0000_0000) + body
}

/// Puts a packet's id and its length before it.
pub fn frame_packet(packet_id: i32, payload: &[u8]) -> (out: Vec<u8>)
    ensures
        out@ == framed(packet_id, payload@),
{
    let mut body: Vec<u8> = Vec::new();
    write_varint(&mut body, packet_id);
    push_bytes(&mut body, payload);
    assert(body@ =~= encoded(as_unsigned(packet_id)) + payload@);
    let mut out: Vec<u8> = Vec::new();
    push_varint(&mut out, (body.len() as u64 % 0x1_0000_0000) as u32);
    push_bytes(&mut out, body.as_slice());
    assert(out@ =~= framed(packet_id, payload@));
    out
}

/// Text with the length of its bytes before it.
pub open spec fn text_payload(text: Seq<char>) -> Seq<u8> {
    let bytes = encode_utf8(text);
    encoded(bytes.len() % 0x1_0000_0000) + bytes
}

fn build_text_payload(text: &str) -> (payload: Vec<u8>)
    ensures
        payload@ == text_payload(text@),
{
    let bytes = text.as_bytes();
    let mut payload: Vec<u8> = Vec::new();
    push_varint(&mut payload, (bytes.len() as u64 % 0x1_0000_0000) as u32);
    push_bytes(&mut payload, bytes);
    assert(payload@ =~= text_payload(text@));
    payload
}

/// What turns a join away: a JSON text component.
pub open spec fn login_disconnect(kick_text: Seq<char>) -> Seq<u8> {
    text_payload(object_text(seq![("text"@, quoted(kick_text))]))
}

/// Builds the payload that turns a join away. At this point of the exchange
/// every version of the protocol takes JSON.
pub fn build_login_disconnect_payload(kick_text: &str) -> (payload: Vec<u8>)
    ensures
        payload@ == login_disconnect(kick_text@),
{
    let json = render(&text_value(kick_text));
    build_text_payload(json.as_str())
}

// ---------------------------------------------------------------------
// The exchange
// ---------------------------------------------------------------------

/// What packet is awaited.
#[derive(Debug, Clone, Copy, PartialEq, Eq, Structural)]
pub enum SlpState {
    AwaitingHandshake,
    AwaitingStatusRequest,
    AwaitingPing,
    AwaitingLoginStart,
    Closed,
}

/// What comes from the client.
pub enum SlpEvent {
    /// A packet: its id and its payload.
    Packet(i32, Vec<u8>),
    /// No packet could be read.
    ReadFailed,
}

/// What to do next.
pub enum SlpAction {
    /// Read the next packet.
    Read,
    /// Send this, and read the next packet. The exchange has failed if it
    /// cannot be sent.
    SendAndRead(Vec<u8>),
    /// Send this, and close the connection. The exchange has failed if it
    /// cannot be sent.
    SendAndClose(Vec<u8>),
    /// Send this if it can be sent, and close the connection.
    EchoAndClose(Vec<u8>),
    /// Close the connection.
    Close,
    /// The exchange has failed on the packet.
    Fail(PacketError),
    /// The exchange has failed on the reading.
    GiveUp,
}

/// What an action is.
pub enum SlpActionView {
    Read,
    SendAndRead(Seq<u8>),
    SendAndClose(Seq<u8>),
    EchoAndClose(Seq<u8>),
    Close,
    Fail(PacketError),
    GiveUp,
}

impl View for SlpAction {
    type V = SlpActionView;

    open spec fn view(&self) -> SlpActionView {
        match self {
            SlpAction::Read => SlpActionView::Read,
            SlpAction::SendAndRead(bytes) => SlpActionView::SendAndRead(bytes@),
            SlpAction::SendAndClose(bytes) => SlpActionView::SendAndClose(bytes@),
            SlpAction::EchoAndClose(bytes) => SlpActionView::EchoAndClose(bytes@),
            SlpAction::Close => SlpActionView::Close,
            SlpAction::Fail(e) => SlpActionView::Fail(*e),
            SlpAction::GiveUp => SlpActionView::GiveUp,
        }
    }
}

/// What is done about a packet, and what is awaited then.
pub open spec fn on_packet(
    state: SlpState,
    packet_id: int,
    payload: Seq<u8>,
    status: Seq<char>,
    kick_text: Seq<char>,
) -> (SlpState, SlpActionView) {
    match state {
        SlpState::AwaitingHandshake => if packet_id != 0 {
            (SlpState::Closed, SlpActionView::Fail(PacketError::ExpectedHandshake))
        } else {
            match handshake_fields(payload) {
                Err(e) => (SlpState::Closed, SlpActionView::Fail(e)),
                Ok((protocol_version, next_state)) => if next_state == 1 {
                    (SlpState::AwaitingStatusRequest, SlpActionView::Read)
                } else if next_state == 2 {
                    (SlpState::AwaitingLoginStart, SlpActionView::Read)
                } else {
                    (
                        SlpState::Closed,
                        SlpActionView::Fail(PacketError::UnsupportedNextState(next_state as i32)),
                    )
                },
            }
        },
        SlpState::AwaitingStatusRequest => if packet_id != 0 {
            (SlpState::Closed, SlpActionView::Fail(PacketError::ExpectedStatusRequest))
        } else {
            (SlpState::AwaitingPing, SlpActionView::SendAndRead(framed(0, text_payload(status))))
        },
        SlpState::AwaitingPing => if packet_id == 1 {
            (SlpState::Closed, SlpActionView::EchoAndClose(framed(1, payload)))
        } else {
            (SlpState::Closed, SlpActionView::Close)
        },
        SlpState::AwaitingLoginStart => if packet_id != 0 {
            (SlpState::Closed, SlpActionView::Fail(PacketError::ExpectedLoginStart))
        } else {
            (
                SlpState::Closed,
                SlpActionView::SendAndClose(framed(0, login_disconnect(kick_text))),
            )
        },
        SlpState::Closed => (SlpState::Closed, SlpActionView::Close),
    }
}

/// What is done where no packet could be read: a client need not send the
/// ping that is awaited last.
pub open spec fn on_read_failure(state: SlpState) -> SlpActionView {
    match state {
        SlpState::AwaitingPing => SlpActionView::Close,
        SlpState::Closed => SlpActionView::Close,
        _ => SlpActionView::GiveUp,
    }
}

/// Takes the exchange with a client one step further. A handshake says whether
/// the client asks for the status or joins; the former gets the status, and
/// its ping back if it sends one, and the latter is turned away.
pub fn slp_step(state: SlpState, event: &SlpEvent, status_json: &str, kick_text: &str) -> (result: (
    SlpState,
    SlpAction,
))
    ensures
        match *event {
            SlpEvent::Packet(packet_id, payload) => (result.0, result.1@) == on_packet(
                state,
                packet_id as int,
                payload@,
                status_json@,
                kick_text@,
            ),
            SlpEvent::ReadFailed => result.0 == SlpState::Closed && result.1@ == on_read_failure(
                state,
            ),
        },
{
    let (packet_id, payload): (i32, &Vec<u8>) = match event {
        SlpEvent::Packet(packet_id, payload) => (*packet_id, payload),
        SlpEvent::ReadFailed => {
            return match state {
                SlpState::AwaitingPing => (SlpState::Closed, SlpAction::Close),
                SlpState::Closed => (SlpState::Closed, SlpAction::Close),
                _ => (SlpState::Closed, SlpAction::GiveUp),
            };
        },
    };
    match state {
        SlpState::AwaitingHandshake => {
            if packet_id != 0 {
                return (SlpState::Closed, SlpAction::Fail(PacketError::ExpectedHandshake));
            }
            match parse_handshake(payload.as_slice()) {
                Err(e) => (SlpState::Closed, SlpAction::Fail(e)),
                Ok((_, next_state)) => if next_state == 1 {
                    (SlpState::AwaitingStatusRequest, SlpAction::Read)
                } else if next_state == 2 {
                    (SlpState::AwaitingLoginStart, SlpAction::Read)
                } else {
                    (
                        SlpState::Closed,
                        SlpAction::Fail(PacketError::UnsupportedNextState(next_state)),
                    )
                },
            }
        },
        SlpState::AwaitingStatusRequest => {
            if packet_id != 0 {
                return (SlpState::Closed, SlpAction::Fail(PacketError::ExpectedStatusRequest));
            }
            let status_payload = build_text_payload(status_json);
            (
                SlpState::AwaitingPing,
                SlpAction::SendAndRead(frame_packet(0, status_payload.as_slice())),
            )
        },
        SlpState::AwaitingPing => {
            if packet_id == 1 {
                (
                    SlpState::Closed,
                    SlpAction::EchoAndClose(frame_packet(1, payload.as_slice())),
                )
            } else {
                (SlpState::Closed, SlpAction::Close)
            }
        },
        SlpState::AwaitingLoginStart => {
            if packet_id != 0 {
                return (SlpState::Closed, SlpAction::Fail(PacketError::ExpectedLoginStart));
            }
            let kick = build_login_disconnect_payload(kick_text);
            (SlpState::Closed, SlpAction::SendAndClose(frame_packet(0, kick.as_slice())))
        },
        SlpState::Closed => (SlpState::Closed, SlpAction::Close),
    }
}

/// How an exchange came to its end.
#[derive(Debug, Clone, Copy, PartialEq, Eq, Structural)]
pub enum SlpOutcome {
    Finished,
    Failed,
    TimedOut,
}

/// What the plugin has done about the failure of the target: it has dealt with
/// the client only where the exchange came to its proper end.
pub fn failure_action(outcome: SlpOutcome) -> (action: FailureAction)
    ensures
        action == if outcome == SlpOutcome::Finished {
            FailureAction::Handled
        } else {
            FailureAction::PassThrough
        },
{
    match outcome {
        SlpOutcome::Finished => FailureAction::Handled,
        SlpOutcome::Failed => FailureAction::PassThrough,
        SlpOutcome::TimedOut => FailureAction::PassThrough,
    }
}

} // verus!
