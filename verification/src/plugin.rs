//! What plugins are told and what they answer, and what a client's first
//! packet says of it.

use vstd::prelude::*;
use vstd::slice::{slice_subrange, slice_to_vec};

use crate::net::SocketAddr;
use crate::text::{push_signed_decimal, signed_decimal};
use crate::varint::{as_signed, decode_at, decoded, to_signed, MAX_VARINT_BYTES};

verus! {

/// Direction of a chunk of data, seen from the target.
#[derive(Debug, Clone, Copy, PartialEq, Eq, Structural)]
pub enum Direction {
    ClientToTarget,
    TargetToClient,
}

/// What a plugin is told once every target has failed.
#[derive(Debug, Clone)]
pub struct FailureContext {
    pub client_addr: SocketAddr,
    pub listen_addr: SocketAddr,
    /// The target that was tried last.
    pub target_addr: SocketAddr,
    /// Why the last target failed.
    pub error: String,
}

/// What a plugin did about the failure of every target.
#[derive(Debug, Clone, Copy, PartialEq, Eq, Structural)]
pub enum FailureAction {
    /// The plugin has dealt with the client.
    Handled,
    /// The plugin has not.
    PassThrough,
}

/// What a client does, as its handshake says.
#[derive(Debug, Clone, Copy, PartialEq, Eq, Structural)]
pub enum PacketKind {
    /// It asks for the status, for the server list.
    StatusPing,
    /// It joins.
    LoginAttempt,
}

impl PacketKind {
    pub open spec fn text(self) -> Seq<char> {
        match self {
            PacketKind::StatusPing => "ping"@,
            PacketKind::LoginAttempt => "join"@,
        }
    }

    /// The word for it in the log.
    pub fn as_str(&self) -> (text: &'static str)
        ensures
            text@ == self.text(),
    {
        match self {
            PacketKind::StatusPing => "ping",
            PacketKind::LoginAttempt => "join",
        }
    }
}

/// Why a packet is not what it should be.
#[derive(Debug, Clone, Copy, PartialEq, Eq, Structural)]
pub enum PacketError {
    UnexpectedEof,
    VarIntTooLong,
    InvalidAddressLength,
    InvalidPacketLength,
    ExpectedHandshake,
    ExpectedStatusRequest,
    ExpectedLoginStart,
    UnsupportedNextState(i32),
}

impl PacketError {
    pub open spec fn text(self) -> Seq<char> {
        match self {
            PacketError::UnexpectedEof => "failed to fill whole buffer"@,
            PacketError::VarIntTooLong => "VarInt too long"@,
            PacketError::InvalidAddressLength => "invalid server address length"@,
            PacketError::InvalidPacketLength => "invalid packet length"@,
            PacketError::ExpectedHandshake => "expected handshake packet"@,
            PacketError::ExpectedStatusRequest => "expected status request packet"@,
            PacketError::ExpectedLoginStart => "expected login start packet"@,
            PacketError::UnsupportedNextState(next_state) => "handshake requested next_state="@
                + signed_decimal(next_state as int) + ", not status or login"@,
        }
    }

    /// The error in words.
    pub fn message(&self) -> (text: String)
        ensures
            text@ == self.text(),
    {
        match self {
            PacketError::UnexpectedEof => "failed to fill whole buffer".to_string(),
            PacketError::VarIntTooLong => "VarInt too long".to_string(),
            PacketError::InvalidAddressLength => "invalid server address length".to_string(),
            PacketError::InvalidPacketLength => "invalid packet length".to_string(),
            PacketError::ExpectedHandshake => "expected handshake packet".to_string(),
            PacketError::ExpectedStatusRequest => "expected status request packet".to_string(),
            PacketError::ExpectedLoginStart => "expected login start packet".to_string(),
            PacketError::UnsupportedNextState(next_state) => {
                let mut text = "handshake requested next_state=".to_string();
                push_signed_decimal(&mut text, *next_state as i64);
                text.append(", not status or login");
                text
            },
        }
    }
}

/// A place in a slice of bytes.
#[derive(Debug, Clone, Copy)]
pub struct Cursor<'a> {
    pub data: &'a [u8],
    pub pos: usize,
}

impl<'a> Cursor<'a> {
    pub open spec fn wf(&self) -> bool {
        self.pos <= self.data@.len()
    }

    /// The bytes that are left.
    pub open spec fn rest(&self) -> Seq<u8> {
        self.data@.skip(self.pos as int)
    }

    /// A cursor at the beginning.
    pub fn new(data: &'a [u8]) -> (cursor: Cursor<'a>)
        ensures
            cursor.wf(),
            cursor.data == data,
            cursor.pos == 0,
    {
        Cursor { data, pos: 0 }
    }

    pub fn position(&self) -> (pos: usize)
        ensures
            pos == self.pos,
    {
        self.pos
    }
}

/// The variable-length integer that `s` starts with, and how many bytes it
/// takes.
pub open spec fn leading_varint(s: Seq<u8>) -> Result<(int, nat), PacketError> {
    match decoded(s) {
        Some((v, n)) => Ok((as_signed(v), n)),
        None => if s.len() >= MAX_VARINT_BYTES {
            Err(PacketError::VarIntTooLong)
        } else {
            Err(PacketError::UnexpectedEof)
        },
    }
}

/// Reads a variable-length integer.
pub fn read_varint_from_slice(cursor: &mut Cursor) -> (result: Result<i32, PacketError>)
    requires
        old(cursor).wf(),
    ensures
        final(cursor).wf(),
        final(cursor).data == old(cursor).data,
        match result {
            Ok(v) => leading_varint(old(cursor).rest()) == Ok::<(int, nat), PacketError>(
                (v as int, (final(cursor).pos - old(cursor).pos) as nat),
            ) && old(cursor).pos < final(cursor).pos,
            Err(e) => leading_varint(old(cursor).rest()) == Err::<(int, nat), PacketError>(e)
                && final(cursor).pos == if e == PacketError::VarIntTooLong {
                old(cursor).pos + MAX_VARINT_BYTES
            } else {
                old(cursor).data@.len() as int
            },
        },
{
    let len: usize = cursor.data.len();
    match decode_at(cursor.data, cursor.pos) {
        Some((v, n)) => {
            cursor.pos = cursor.pos + n;
            Ok(to_signed(v))
        },
        None => {
            if len - cursor.pos >= MAX_VARINT_BYTES as usize {
                cursor.pos = cursor.pos + MAX_VARINT_BYTES as usize;
                Err(PacketError::VarIntTooLong)
            } else {
                cursor.pos = len;
                Err(PacketError::UnexpectedEof)
            }
        },
    }
}

/// The protocol version and the next state in the body of a handshake: a
/// variable-length integer, a string with its length before it, two bytes, and
/// another variable-length integer.
pub open spec fn handshake_fields(body: Seq<u8>) -> Result<(int, int), PacketError> {
    match leading_varint(body) {
        Err(e) => Err(e),
        Ok((protocol_version, n)) => match leading_varint(body.skip(n as int)) {
            Err(e) => Err(e),
            Ok((addr_len, m)) => if addr_len < 0 {
                Err(PacketError::InvalidAddressLength)
            } else if n + m + addr_len + 2 > body.len() {
                Err(PacketError::UnexpectedEof)
            } else {
                match leading_varint(body.skip(n + m + addr_len + 2)) {
                    Err(e) => Err(e),
                    Ok((next_state, k)) => Ok((protocol_version, next_state)),
                }
            },
        },
    }
}

/// Reads the protocol version and the next state from the body of a handshake.
pub fn parse_handshake(body: &[u8]) -> (result: Result<(i32, i32), PacketError>)
    ensures
        match result {
            Ok((protocol_version, next_state)) => handshake_fields(body@) == Ok::<
                (int, int),
                PacketError,
            >((protocol_version as int, next_state as int)),
            Err(e) => handshake_fields(body@) == Err::<(int, int), PacketError>(e),
        },
{
    let mut cursor = Cursor::new(body);
    assert(body@.skip(0) =~= body@);
    let protocol_version: i32 = match read_varint_from_slice(&mut cursor) {
        Ok(v) => v,
        Err(e) => {
            return Err(e);
        },
    };
    let addr_len: i32 = match read_varint_from_slice(&mut cursor) {
        Ok(v) => v,
        Err(e) => {
            return Err(e);
        },
    };
    if addr_len < 0 {
        return Err(PacketError::InvalidAddressLength);
    }
    let left: usize = body.len() - cursor.pos;
    if left < 2 || left - 2 < addr_len as usize {
        return Err(PacketError::UnexpectedEof);
    }
    cursor.pos = cursor.pos + addr_len as usize + 2;
    match read_varint_from_slice(&mut cursor) {
        Ok(next_state) => Ok((protocol_version, next_state)),
        Err(e) => Err(e),
    }
}

/// What a packet with its length before it says of the client, if it is a
/// handshake.
pub open spec fn handshake_kind(packet: Seq<u8>) -> Option<PacketKind> {
    match leading_varint(packet) {
        Err(e) => None,
        Ok((len, n)) => match leading_varint(packet.skip(n as int)) {
            Err(e) => None,
            Ok((packet_id, m)) => if packet_id != 0 {
                None
            } else {
                match handshake_fields(packet.skip((n + m) as int)) {
                    Err(e) => None,
                    Ok((protocol_version, next_state)) => if next_state == 1 {
                        Some(PacketKind::StatusPing)
                    } else if next_state == 2 {
                        Some(PacketKind::LoginAttempt)
                    } else {
                        None
                    },
                }
            },
        },
    }
}

/// What a packet says of the client, if it is a handshake.
pub fn detect_handshake_kind(packet: &[u8]) -> (kind: Option<PacketKind>)
    ensures
        kind == handshake_kind(packet@),
{
    let mut cursor = Cursor::new(packet);
    assert(packet@.skip(0) =~= packet@);
    if read_varint_from_slice(&mut cursor).is_err() {
        return None;
    }
    let packet_id: i32 = match read_varint_from_slice(&mut cursor) {
        Ok(v) => v,
        Err(_) => {
            return None;
        },
    };
    if packet_id != 0 {
        return None;
    }
    let body = slice_subrange(packet, cursor.pos, packet.len());
    assert(body@ =~= packet@.skip(cursor.pos as int));
    match parse_handshake(body) {
        Ok((_, next_state)) => if next_state == 1 {
            Some(PacketKind::StatusPing)
        } else if next_state == 2 {
            Some(PacketKind::LoginAttempt)
        } else {
            None
        },
        Err(_) => None,
    }
}

/// Bytes of a connection that are looked at most to find out what the client
/// does.
pub const PROBE_BUFFER_LEN: usize = 512;

/// Milliseconds to wait for each look to show more than the one before.
pub const PROBE_WAIT_MS: u64 = 200;

/// Longest first packet that is looked at.
pub const MAX_FIRST_PACKET_LEN: i32 = 4096;

/// What has been seen of a client's first packet.
pub struct FirstPacketProbe {
    pub seen: Vec<u8>,
}

/// What to do after a look at the connection.
#[derive(Debug, Clone, Copy, PartialEq, Eq, Structural)]
pub enum ProbeStep {
    /// Look again: there is more to come.
    Peek,
    /// What the client does, and whether it speaks the protocol. Its bytes are
    /// left in the connection.
    Done(Option<PacketKind>, bool),
}

/// The end of a probe that has come to a kind or not.
pub open spec fn probe_done(kind: Option<PacketKind>) -> ProbeStep {
    ProbeStep::Done(kind, kind is Some)
}

/// The step after a look that shows these bytes, counted from the beginning of
/// the connection. A look that shows nothing is the last one: what was seen
/// before it counts.
pub open spec fn probe_step(seen: Seq<u8>, visible: Seq<u8>) -> ProbeStep {
    if visible.len() == 0 {
        probe_done(handshake_kind(seen))
    } else {
        match leading_varint(visible) {
            Err(PacketError::UnexpectedEof) => ProbeStep::Peek,
            Err(e) => probe_done(None),
            Ok((len, n)) => if len < 1 || len > MAX_FIRST_PACKET_LEN {
                probe_done(None)
            } else if visible.len() >= n + len {
                probe_done(handshake_kind(visible.take(n + len)))
            } else if visible.len() >= PROBE_BUFFER_LEN {
                probe_done(handshake_kind(visible))
            } else {
                ProbeStep::Peek
            },
        }
    }
}

impl FirstPacketProbe {
    /// Nothing seen yet.
    pub fn new() -> (probe: Self)
        ensures
            probe.seen@ == Seq::<u8>::empty(),
    {
        FirstPacketProbe { seen: Vec::new() }
    }

    /// Takes in what one look at the connection has shown: nothing where the
    /// look failed, or timed out, or found the connection closed.
    pub fn step(&mut self, visible: &[u8]) -> (step: ProbeStep)
        ensures
            step == probe_step(old(self).seen@, visible@),
            final(self).seen@ == if visible@.len() == 0 {
                old(self).seen@
            } else {
                visible@
            },
    {
        if visible.len() == 0 {
            let kind = detect_handshake_kind(self.seen.as_slice());
            let is_minecraft = kind.is_some();
            return ProbeStep::Done(kind, is_minecraft);
        }
        self.seen = slice_to_vec(visible);
        let mut cursor = Cursor::new(visible);
        assert(visible@.skip(0) =~= visible@);
        let len: i32 = match read_varint_from_slice(&mut cursor) {
            Ok(v) => v,
            Err(e) => {
                return if e == PacketError::UnexpectedEof {
                    ProbeStep::Peek
                } else {
                    ProbeStep::Done(None, false)
                };
            },
        };
        if len < 1 || len > MAX_FIRST_PACKET_LEN {
            return ProbeStep::Done(None, false);
        }
        let end: usize = if visible.len() - cursor.pos >= len as usize {
            cursor.pos + len as usize
        } else if visible.len() >= PROBE_BUFFER_LEN {
            visible.len()
        } else {
            return ProbeStep::Peek;
        };
        let packet = slice_subrange(visible, 0, end);
        assert(packet@ =~= visible@.take(end as int));
        assert(visible@.take(visible@.len() as int) =~= visible@);
        let kind = detect_handshake_kind(packet);
        let is_minecraft = kind.is_some();
        ProbeStep::Done(kind, is_minecraft)
    }
}

} // verus!
