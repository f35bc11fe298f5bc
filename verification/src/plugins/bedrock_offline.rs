//! Offline support for Minecraft: Bedrock Edition.

use std::collections::HashSet;
use std::time::Instant;

use vstd::prelude::*;
use vstd::slice::slice_subrange;
use vstd::utf8::encode_utf8;

use crate::bytes::{
    be16_at, i64_be, le24_at, low_three_le, push_bytes, push_i64_be, push_low_three_le, push_u16_be,
    read_u16_be, read_u24_le, u16_be,
};
use crate::net::{AddrView, SocketAddr};
use crate::plugins::raknet::{
    ack, batch, batch_of, batch_packets, build_ack, contents, fragment_header, frames, is_fragment,
    parse_fragment_header, parse_frame_payloads, push_address, split_batch_packets, wire_address,
    zigzag, zigzag_encode, FragmentHeader, RAKNET_MAGIC,
};
use crate::text::{
    bytes_eq, decimal, hex_digit, push_decimal, push_hex_byte, push_signed_decimal, signed_decimal,
};
use crate::time::{unix_time, Duration};
use crate::varint::{decode_at, decoded, encoded, push_varint};

verus! {

broadcast use vstd::std_specs::hash::group_hash_axioms;

pub const ID_UNCONNECTED_PING: u8 = 0x01;

pub const ID_UNCONNECTED_PING_OPEN_CONNECTIONS: u8 = 0x02;

pub const ID_UNCONNECTED_PONG: u8 = 0x1c;

pub const ID_OPEN_CONNECTION_REQUEST_1: u8 = 0x05;

pub const ID_OPEN_CONNECTION_REPLY_1: u8 = 0x06;

pub const ID_OPEN_CONNECTION_REQUEST_2: u8 = 0x07;

pub const ID_OPEN_CONNECTION_REPLY_2: u8 = 0x08;

pub const ID_CONNECTION_REQUEST: u8 = 0x09;

pub const ID_CONNECTION_REQUEST_ACCEPTED: u8 = 0x10;

pub const ID_NEW_INCOMING_CONNECTION: u8 = 0x13;

pub const ID_CONNECTED_PING: u8 = 0x00;

/// Reliability of every frame that is sent.
pub const RELIABLE_ORDERED: u8 = 3;

pub const MC_ID_REQUEST_NETWORK_SETTINGS: [u8; 2] = [0xC1, 0x01];

pub const MC_ID_NETWORK_SETTINGS: [u8; 2] = [0x8F, 0x01];

pub const MC_ID_DISCONNECT: u8 = 0x05;

/// Seconds that a fake handshake may sit idle before its state is dropped. A
/// client that is still trying simply starts over.
pub const FAKE_SESSION_IDLE_TIMEOUT: u64 = 15;

/// Real logins take far fewer fragments. The generous ceiling keeps large
/// logins working and bounds the state that a client can make the server hold.
pub const MAX_TRACKED_LOGIN_FRAGMENTS: u32 = 4_096;

/// Smallest valid Unconnected Ping: an id, eight bytes of time and the magic.
/// A real client also appends its own eight-byte identifier.
pub const MIN_PING_LEN: usize = 25;

/// What the plugin tells a client.
#[derive(Debug)]
pub struct BedrockOfflineConfig {
    pub motd_line1: String,
    pub motd_line2: String,
    /// Identifier reported as that of the server. It need not match anything
    /// real, since no connection is ever accepted.
    pub server_guid: i64,
}

impl Clone for BedrockOfflineConfig {
    fn clone(&self) -> (copy: Self)
        ensures
            copy.motd_line1@ == self.motd_line1@,
            copy.motd_line2@ == self.motd_line2@,
            copy.server_guid == self.server_guid,
    {
        BedrockOfflineConfig {
            motd_line1: self.motd_line1.clone(),
            motd_line2: self.motd_line2.clone(),
            server_guid: self.server_guid,
        }
    }
}

/// The low 64 bits of a reading of the wall clock in nanoseconds, as a signed
/// number; zero where the clock stands before the epoch.
pub open spec fn guid_from_clock(since_epoch: Option<Duration>) -> i64 {
    match since_epoch {
        Some(d) => low_64_bits(d.nanos),
        None => 0,
    }
}

/// The signed number with the low 64 bits of `n`.
pub open spec fn low_64_bits(n: u128) -> i64 {
    let low = n % 0x1_0000_0000_0000_0000;
    if low < 0x8000_0000_0000_0000 {
        low as i64
    } else {
        (low - 0x1_0000_0000_0000_0000) as i64
    }
}

fn to_low_64_bits(n: u128) -> (v: i64)
    ensures
        v == low_64_bits(n),
{
    let low: u128 = n % 0x1_0000_0000_0000_0000;
    if low < 0x8000_0000_0000_0000 {
        low as i64
    } else {
        (low as i128 - 0x1_0000_0000_0000_0000) as i64
    }
}

impl BedrockOfflineConfig {
    /// A configuration that reports an identifier taken from the wall clock.
    pub fn new(motd_line1: String, motd_line2: String) -> (config: Self)
        ensures
            config.motd_line1 == motd_line1,
            config.motd_line2 == motd_line2,
            exists|clock: Option<Duration>| config.server_guid == #[trigger] guid_from_clock(clock),
    {
        Self::at(motd_line1, motd_line2, unix_time())
    }

    /// A configuration for a given reading of the wall clock.
    pub fn at(motd_line1: String, motd_line2: String, since_epoch: Option<Duration>) -> (config:
        Self)
        ensures
            config.motd_line1 == motd_line1,
            config.motd_line2 == motd_line2,
            config.server_guid == guid_from_clock(since_epoch),
    {
        let server_guid: i64 = match since_epoch {
            Some(d) => to_low_64_bits(d.nanos),
            None => 0,
        };
        BedrockOfflineConfig { motd_line1, motd_line2, server_guid }
    }
}

/// First line shown where none is configured. It carries no color codes: the
/// disconnect screen would show them literally.
pub fn default_motd_line1() -> (line: String)
    ensures
        line@ == "伺服器無法連線！ / Server unreachable!"@,
{
    "伺服器無法連線！ / Server unreachable!".to_string()
}

/// Second line shown where none is configured.
pub fn default_motd_line2() -> (line: String)
    ensures
        line@ == "請稍後再試 / Please Try Again"@,
{
    "請稍後再試 / Please Try Again".to_string()
}

/// An Unconnected Ping of either kind: the id, and the magic behind the time.
pub open spec fn unconnected_ping(data: Seq<u8>) -> bool {
    &&& data.len() >= MIN_PING_LEN
    &&& data[0] == ID_UNCONNECTED_PING || data[0] == ID_UNCONNECTED_PING_OPEN_CONNECTIONS
    &&& data.subrange(9, 25) == RAKNET_MAGIC@
}

/// Whether `data` is an Unconnected Ping of either kind.
pub fn is_unconnected_ping(data: &[u8]) -> (ping: bool)
    ensures
        ping == unconnected_ping(data@),
{
    if data.len() < MIN_PING_LEN {
        return false;
    }
    let id = data[0];
    if id != ID_UNCONNECTED_PING && id != ID_UNCONNECTED_PING_OPEN_CONNECTIONS {
        return false;
    }
    bytes_eq(slice_subrange(data, 9, 25), &RAKNET_MAGIC)
}

/// `field` with a comma in place of every semicolon.
pub open spec fn sanitized(field: Seq<char>) -> Seq<char> {
    Seq::new(
        field.len(),
        |i: int|
            if field[i] == ';' {
                ','
            } else {
                field[i]
            },
    )
}

/// The fields of a server-list entry are delimited by semicolons; those that
/// sneak into configured text are replaced, so that no value can shift the
/// fields behind it.
pub fn sanitize(field: &str) -> (clean: String)
    ensures
        clean@ == sanitized(field@),
{
    let mut clean = String::new();
    for c in it: field.chars()
        invariant
            it.seq() == field@,
            clean@ == sanitized(field@).take(it.index() as int),
    {
        if c == ';' {
            clean.push(',');
        } else {
            clean.push(c);
        }
        assert(sanitized(field@).take(it.index() + 1) =~= sanitized(field@).take(
            it.index() as int,
        ).push(sanitized(field@)[it.index() as int]));
    }
    assert(sanitized(field@).take(field@.len() as int) =~= sanitized(field@));
    clean
}

/// A sanitized field holds no delimiter and keeps its length.
pub proof fn sanitized_has_no_delimiter(field: Seq<char>)
    ensures
        !sanitized(field).contains(';'),
        sanitized(field).len() == field.len(),
{
}

/// The server-list entry: fields delimited by semicolons.
pub open spec fn motd(config: &BedrockOfflineConfig, listen_port: u16) -> Seq<char> {
    "MCPE;"@ + sanitized(config.motd_line1@) + ";766;1.21.60;0;20;"@ + signed_decimal(
        config.server_guid as int,
    ) + seq![';'] + sanitized(config.motd_line2@) + ";Survival;1;"@ + decimal(listen_port as nat)
        + seq![';'] + decimal(listen_port as nat) + seq![';']
}

/// The reply to a ping: its time echoed, the identifier, the magic and the
/// server-list entry with its length.
pub open spec fn unconnected_pong(
    ping: Seq<u8>,
    config: &BedrockOfflineConfig,
    listen_port: u16,
) -> Seq<u8> {
    let entry = encode_utf8(motd(config, listen_port));
    seq![ID_UNCONNECTED_PONG] + ping.subrange(1, 9) + i64_be(config.server_guid) + RAKNET_MAGIC@
        + u16_be((entry.len() % 65536) as u16) + entry
}

fn build_motd(config: &BedrockOfflineConfig, listen_port: u16) -> (entry: String)
    ensures
        entry@ == motd(config, listen_port),
{
    let mut entry = String::new();
    entry.append("MCPE;");
    entry.append(sanitize(config.motd_line1.as_str()).as_str());
    entry.append(";766;1.21.60;0;20;");
    push_signed_decimal(&mut entry, config.server_guid);
    entry.push(';');
    entry.append(sanitize(config.motd_line2.as_str()).as_str());
    entry.append(";Survival;1;");
    push_decimal(&mut entry, listen_port as u64);
    entry.push(';');
    push_decimal(&mut entry, listen_port as u64);
    entry.push(';');
    assert(entry@ =~= motd(config, listen_port));
    entry
}

/// The Unconnected Pong that answers `ping` with the configured text, or
/// `None` where `ping` is no Unconnected Ping.
pub fn build_unconnected_pong(
    ping: &[u8],
    config: &BedrockOfflineConfig,
    listen_port: u16,
) -> (pong: Option<Vec<u8>>)
    ensures
        pong is Some <==> unconnected_ping(ping@),
        pong matches Some(p) ==> p@ == unconnected_pong(ping@, config, listen_port),
{
    if !is_unconnected_ping(ping) {
        return None;
    }
    let entry = build_motd(config, listen_port);
    let entry_bytes = entry.as_str().as_bytes();

    let mut out: Vec<u8> = Vec::new();
    out.push(ID_UNCONNECTED_PONG);
    push_bytes(&mut out, slice_subrange(ping, 1, 9));
    push_i64_be(&mut out, config.server_guid);
    push_bytes(&mut out, &RAKNET_MAGIC);
    push_u16_be(&mut out, (entry_bytes.len() % 65536) as u16);
    push_bytes(&mut out, entry_bytes);
    assert(out@ =~= unconnected_pong(ping@, config, listen_port));
    Some(out)
}

/// The Unconnected Ping that asks a target whether it is there.
pub open spec fn ping_probe(millis: i64) -> Seq<u8> {
    seq![ID_UNCONNECTED_PING] + i64_be(millis) + RAKNET_MAGIC@
}

/// The ping for a given time.
pub fn ping_probe_at(millis: i64) -> (ping: Vec<u8>)
    ensures
        ping@ == ping_probe(millis),
{
    let mut out: Vec<u8> = Vec::new();
    out.push(ID_UNCONNECTED_PING);
    push_i64_be(&mut out, millis);
    push_bytes(&mut out, &RAKNET_MAGIC);
    assert(out@ =~= ping_probe(millis));
    out
}

/// The ping for the time now.
pub fn build_unconnected_ping_probe() -> (ping: Vec<u8>)
    ensures
        exists|clock: Option<Duration>| ping@ == ping_probe(#[trigger] millis_at(clock)),
{
    ping_probe_at(now_millis())
}

/// Whether `reply` is a whole Unconnected Pong that echoes the time in `ping`.
pub open spec fn pong_matches(ping: Seq<u8>, reply: Seq<u8>) -> bool {
    &&& reply.len() >= 35
    &&& reply[0] == ID_UNCONNECTED_PONG
    &&& reply.subrange(1, 9) == ping.subrange(1, 9)
    &&& reply.subrange(17, 33) == RAKNET_MAGIC@
    &&& reply.len() == 35 + be16_at(reply, 33)
}

/// Whether a target's reply to the probe `ping` shows that it is there.
pub fn is_pong_for(ping: &[u8], reply: &[u8]) -> (valid: bool)
    requires
        ping@.len() >= 9,
    ensures
        valid == pong_matches(ping@, reply@),
{
    if reply.len() < 35 {
        return false;
    }
    let declared_length: usize = read_u16_be(reply, 33) as usize;
    reply[0] == ID_UNCONNECTED_PONG && bytes_eq(
        slice_subrange(reply, 1, 9),
        slice_subrange(ping, 1, 9),
    ) && bytes_eq(slice_subrange(reply, 17, 33), &RAKNET_MAGIC) && reply.len() - 35
        == declared_length
}

// ---------------------------------------------------------------------
// Join attempt: a fake handshake that ends in a disconnect
// ---------------------------------------------------------------------

/// How far a client has come in the fake handshake.
#[derive(Debug, Clone, Copy, PartialEq, Eq, Structural)]
pub enum Stage {
    AwaitingConnectionRequest,
    AwaitingNewIncomingConnection,
    AwaitingNetworkSettingsRequest,
    AwaitingLoginAttempt,
    Done,
}

/// The fake connection of one client.
pub struct FakeSession {
    pub stage: Stage,
    pub out_seq: u32,
    pub out_reliable_index: u32,
    pub out_order_index: u32,
    pub last_activity: Instant,
    /// The split login packet in progress: its id, the number of its
    /// fragments, and the indices seen so far. A login holds several kilobytes
    /// and always arrives in fragments; a disconnect after the first one would
    /// come in the middle of the client's own packet.
    pub pending_split: Option<(u16, u32, HashSet<u32>)>,
}

/// A split packet in progress: its id, the number of its fragments, and the
/// indices seen so far.
pub type PendingSplit = Option<(u16, u32, Set<u32>)>;

/// What a session is.
pub struct SessionView {
    pub stage: Stage,
    pub out_seq: u32,
    pub out_reliable_index: u32,
    pub out_order_index: u32,
    pub last_activity: Instant,
    pub pending_split: PendingSplit,
}

impl View for FakeSession {
    type V = SessionView;

    open spec fn view(&self) -> SessionView {
        SessionView {
            stage: self.stage,
            out_seq: self.out_seq,
            out_reliable_index: self.out_reliable_index,
            out_order_index: self.out_order_index,
            last_activity: self.last_activity,
            pending_split: match self.pending_split {
                Some((id, count, seen)) => Some((id, count, seen@)),
                None => None,
            },
        }
    }
}

/// A split packet in progress is within the limits: its fragments are
/// at most as many as the ceiling, and the indices seen are among them.
pub open spec fn split_within_limits(pending: PendingSplit) -> bool {
    pending matches Some((id, count, seen)) ==> {
        &&& 1 <= count <= MAX_TRACKED_LOGIN_FRAGMENTS
        &&& seen.finite()
        &&& forall|i: u32| #[trigger] seen.contains(i) ==> i < count
    }
}

/// How many frames a session sends at most from this stage on.
pub open spec fn frames_left(stage: Stage) -> nat {
    match stage {
        Stage::AwaitingConnectionRequest => 3,
        Stage::AwaitingNewIncomingConnection => 2,
        Stage::AwaitingNetworkSettingsRequest => 2,
        Stage::AwaitingLoginAttempt => 1,
        Stage::Done => 0,
    }
}

impl SessionView {
    /// The counters have room for the frames that are still to be sent, and
    /// the split packet in progress is within the limits.
    pub open spec fn valid(self) -> bool {
        &&& self.out_seq + frames_left(self.stage) <= u32::MAX
        &&& self.out_reliable_index + frames_left(self.stage) <= u32::MAX
        &&& self.out_order_index + frames_left(self.stage) <= u32::MAX
        &&& split_within_limits(self.pending_split)
    }

    /// The session after it has sent one frame.
    pub open spec fn sent_one(self) -> SessionView {
        SessionView {
            out_seq: (self.out_seq + 1) as u32,
            out_reliable_index: (self.out_reliable_index + 1) as u32,
            out_order_index: (self.out_order_index + 1) as u32,
            ..self
        }
    }

    /// The datagram that carries `payload` in one reliable, ordered frame.
    pub open spec fn wrapped(self, payload: Seq<u8>) -> Seq<u8> {
        seq![0x84u8] + low_three_le(self.out_seq) + seq![(RELIABLE_ORDERED * 32) as u8] + u16_be(
            (payload.len() % 65536 * 8) as u16,
        ) + low_three_le(self.out_reliable_index) + low_three_le(self.out_order_index) + seq![0u8]
            + payload
    }
}

/// Whether the length of a payload, in bits, fits in the two bytes that a
/// frame has for it.
pub open spec fn frame_fits(payload_len: nat) -> bool {
    payload_len % 65536 * 8 <= 65535
}

/// Whether a fragment's numbers are in order, given the split packet in
/// progress.
pub open spec fn fragment_accepted(pending: PendingSplit, fragment: FragmentHeader) -> bool {
    &&& 1 <= fragment.split_count <= MAX_TRACKED_LOGIN_FRAGMENTS
    &&& pending matches Some((id, count, seen)) ==> id == fragment.split_id ==> count
        == fragment.split_count
    &&& fragment.split_index < fragment.split_count
}

/// The split packet in progress once a fragment has arrived. A bad count, or
/// one that contradicts an earlier fragment, ends the tracking; a bad index
/// leaves it; another id starts it anew.
pub open spec fn split_after(pending: PendingSplit, fragment: FragmentHeader) -> PendingSplit {
    if fragment_accepted(pending, fragment) {
        let seen = match pending {
            Some((id, count, seen)) => if id == fragment.split_id {
                seen
            } else {
                Set::empty()
            },
            None => Set::empty(),
        };
        Some((fragment.split_id, fragment.split_count, seen.insert(fragment.split_index)))
    } else if fragment.split_count == 0 || fragment.split_count > MAX_TRACKED_LOGIN_FRAGMENTS {
        None
    } else if pending matches Some((id, count, seen)) && id == fragment.split_id && count
        != fragment.split_count {
        None
    } else {
        pending
    }
}

impl FakeSession {
    pub open spec fn wf(&self) -> bool {
        self@.valid()
    }

    /// A session that starts now.
    pub fn new() -> (session: Self)
        ensures
            exists|now: Instant| session@ == #[trigger] fresh_session(now),
            session.wf(),
    {
        Self::new_at(Instant::now())
    }

    /// A session that starts at `now`.
    pub fn new_at(now: Instant) -> (session: Self)
        ensures
            session@ == fresh_session(now),
            session.wf(),
    {
        FakeSession {
            stage: Stage::AwaitingConnectionRequest,
            out_seq: 0,
            out_reliable_index: 0,
            out_order_index: 0,
            last_activity: now,
            pending_split: None,
        }
    }

    /// Whether the client has been told to disconnect.
    pub fn is_done(&self) -> (done: bool)
        ensures
            done == (self@.stage == Stage::Done),
    {
        self.stage == Stage::Done
    }

    /// Records one fragment of a split packet. Returns how many fragments have
    /// been seen and how many are expected, or `None` where the fragment's
    /// numbers are not in order.
    pub fn record_fragment(
        &mut self,
        split_id: u16,
        split_count: u32,
        split_index: u32,
    ) -> (progress: Option<(usize, u32)>)
        requires
            split_within_limits(old(self)@.pending_split),
        ensures
            final(self)@ == (SessionView {
                pending_split: split_after(
                    old(self)@.pending_split,
                    (FragmentHeader { split_count, split_id, split_index }),
                ),
                ..old(self)@
            }),
            split_within_limits(final(self)@.pending_split),
            progress is Some <==> fragment_accepted(
                old(self)@.pending_split,
                (FragmentHeader { split_count, split_id, split_index }),
            ),
            progress matches Some((seen, expected)) ==> {
                &&& final(self)@.pending_split matches Some((id, count, indices))
                &&& seen == indices.len()
                &&& 1 <= seen <= expected
                &&& expected == split_count
            },
    {
        if split_count == 0 || split_count > MAX_TRACKED_LOGIN_FRAGMENTS {
            self.pending_split = None;
            return None;
        }
        let same_split = match &self.pending_split {
            Some((id, count, _)) => {
                if *id == split_id && *count != split_count {
                    self.pending_split = None;
                    return None;
                }
                *id == split_id
            },
            None => false,
        };
        if split_index >= split_count {
            return None;
        }
        let mut seen: HashSet<u32> = match self.pending_split.take() {
            Some((_, _, seen)) => if same_split {
                seen
            } else {
                HashSet::new()
            },
            None => HashSet::new(),
        };
        seen.insert(split_index);
        let total: usize = seen.len();
        proof {
            bounded_set_len(seen@, split_count as nat);
            if seen@.len() == 0 {
                assert(!seen@.contains(split_index));
            }
        }
        self.pending_split = Some((split_id, split_count, seen));
        Some((total, split_count))
    }

    /// Puts `payload` in a datagram of its own.
    pub fn wrap(&mut self, payload: &[u8]) -> (datagram: Vec<u8>)
        requires
            frame_fits(payload@.len()),
            old(self).out_seq < u32::MAX,
            old(self).out_reliable_index < u32::MAX,
            old(self).out_order_index < u32::MAX,
        ensures
            datagram@ == old(self)@.wrapped(payload@),
            final(self)@ == old(self)@.sent_one(),
    {
        let mut datagram: Vec<u8> = Vec::new();
        datagram.push(0x84);
        push_low_three_le(&mut datagram, self.out_seq);
        datagram.push(RELIABLE_ORDERED * 32);
        push_u16_be(&mut datagram, (payload.len() % 65536) as u16 * 8);
        push_low_three_le(&mut datagram, self.out_reliable_index);
        push_low_three_le(&mut datagram, self.out_order_index);
        datagram.push(0);
        push_bytes(&mut datagram, payload);
        self.out_seq = self.out_seq + 1;
        self.out_reliable_index = self.out_reliable_index + 1;
        self.out_order_index = self.out_order_index + 1;
        assert(datagram@ =~= old(self)@.wrapped(payload@));
        datagram
    }
}

/// A session that starts at `now`.
pub open spec fn fresh_session(now: Instant) -> SessionView {
    SessionView {
        stage: Stage::AwaitingConnectionRequest,
        out_seq: 0,
        out_reliable_index: 0,
        out_order_index: 0,
        last_activity: now,
        pending_split: None,
    }
}

/// A session that starts now.
pub fn new_session() -> (session: FakeSession)
    ensures
        exists|now: Instant| session@ == #[trigger] fresh_session(now),
        session.wf(),
{
    FakeSession::new()
}

/// A set of numbers below `n` has at most `n` members.
pub proof fn bounded_set_len(s: Set<u32>, n: nat)
    requires
        s.finite(),
        forall|i: u32| #[trigger] s.contains(i) ==> i < n,
        n <= u32::MAX,
    ensures
        s.len() <= n,
    decreases n,
{
    if n == 0 {
        assert(s =~= Set::empty());
    } else {
        let last = (n - 1) as u32;
        bounded_set_len(s.remove(last), (n - 1) as nat);
    }
}

/// Milliseconds since the Unix epoch: the low 64 bits, as a signed number;
/// zero where the clock stands before the epoch.
pub open spec fn millis_at(since_epoch: Option<Duration>) -> i64 {
    match since_epoch {
        Some(d) => low_64_bits(d.nanos / 1_000_000),
        None => 0,
    }
}

/// Milliseconds since the Unix epoch for a given reading of the wall clock.
pub fn millis_since_epoch(since_epoch: Option<Duration>) -> (millis: i64)
    ensures
        millis == millis_at(since_epoch),
{
    match since_epoch {
        Some(d) => to_low_64_bits(d.as_millis()),
        None => 0,
    }
}

/// Milliseconds since the Unix epoch.
pub fn now_millis() -> (millis: i64)
    ensures
        exists|clock: Option<Duration>| millis == #[trigger] millis_at(clock),
{
    millis_since_epoch(unix_time())
}

/// The reply to the first request: the magic, the identifier, no security,
/// and the size of datagrams that the request shows to pass.
pub open spec fn open_connection_reply_1(request: Seq<u8>, server_guid: i64) -> Option<Seq<u8>> {
    if request.len() < 17 || request.subrange(1, 17) != RAKNET_MAGIC@ {
        None
    } else {
        let len = request.len() % 65536;
        let mtu = if len < 46 {
            46u16
        } else if len > 1492 {
            1492u16
        } else {
            len as u16
        };
        Some(
            seq![ID_OPEN_CONNECTION_REPLY_1] + RAKNET_MAGIC@ + i64_be(server_guid) + seq![0u8]
                + u16_be(mtu),
        )
    }
}

/// Answers the first request of the handshake, or `None` where it is not one.
pub fn build_open_connection_reply_1(request: &[u8], server_guid: i64) -> (reply: Option<Vec<u8>>)
    ensures
        reply is Some <==> open_connection_reply_1(request@, server_guid) is Some,
        reply matches Some(r) ==> open_connection_reply_1(request@, server_guid) == Some(r@),
{
    if request.len() < 17 || !bytes_eq(slice_subrange(request, 1, 17), &RAKNET_MAGIC) {
        return None;
    }
    let len: u16 = (request.len() % 65536) as u16;
    let mtu: u16 = if len < 46 {
        46
    } else if len > 1492 {
        1492
    } else {
        len
    };
    let mut out: Vec<u8> = Vec::new();
    out.push(ID_OPEN_CONNECTION_REPLY_1);
    push_bytes(&mut out, &RAKNET_MAGIC);
    push_i64_be(&mut out, server_guid);
    out.push(0);
    push_u16_be(&mut out, mtu);
    assert(out@ =~= open_connection_reply_1(request@, server_guid)->0);
    Some(out)
}

/// The reply to the second request: the magic, the identifier, the client's
/// own address, the size that it asked for, and no encryption.
pub open spec fn open_connection_reply_2(
    request: Seq<u8>,
    client: AddrView,
    server_guid: i64,
) -> Option<Seq<u8>> {
    if request.len() < 34 || request.subrange(1, 17) != RAKNET_MAGIC@ {
        None
    } else {
        Some(
            seq![ID_OPEN_CONNECTION_REPLY_2] + RAKNET_MAGIC@ + i64_be(server_guid) + wire_address(
                client,
            ) + request.subrange(24, 26) + seq![0u8],
        )
    }
}

/// Answers the second request of the handshake, or `None` where it is not one.
pub fn build_open_connection_reply_2(
    request: &[u8],
    client_addr: &SocketAddr,
    server_guid: i64,
) -> (reply: Option<Vec<u8>>)
    ensures
        reply is Some <==> open_connection_reply_2(request@, client_addr@, server_guid) is Some,
        reply matches Some(r) ==> open_connection_reply_2(request@, client_addr@, server_guid)
            == Some(r@),
{
    if request.len() < 34 || !bytes_eq(slice_subrange(request, 1, 17), &RAKNET_MAGIC) {
        return None;
    }
    let mut out: Vec<u8> = Vec::new();
    out.push(ID_OPEN_CONNECTION_REPLY_2);
    push_bytes(&mut out, &RAKNET_MAGIC);
    push_i64_be(&mut out, server_guid);
    push_address(&mut out, client_addr);
    push_bytes(&mut out, slice_subrange(request, 24, 26));
    out.push(0);
    assert(out@ =~= open_connection_reply_2(request@, client_addr@, server_guid)->0);
    Some(out)
}

/// Ten times the address 0.0.0.0:0, as it stands on the wire.
pub open spec fn address_padding() -> Seq<u8> {
    Seq::new(
        70,
        |i: int|
            if i % 7 == 0 {
                4u8
            } else {
                0u8
            },
    )
}

/// What accepts a connection: the client's own address, unused fields, the
/// time in the request and the time now.
pub open spec fn connection_request_accepted(
    client: AddrView,
    request_timestamp: Seq<u8>,
    millis: i64,
) -> Seq<u8> {
    seq![ID_CONNECTION_REQUEST_ACCEPTED] + wire_address(client) + seq![0u8, 0] + address_padding()
        + request_timestamp + i64_be(millis)
}

fn accept_connection(client_addr: &SocketAddr, request_timestamp: &[u8], millis: i64) -> (body: Vec<
    u8,
>)
    ensures
        body@ == connection_request_accepted(client_addr@, request_timestamp@, millis),
{
    let mut body: Vec<u8> = Vec::new();
    body.push(ID_CONNECTION_REQUEST_ACCEPTED);
    push_address(&mut body, client_addr);
    push_u16_be(&mut body, 0);
    let padding = SocketAddr::v4([0, 0, 0, 0], 0);
    let ghost head = body@;
    for n in 0..10usize
        invariant
            padding@ == (AddrView::V4 { octets: [0u8, 0, 0, 0]@, port: 0 }),
            body@ == head + address_padding().take(7 * n),
    {
        push_address(&mut body, &padding);
        assert(body@ =~= head + address_padding().take(7 * (n + 1)));
    }
    push_bytes(&mut body, request_timestamp);
    push_i64_be(&mut body, millis);
    assert(body@ =~= connection_request_accepted(client_addr@, request_timestamp@, millis));
    body
}

/// Network settings that ask for no compression and no throttling.
pub open spec fn network_settings() -> Seq<u8> {
    batch_of(MC_ID_NETWORK_SETTINGS@ + seq![0u8, 0, 0xFF, 0xFF, 0, 0, 0, 0, 0, 0])
}

fn network_settings_batch() -> (out: Vec<u8>)
    ensures
        out@ == network_settings(),
{
    let mut packet: Vec<u8> = Vec::new();
    push_bytes(&mut packet, &MC_ID_NETWORK_SETTINGS);
    push_bytes(&mut packet, &[0, 0, 0xFF, 0xFF, 0, 0, 0, 0, 0, 0]);
    assert(packet@ =~= MC_ID_NETWORK_SETTINGS@ + seq![0u8, 0, 0xFF, 0xFF, 0, 0, 0, 0, 0, 0]);
    batch(packet.as_slice())
}

/// A string field: its length and its bytes.
pub open spec fn string_field(bytes: Seq<u8>) -> Seq<u8> {
    encoded(bytes.len() % 0x1_0000_0000) + bytes
}

/// A disconnect with the two lines as its message: an unknown reason, and the
/// message twice, since its filtered form goes with it.
pub open spec fn disconnect(line1: Seq<char>, line2: Seq<char>) -> Seq<u8> {
    let message = encode_utf8(line1 + seq!['\n'] + line2);
    batch_of(
        seq![MC_ID_DISCONNECT] + encoded(zigzag(0)) + encoded(0) + string_field(message)
            + string_field(message),
    )
}

fn push_string_field(out: &mut Vec<u8>, bytes: &[u8])
    ensures
        final(out)@ == old(out)@ + string_field(bytes@),
{
    push_varint(out, (bytes.len() as u64 % 0x1_0000_0000) as u32);
    push_bytes(out, bytes);
    assert(out@ =~= old(out)@ + string_field(bytes@));
}

fn disconnect_batch(motd_line1: &str, motd_line2: &str) -> (out: Vec<u8>)
    ensures
        out@ == disconnect(motd_line1@, motd_line2@),
{
    let mut message = String::new();
    message.append(motd_line1);
    message.push('\n');
    message.append(motd_line2);
    assert(message@ =~= motd_line1@ + seq!['\n'] + motd_line2@);
    let message_bytes = message.as_str().as_bytes();

    let mut packet: Vec<u8> = Vec::new();
    packet.push(MC_ID_DISCONNECT);
    push_varint(&mut packet, zigzag_encode(0));
    push_varint(&mut packet, 0);
    push_string_field(&mut packet, message_bytes);
    push_string_field(&mut packet, message_bytes);
    assert(packet@ =~= seq![MC_ID_DISCONNECT] + encoded(zigzag(0)) + encoded(0) + string_field(
        message_bytes@,
    ) + string_field(message_bytes@));
    batch(packet.as_slice())
}

/// Whether a disconnect with these two lines fits in one frame.
pub fn disconnect_fits(motd_line1: &str, motd_line2: &str) -> (fits: bool)
    ensures
        fits == frame_fits(disconnect(motd_line1@, motd_line2@).len()),
{
    let out = disconnect_batch(motd_line1, motd_line2);
    out.len() % 65536 <= 8191
}

/// What a reply depends on besides the session and the datagram.
pub struct Context {
    pub client: AddrView,
    pub server_guid: i64,
    pub line1: Seq<char>,
    pub line2: Seq<char>,
    pub now: Instant,
    pub millis: i64,
}

/// Whether a frame's payload asks for the network settings: some packet in it
/// starts with that request's id.
pub open spec fn requests_network_settings(payload: Seq<u8>) -> bool {
    exists|k: int|
        0 <= k < batch_packets(payload).len() && starts_with(
            #[trigger] batch_packets(payload)[k],
            MC_ID_REQUEST_NETWORK_SETTINGS@,
        )
}

pub open spec fn starts_with(data: Seq<u8>, prefix: Seq<u8>) -> bool {
    data.len() >= prefix.len() && data.take(prefix.len() as int) == prefix
}

/// The stage that a frame with this payload leads to.
pub open spec fn next_stage(stage: Stage, payload: Seq<u8>) -> Stage {
    match stage {
        Stage::AwaitingConnectionRequest => if payload.len() >= 17 && payload[0]
            == ID_CONNECTION_REQUEST {
            Stage::AwaitingNewIncomingConnection
        } else {
            stage
        },
        Stage::AwaitingNewIncomingConnection => if payload.len() > 0 && payload[0]
            == ID_NEW_INCOMING_CONNECTION {
            Stage::AwaitingNetworkSettingsRequest
        } else {
            stage
        },
        Stage::AwaitingNetworkSettingsRequest => if requests_network_settings(payload) {
            Stage::AwaitingLoginAttempt
        } else {
            stage
        },
        Stage::AwaitingLoginAttempt => if (payload.len() > 0 && payload[0] == ID_CONNECTED_PING)
            || requests_network_settings(payload) {
            stage
        } else {
            Stage::Done
        },
        Stage::Done => stage,
    }
}

/// What is sent in answer to a frame with this payload: something on the way
/// to every stage but one.
pub open spec fn answer(stage: Stage, payload: Seq<u8>, cx: Context) -> Option<Seq<u8>> {
    let next = next_stage(stage, payload);
    if next == stage {
        None
    } else {
        match next {
            Stage::AwaitingNewIncomingConnection => Some(
                connection_request_accepted(cx.client, payload.subrange(9, 17), cx.millis),
            ),
            Stage::AwaitingLoginAttempt => Some(network_settings()),
            Stage::Done => Some(disconnect(cx.line1, cx.line2)),
            _ => None,
        }
    }
}

/// The session after a frame.
pub open spec fn after_frame(s: SessionView, payload: Seq<u8>, cx: Context) -> SessionView {
    let moved = SessionView { stage: next_stage(s.stage, payload), ..s };
    match answer(s.stage, payload, cx) {
        Some(body) => moved.sent_one(),
        None => moved,
    }
}

/// The datagrams sent in answer to a frame.
pub open spec fn frame_replies(s: SessionView, payload: Seq<u8>, cx: Context) -> Seq<Seq<u8>> {
    match answer(s.stage, payload, cx) {
        Some(body) => seq![s.wrapped(body)],
        None => Seq::empty(),
    }
}

/// The session after a number of frames.
pub open spec fn after_frames(s: SessionView, payloads: Seq<Seq<u8>>, cx: Context) -> SessionView
    decreases payloads.len(),
{
    if payloads.len() == 0 {
        s
    } else {
        after_frame(after_frames(s, payloads.drop_last(), cx), payloads.last(), cx)
    }
}

/// The datagrams sent in answer to a number of frames.
pub open spec fn frames_replies(s: SessionView, payloads: Seq<Seq<u8>>, cx: Context) -> Seq<Seq<u8>>
    decreases payloads.len(),
{
    if payloads.len() == 0 {
        Seq::empty()
    } else {
        frames_replies(s, payloads.drop_last(), cx) + frame_replies(
            after_frames(s, payloads.drop_last(), cx),
            payloads.last(),
            cx,
        )
    }
}

/// The stage after a number of frames.
pub open spec fn stage_after_frames(stage: Stage, payloads: Seq<Seq<u8>>) -> Stage
    decreases payloads.len(),
{
    if payloads.len() == 0 {
        stage
    } else {
        next_stage(stage_after_frames(stage, payloads.drop_last()), payloads.last())
    }
}

/// Whether the first frame of a datagram says that it is a fragment.
pub open spec fn first_frame_is_fragment(data: Seq<u8>) -> bool {
    data.len() > 4 && is_fragment(data[4])
}

/// Whether a datagram without a whole frame completes the login that is
/// awaited: the last fragment of it has arrived, or it is no fragment.
pub open spec fn login_complete(pending: PendingSplit, data: Seq<u8>) -> bool {
    match fragment_header(data) {
        Some(fragment) => fragment_accepted(pending, fragment) && (split_after(
            pending,
            fragment,
        ) matches Some((id, count, seen)) && seen.len() >= fragment.split_count),
        None => !first_frame_is_fragment(data),
    }
}

/// The split packet in progress after a datagram without a whole frame.
pub open spec fn split_after_datagram(pending: PendingSplit, data: Seq<u8>) -> PendingSplit {
    match fragment_header(data) {
        Some(fragment) => split_after(pending, fragment),
        None => pending,
    }
}

/// Whether a datagram without a whole frame is a fragment that is cut off, or
/// whose numbers are not in order. Such a datagram counts as no activity.
pub open spec fn bad_fragment(pending: PendingSplit, data: Seq<u8>) -> bool {
    match fragment_header(data) {
        Some(fragment) => !fragment_accepted(pending, fragment),
        None => first_frame_is_fragment(data),
    }
}

/// Whether `data` is a set of frames: no handshake packet, and no
/// acknowledgement.
pub open spec fn is_frame_set(data: Seq<u8>) -> bool {
    data.len() > 0 && data[0] >= 0x80 && data[0] != 0xA0 && data[0] != 0xC0
}

/// Whether a datagram without a whole frame is looked at for a login.
pub open spec fn awaits_login(s: SessionView, data: Seq<u8>) -> bool {
    is_frame_set(data) && frames(data).len() == 0 && s.stage == Stage::AwaitingLoginAttempt
}

/// The session after a datagram.
pub open spec fn after_datagram(s: SessionView, data: Seq<u8>, cx: Context) -> SessionView {
    let touched = SessionView { last_activity: cx.now, ..s };
    if !is_frame_set(data) {
        touched
    } else if awaits_login(s, data) {
        let noted = SessionView {
            pending_split: split_after_datagram(s.pending_split, data),
            last_activity: if bad_fragment(s.pending_split, data) {
                s.last_activity
            } else {
                cx.now
            },
            ..s
        };
        if login_complete(s.pending_split, data) {
            SessionView { stage: Stage::Done, ..noted }.sent_one()
        } else {
            noted
        }
    } else {
        after_frames(touched, frames(data), cx)
    }
}

/// The acknowledgement of a set of frames, where it has a sequence number.
pub open spec fn acknowledgement(data: Seq<u8>) -> Seq<Seq<u8>> {
    if data.len() >= 4 {
        seq![ack(le24_at(data, 1) as u32)]
    } else {
        Seq::empty()
    }
}

/// One datagram or none.
pub open spec fn as_replies(reply: Option<Seq<u8>>) -> Seq<Seq<u8>> {
    match reply {
        Some(r) => seq![r],
        None => Seq::empty(),
    }
}

/// The datagrams sent in answer to a datagram, in order.
pub open spec fn replies_to(s: SessionView, data: Seq<u8>, cx: Context) -> Seq<Seq<u8>> {
    if data.len() == 0 {
        Seq::empty()
    } else if data[0] == ID_OPEN_CONNECTION_REQUEST_1 {
        as_replies(open_connection_reply_1(data, cx.server_guid))
    } else if data[0] == ID_OPEN_CONNECTION_REQUEST_2 {
        as_replies(open_connection_reply_2(data, cx.client, cx.server_guid))
    } else if !is_frame_set(data) {
        Seq::empty()
    } else if awaits_login(s, data) {
        if login_complete(s.pending_split, data) {
            acknowledgement(data) + seq![s.wrapped(disconnect(cx.line1, cx.line2))]
        } else {
            acknowledgement(data)
        }
    } else {
        acknowledgement(data) + frames_replies(s, frames(data), cx)
    }
}

/// Whether a datagram makes the session tell the client to disconnect.
pub open spec fn disconnects(s: SessionView, data: Seq<u8>) -> bool {
    &&& s.stage != Stage::Done
    &&& is_frame_set(data)
    &&& stage_after_frames(s.stage, frames(data)) == Stage::Done || (awaits_login(s, data)
        && login_complete(s.pending_split, data))
}

/// The contents of a list of datagrams.
pub open spec fn datagrams(list: Seq<Vec<u8>>) -> Seq<Seq<u8>> {
    Seq::new(list.len(), |i: int| list[i]@)
}

proof fn lemma_push_datagram(list: Seq<Vec<u8>>, d: Vec<u8>)
    ensures
        datagrams(list.push(d)) == datagrams(list) + seq![d@],
{
    assert(datagrams(list.push(d)) =~= datagrams(list) + seq![d@]);
}

/// The stage after a number of frames does not depend on the rest.
pub proof fn stage_follows_frames(s: SessionView, payloads: Seq<Seq<u8>>, cx: Context)
    ensures
        after_frames(s, payloads, cx).stage == stage_after_frames(s.stage, payloads),
    decreases payloads.len(),
{
    if payloads.len() > 0 {
        stage_follows_frames(s, payloads.drop_last(), cx);
    }
}

/// Once done, a session stays done.
pub proof fn done_stays_done(stage: Stage, payloads: Seq<Seq<u8>>, k: int)
    requires
        0 <= k <= payloads.len(),
        stage_after_frames(stage, payloads.take(k)) == Stage::Done,
    ensures
        stage_after_frames(stage, payloads) == Stage::Done,
    decreases payloads.len(),
{
    if k == payloads.len() {
        assert(payloads.take(k) =~= payloads);
    } else {
        assert(payloads.drop_last().take(k) =~= payloads.take(k));
        done_stays_done(stage, payloads.drop_last(), k);
    }
}

/// Frames do not depend on the time of the last activity, and keep it and the
/// split packet in progress.
pub proof fn frames_keep_the_rest(s: SessionView, payloads: Seq<Seq<u8>>, cx: Context, at: Instant)
    ensures
        after_frames(s, payloads, cx).last_activity == s.last_activity,
        after_frames(s, payloads, cx).pending_split == s.pending_split,
        s.valid() ==> after_frames(s, payloads, cx).valid(),
        after_frames(SessionView { last_activity: at, ..s }, payloads, cx) == (SessionView {
            last_activity: at,
            ..after_frames(s, payloads, cx)
        }),
        frames_replies(SessionView { last_activity: at, ..s }, payloads, cx) == frames_replies(
            s,
            payloads,
            cx,
        ),
    decreases payloads.len(),
{
    if payloads.len() > 0 {
        frames_keep_the_rest(s, payloads.drop_last(), cx, at);
    }
}

fn has_prefix(data: &[u8], prefix: &[u8]) -> (yes: bool)
    ensures
        yes == starts_with(data@, prefix@),
{
    if data.len() < prefix.len() {
        return false;
    }
    assert(data@.take(prefix@.len() as int) =~= data@.subrange(0, prefix@.len() as int));
    bytes_eq(slice_subrange(data, 0, prefix.len()), prefix)
}

fn asks_for_network_settings(payload: &[u8]) -> (yes: bool)
    ensures
        yes == requests_network_settings(payload@),
{
    let packets = split_batch_packets(payload);
    let mut k: usize = 0;
    while k < packets.len()
        invariant
            k <= packets@.len(),
            contents(packets@) == batch_packets(payload@),
            forall|j: int|
                0 <= j < k ==> !starts_with(
                    #[trigger] batch_packets(payload@)[j],
                    MC_ID_REQUEST_NETWORK_SETTINGS@,
                ),
        decreases packets@.len() - k,
    {
        assert(batch_packets(payload@)[k as int] == contents(packets@)[k as int]);
        if has_prefix(packets[k], &MC_ID_REQUEST_NETWORK_SETTINGS) {
            return true;
        }
        k = k + 1;
    }
    assert(batch_packets(payload@).len() == packets@.len());
    false
}

/// Handles one frame of a client's handshake.
fn handle_frame(
    session: &mut FakeSession,
    payload: &[u8],
    client_addr: &SocketAddr,
    motd_line1: &str,
    motd_line2: &str,
    millis: i64,
    out: &mut Vec<Vec<u8>>,
    Ghost(cx): Ghost<Context>,
)
    requires
        old(session).wf(),
        cx.client == client_addr@,
        cx.line1 == motd_line1@,
        cx.line2 == motd_line2@,
        cx.millis == millis,
        old(session)@.stage != Stage::Done && next_stage(old(session)@.stage, payload@)
            == Stage::Done ==> frame_fits(disconnect(motd_line1@, motd_line2@).len()),
    ensures
        final(session)@ == after_frame(old(session)@, payload@, cx),
        final(session).wf(),
        datagrams(final(out)@) == datagrams(old(out)@) + frame_replies(
            old(session)@,
            payload@,
            cx,
        ),
{
    let stage = session.stage;
    match stage {
        Stage::AwaitingConnectionRequest => {
            if payload.len() >= 17 && payload[0] == ID_CONNECTION_REQUEST {
                let body = accept_connection(client_addr, slice_subrange(payload, 9, 17), millis);
                let reply = session.wrap(body.as_slice());
                proof {
                    lemma_push_datagram(out@, reply);
                }
                out.push(reply);
                session.stage = Stage::AwaitingNewIncomingConnection;
            }
        },
        Stage::AwaitingNewIncomingConnection => {
            if payload.len() > 0 && payload[0] == ID_NEW_INCOMING_CONNECTION {
                session.stage = Stage::AwaitingNetworkSettingsRequest;
            }
        },
        Stage::AwaitingNetworkSettingsRequest => {
            if asks_for_network_settings(payload) {
                let body = network_settings_batch();
                proof {
                    lemma_network_settings_len();
                }
                let reply = session.wrap(body.as_slice());
                proof {
                    lemma_push_datagram(out@, reply);
                }
                out.push(reply);
                session.stage = Stage::AwaitingLoginAttempt;
            }
        },
        Stage::AwaitingLoginAttempt => {
            // A keep-alive is no game packet, and a request for the network
            // settings that comes again is no login: both leave the stage as
            // it is.
            let keep_alive = payload.len() > 0 && payload[0] == ID_CONNECTED_PING;
            if !keep_alive && !asks_for_network_settings(payload) {
                let body = disconnect_batch(motd_line1, motd_line2);
                let reply = session.wrap(body.as_slice());
                proof {
                    lemma_push_datagram(out@, reply);
                }
                out.push(reply);
                session.stage = Stage::Done;
            }
        },
        Stage::Done => {},
    }
    assert(datagrams(out@) =~= datagrams(old(out)@) + frame_replies(old(session)@, payload@, cx));
}

proof fn lemma_network_settings_len()
    ensures
        network_settings().len() == 14,
{
    assert(encoded(12).len() == 1);
}

/// Handles one datagram of a client's handshake at a given time. Returns the
/// datagrams to send back, in order.
pub fn handle_datagram_at(
    session: &mut FakeSession,
    data: &[u8],
    client_addr: &SocketAddr,
    server_guid: i64,
    motd_line1: &str,
    motd_line2: &str,
    now: Instant,
    millis: i64,
) -> (replies: Vec<Vec<u8>>)
    requires
        old(session).wf(),
        disconnects(old(session)@, data@) ==> frame_fits(
            disconnect(motd_line1@, motd_line2@).len(),
        ),
    ensures
        final(session)@ == after_datagram(
            old(session)@,
            data@,
            (Context {
                client: client_addr@,
                server_guid,
                line1: motd_line1@,
                line2: motd_line2@,
                now,
                millis,
            }),
        ),
        datagrams(replies@) == replies_to(
            old(session)@,
            data@,
            (Context {
                client: client_addr@,
                server_guid,
                line1: motd_line1@,
                line2: motd_line2@,
                now,
                millis,
            }),
        ),
        final(session).wf(),
{
    let ghost cx = Context {
        client: client_addr@,
        server_guid,
        line1: motd_line1@,
        line2: motd_line2@,
        now,
        millis,
    };
    let ghost s0 = session@;
    let previous_activity = session.last_activity;
    session.last_activity = now;
    let ghost touched = session@;
    let mut out: Vec<Vec<u8>> = Vec::new();
    assert(datagrams(out@) =~= Seq::empty());

    if data.len() == 0 {
        return out;
    }
    if data[0] == ID_OPEN_CONNECTION_REQUEST_1 {
        if let Some(reply) = build_open_connection_reply_1(data, server_guid) {
            proof {
                lemma_push_datagram(out@, reply);
            }
            out.push(reply);
        }
        assert(datagrams(out@) =~= replies_to(s0, data@, cx));
        return out;
    }
    if data[0] == ID_OPEN_CONNECTION_REQUEST_2 {
        if let Some(reply) = build_open_connection_reply_2(data, client_addr, server_guid) {
            proof {
                lemma_push_datagram(out@, reply);
            }
            out.push(reply);
        }
        assert(datagrams(out@) =~= replies_to(s0, data@, cx));
        return out;
    }
    // What remains are sets of frames; acknowledgements need no answer.
    if data[0] < 0x80 || data[0] == 0xA0 || data[0] == 0xC0 {
        return out;
    }
    // The client's reliability layer gives up on a connection whose datagrams
    // go unacknowledged.
    if data.len() >= 4 {
        let reply = build_ack(read_u24_le(data, 1));
        proof {
            lemma_push_datagram(out@, reply);
        }
        out.push(reply);
    }
    assert(datagrams(out@) =~= acknowledgement(data@));

    let payloads = parse_frame_payloads(data);
    let ghost all = contents(payloads@);
    let mut k: usize = 0;
    assert(all.take(0) =~= Seq::empty());
    while k < payloads.len()
        invariant
            k <= payloads@.len(),
            all == contents(payloads@),
            all == frames(data@),
            is_frame_set(data@),
            session@ == after_frames(touched, all.take(k as int), cx),
            session.wf(),
            datagrams(out@) == acknowledgement(data@) + frames_replies(
                touched,
                all.take(k as int),
                cx,
            ),
            touched == (SessionView { last_activity: now, ..s0 }),
            cx.client == client_addr@,
            cx.line1 == motd_line1@,
            cx.line2 == motd_line2@,
            cx.millis == millis,
            disconnects(s0, data@) ==> frame_fits(disconnect(motd_line1@, motd_line2@).len()),
        decreases payloads@.len() - k,
    {
        let ghost prefix = all.take(k as int);
        let ghost next = all.take(k + 1);
        proof {
            assert(next.drop_last() =~= prefix);
            assert(next.last() == payloads@[k as int]@);
            stage_follows_frames(touched, prefix, cx);
            stage_follows_frames(touched, next, cx);
            if session@.stage != Stage::Done && next_stage(session@.stage, payloads@[k as int]@)
                == Stage::Done {
                done_stays_done(s0.stage, all, k + 1);
                if s0.stage == Stage::Done {
                    assert(all.take(0) =~= Seq::empty());
                    assert(prefix.take(0) =~= Seq::empty());
                    done_stays_done(s0.stage, prefix, 0);
                }
            }
        }
        handle_frame(
            session,
            payloads[k],
            client_addr,
            motd_line1,
            motd_line2,
            millis,
            &mut out,
            Ghost(cx),
        );
        assert(datagrams(out@) =~= acknowledgement(data@) + frames_replies(touched, next, cx));
        k = k + 1;
    }
    assert(all.take(k as int) =~= all);

    // A login arrives in fragments. Their contents are not needed, but the
    // disconnect has to wait for the last of them: sent earlier, it would come
    // in the middle of the client's own packet.
    if payloads.len() == 0 && session.stage == Stage::AwaitingLoginAttempt {
        assert(session@ == touched);
        let ready = match parse_fragment_header(data) {
            Some(fragment) => match session.record_fragment(
                fragment.split_id,
                fragment.split_count,
                fragment.split_index,
            ) {
                Some((seen, expected)) => seen as u32 >= expected,
                None => {
                    session.last_activity = previous_activity;
                    false
                },
            },
            None => if data.len() > 4 && data[4] / 16 % 2 == 1 {
                session.last_activity = previous_activity;
                false
            } else {
                true
            },
        };
        assert(ready == login_complete(s0.pending_split, data@));
        if ready {
            let body = disconnect_batch(motd_line1, motd_line2);
            let reply = session.wrap(body.as_slice());
            proof {
                lemma_push_datagram(out@, reply);
            }
            out.push(reply);
            session.stage = Stage::Done;
        }
        assert(datagrams(out@) =~= replies_to(s0, data@, cx));
    } else {
        proof {
            frames_keep_the_rest(s0, all, cx, now);
        }
    }
    out
}

/// Handles one datagram of a client's handshake. Returns the datagrams to send
/// back, in order.
pub fn handle_datagram(
    session: &mut FakeSession,
    data: &[u8],
    client_addr: &SocketAddr,
    server_guid: i64,
    motd_line1: &str,
    motd_line2: &str,
) -> (replies: Vec<Vec<u8>>)
    requires
        old(session).wf(),
        disconnects(old(session)@, data@) ==> frame_fits(
            disconnect(motd_line1@, motd_line2@).len(),
        ),
    ensures
        exists|cx: Context|
            {
                &&& cx.client == client_addr@
                &&& cx.server_guid == server_guid
                &&& cx.line1 == motd_line1@
                &&& cx.line2 == motd_line2@
                &&& final(session)@ == #[trigger] after_datagram(old(session)@, data@, cx)
                &&& datagrams(replies@) == replies_to(old(session)@, data@, cx)
            },
        final(session).wf(),
{
    let now = Instant::now();
    let millis: i64 = now_millis();
    handle_datagram_at(
        session,
        data,
        client_addr,
        server_guid,
        motd_line1,
        motd_line2,
        now,
        millis,
    )
}

/// The stage that a frame with this payload leads to.
fn stage_after(stage: Stage, payload: &[u8]) -> (next: Stage)
    ensures
        next == next_stage(stage, payload@),
{
    match stage {
        Stage::AwaitingConnectionRequest => if payload.len() >= 17 && payload[0]
            == ID_CONNECTION_REQUEST {
            Stage::AwaitingNewIncomingConnection
        } else {
            stage
        },
        Stage::AwaitingNewIncomingConnection => if payload.len() > 0 && payload[0]
            == ID_NEW_INCOMING_CONNECTION {
            Stage::AwaitingNetworkSettingsRequest
        } else {
            stage
        },
        Stage::AwaitingNetworkSettingsRequest => if asks_for_network_settings(payload) {
            Stage::AwaitingLoginAttempt
        } else {
            stage
        },
        Stage::AwaitingLoginAttempt => if (payload.len() > 0 && payload[0] == ID_CONNECTED_PING)
            || asks_for_network_settings(payload) {
            stage
        } else {
            Stage::Done
        },
        Stage::Done => stage,
    }
}

impl FakeSession {
    /// Whether a datagram would make the session tell the client to
    /// disconnect.
    pub fn would_disconnect(&self, data: &[u8]) -> (yes: bool)
        requires
            split_within_limits(self@.pending_split),
        ensures
            yes == disconnects(self@, data@),
    {
        if self.stage == Stage::Done || data.len() == 0 || data[0] < 0x80 || data[0] == 0xA0
            || data[0] == 0xC0 {
            return false;
        }
        let payloads = parse_frame_payloads(data);
        let ghost all = contents(payloads@);
        let mut stage = self.stage;
        let mut k: usize = 0;
        assert(all.take(0) =~= Seq::empty());
        while k < payloads.len()
            invariant
                k <= payloads@.len(),
                all == contents(payloads@),
                stage == stage_after_frames(self@.stage, all.take(k as int)),
            decreases payloads@.len() - k,
        {
            assert(all.take(k + 1).drop_last() =~= all.take(k as int));
            assert(all.take(k + 1).last() == payloads@[k as int]@);
            stage = stage_after(stage, payloads[k]);
            k = k + 1;
        }
        assert(all.take(k as int) =~= all);
        if stage == Stage::Done {
            return true;
        }
        if payloads.len() > 0 || self.stage != Stage::AwaitingLoginAttempt {
            return false;
        }
        match parse_fragment_header(data) {
            Some(fragment) => self.would_complete(fragment),
            None => !(data.len() > 4 && data[4] / 16 % 2 == 1),
        }
    }

    /// Whether a fragment would be in order and the last one missing.
    fn would_complete(&self, fragment: FragmentHeader) -> (yes: bool)
        requires
            split_within_limits(self@.pending_split),
        ensures
            yes == (fragment_accepted(self@.pending_split, fragment) && (split_after(
                self@.pending_split,
                fragment,
            ) matches Some((id, count, seen)) && seen.len() >= fragment.split_count)),
    {
        if fragment.split_count == 0 || fragment.split_count > MAX_TRACKED_LOGIN_FRAGMENTS
            || fragment.split_index >= fragment.split_count {
            return false;
        }
        match &self.pending_split {
            Some((id, count, seen)) => {
                if *id != fragment.split_id {
                    return fragment.split_count == 1;
                }
                if *count != fragment.split_count {
                    return false;
                }
                let total: usize = seen.len();
                proof {
                    bounded_set_len(seen@, fragment.split_count as nat);
                }
                if seen.contains(&fragment.split_index) {
                    assert(seen@.insert(fragment.split_index) =~= seen@);
                    total >= fragment.split_count as usize
                } else {
                    total + 1 >= fragment.split_count as usize
                }
            },
            None => fragment.split_count == 1,
        }
    }
}

/// Encodes a variable-length integer.
pub fn encode_varint(value: u32) -> (out: Vec<u8>)
    ensures
        out@ == encoded(value as nat),
{
    let mut out: Vec<u8> = Vec::new();
    push_varint(&mut out, value);
    assert(out@ =~= encoded(value as nat));
    out
}

/// The variable-length integer that `data` starts with, and its length.
pub fn decode_varint(data: &[u8]) -> (found: Option<(u32, usize)>)
    ensures
        match found {
            Some((v, n)) => decoded(data@) == Some((v, n as nat)) && 1 <= n <= data@.len(),
            None => decoded(data@) is None,
        },
{
    assert(data@.skip(0) =~= data@);
    decode_at(data, 0)
}

/// Bytes that `hex` shows at most.
pub const MAX_LOGGED_BYTES: usize = 64;

/// Bytes in hexadecimal, two digits each, with a space between them.
pub open spec fn hex_pairs(data: Seq<u8>) -> Seq<char>
    decreases data.len(),
{
    if data.len() == 0 {
        Seq::empty()
    } else {
        let pair = seq![
            hex_digit((data.last() / 16) as nat),
            hex_digit((data.last() % 16) as nat),
        ];
        if data.len() == 1 {
            pair
        } else {
            hex_pairs(data.drop_last()) + seq![' '] + pair
        }
    }
}

/// The first bytes in hexadecimal, and the number of all of them where some
/// are left out.
pub open spec fn hex_text(data: Seq<u8>) -> Seq<char> {
    if data.len() > MAX_LOGGED_BYTES {
        hex_pairs(data.take(MAX_LOGGED_BYTES as int)) + " ... ("@ + decimal(data.len())
            + " bytes total)"@
    } else {
        hex_pairs(data)
    }
}

/// Shows bytes in hexadecimal, for a log.
pub fn hex(data: &[u8]) -> (text: String)
    ensures
        text@ == hex_text(data@),
{
    let shown: usize = if data.len() > MAX_LOGGED_BYTES {
        MAX_LOGGED_BYTES
    } else {
        data.len()
    };
    let mut out = String::new();
    let mut i: usize = 0;
    assert(out@ =~= hex_pairs(data@.take(0)));
    while i < shown
        invariant
            i <= shown <= data@.len(),
            out@ == hex_pairs(data@.take(i as int)),
        decreases shown - i,
    {
        assert(data@.take(i + 1).drop_last() =~= data@.take(i as int));
        if i > 0 {
            out.push(' ');
        }
        push_hex_byte(&mut out, data[i]);
        i = i + 1;
        assert(out@ =~= hex_pairs(data@.take(i as int)));
    }
    if data.len() > MAX_LOGGED_BYTES {
        out.append(" ... (");
        push_decimal(&mut out, data.len() as u64);
        out.append(" bytes total)");
        assert(out@ =~= hex_text(data@));
    } else {
        assert(data@.take(shown as int) =~= data@);
    }
    out
}

} // verus!
