//! What holds of the fake Bedrock handshake as a whole.

use std::time::Instant;

use vstd::prelude::*;
use vstd::utf8::encode_utf8;

use crate::bytes::{be16_at, le24_at};
use crate::plugins::bedrock_offline::{
    acknowledgement, after_datagram, after_frame, after_frames, answer, awaits_login, bad_fragment,
    bounded_set_len, connection_request_accepted, disconnect, disconnects, done_stays_done,
    fragment_accepted, frame_fits, frame_replies, frames_keep_the_rest, frames_replies,
    fresh_session, guid_from_clock, is_frame_set, login_complete, millis_at, motd, network_settings,
    next_stage, open_connection_reply_1, open_connection_reply_2, ping_probe, pong_matches,
    replies_to, requests_network_settings, split_after, split_within_limits, stage_after_frames,
    stage_follows_frames, starts_with, string_field, unconnected_ping, unconnected_pong,
    BedrockOfflineConfig, Context, PendingSplit, SessionView, Stage, ID_OPEN_CONNECTION_REQUEST_1,
    ID_OPEN_CONNECTION_REQUEST_2, MAX_TRACKED_LOGIN_FRAGMENTS, MC_ID_DISCONNECT,
    MC_ID_REQUEST_NETWORK_SETTINGS, RELIABLE_ORDERED,
};
use crate::plugins::raknet::{
    ack, batch_of, batch_of_all, batch_packets, batch_splits_back, fragment_header,
    frame_header_len, frames, frames_from, lengths_fit, payload_len_at, zigzag, FragmentHeader,
    RAKNET_MAGIC,
};
use crate::text::utf8_len_bounds;
use crate::time::Duration;
use crate::varint::{encoded, encoded_len_bounds};

verus! {

/// The probe is an Unconnected Ping.
pub proof fn probe_is_a_ping(millis: i64)
    ensures
        unconnected_ping(ping_probe(millis)),
{
    let probe = ping_probe(millis);
    assert(probe.subrange(9, 25) =~= RAKNET_MAGIC@);
}

/// The pong that answers a ping is one that the sender of the ping accepts, as
/// long as the length of its entry fits in two bytes.
pub proof fn pong_answers_ping(ping: Seq<u8>, config: &BedrockOfflineConfig, listen_port: u16)
    requires
        unconnected_ping(ping),
        encode_utf8(motd(config, listen_port)).len() < 65536,
    ensures
        pong_matches(ping, unconnected_pong(ping, config, listen_port)),
{
    let pong = unconnected_pong(ping, config, listen_port);
    assert(pong.subrange(1, 9) =~= ping.subrange(1, 9));
    assert(pong.subrange(17, 33) =~= RAKNET_MAGIC@);
}

/// A disconnect always fits in one frame where its two lines have at most a
/// thousand characters together.
pub proof fn short_lines_fit(line1: Seq<char>, line2: Seq<char>)
    requires
        line1.len() + line2.len() <= 1000,
    ensures
        frame_fits(disconnect(line1, line2).len()),
{
    let text = line1 + seq!['\n'] + line2;
    let message = encode_utf8(text);
    utf8_len_bounds(text);
    encoded_len_bounds(message.len() as u32);
    let packet = seq![MC_ID_DISCONNECT] + encoded(zigzag(0)) + encoded(0) + string_field(message)
        + string_field(message);
    assert(encoded(0).len() == 1);
    assert(packet.len() == 3 + 2 * string_field(message).len());
    encoded_len_bounds(packet.len() as u32);
    assert(disconnect(line1, line2) == batch_of(packet));
}

/// How far along a stage is.
pub open spec fn progress(stage: Stage) -> nat {
    match stage {
        Stage::AwaitingConnectionRequest => 0,
        Stage::AwaitingNewIncomingConnection => 1,
        Stage::AwaitingNetworkSettingsRequest => 2,
        Stage::AwaitingLoginAttempt => 3,
        Stage::Done => 4,
    }
}

proof fn lemma_frames_progress(stage: Stage, payloads: Seq<Seq<u8>>)
    ensures
        progress(stage) <= progress(stage_after_frames(stage, payloads)),
    decreases payloads.len(),
{
    if payloads.len() > 0 {
        lemma_frames_progress(stage, payloads.drop_last());
    }
}

/// No datagram takes a handshake back to an earlier stage.
pub proof fn handshake_never_goes_back(s: SessionView, data: Seq<u8>, cx: Context)
    ensures
        progress(s.stage) <= progress(after_datagram(s, data, cx).stage),
{
    let touched = SessionView { last_activity: cx.now, ..s };
    stage_follows_frames(touched, frames(data), cx);
    lemma_frames_progress(s.stage, frames(data));
}

/// Whether a datagram is a set of frames: its high bit is set, and it is
/// neither of the two kinds of acknowledgement.
pub open spec fn holds_frames(data: Seq<u8>) -> bool {
    data.len() > 0 && data[0] >= 0x80 && data[0] != 0xA0 && data[0] != 0xC0
}

/// Whether a reply carries a frame.
pub open spec fn carries_frame(reply: Seq<u8>) -> bool {
    reply.len() > 0 && reply[0] == 0x84
}

proof fn lemma_wrapped_carries_frame(s: SessionView, payload: Seq<u8>)
    ensures
        carries_frame(s.wrapped(payload)),
{
}

proof fn lemma_replies_carry_frames(s: SessionView, payloads: Seq<Seq<u8>>, cx: Context)
    ensures
        forall|i: int|
            0 <= i < frames_replies(s, payloads, cx).len() ==> carries_frame(
                #[trigger] frames_replies(s, payloads, cx)[i],
            ),
    decreases payloads.len(),
{
    if payloads.len() > 0 {
        let init = payloads.drop_last();
        let before = after_frames(s, init, cx);
        lemma_replies_carry_frames(s, init, cx);
        assert forall|i: int| 0 <= i < frames_replies(s, payloads, cx).len() implies carries_frame(
            #[trigger] frames_replies(s, payloads, cx)[i],
        ) by {
            let old_replies = frames_replies(s, init, cx);
            if i < old_replies.len() {
                assert(frames_replies(s, payloads, cx)[i] == old_replies[i]);
            } else {
                lemma_wrapped_carries_frame(before, answer(before.stage, payloads.last(), cx)->0);
            }
        }
    }
}

/// Every set of frames that has a sequence number is acknowledged, whatever
/// the stage and whatever the frames hold. The acknowledgement names that
/// number, is the first reply, and is the only one of its kind.
pub proof fn frame_sets_are_acknowledged_once(s: SessionView, data: Seq<u8>, cx: Context)
    requires
        holds_frames(data),
        data.len() >= 4,
    ensures
        replies_to(s, data, cx).len() >= 1,
        replies_to(s, data, cx)[0] == seq![0xC0u8, 0, 1, 1, data[1], data[2], data[3]],
        forall|i: int|
            1 <= i < replies_to(s, data, cx).len() ==> carries_frame(
                #[trigger] replies_to(s, data, cx)[i],
            ),
{
    lemma_replies_carry_frames(s, frames(data), cx);
    assert(ack(le24_at(data, 1) as u32) =~= seq![0xC0u8, 0, 1, 1, data[1], data[2], data[3]]);
    lemma_wrapped_carries_frame(s, disconnect(cx.line1, cx.line2));
}

/// What is neither a set of frames nor an opening request gets no reply, and
/// changes nothing but the time of the last activity.
pub proof fn other_datagrams_are_ignored(s: SessionView, data: Seq<u8>, cx: Context)
    requires
        !holds_frames(data),
        data.len() > 0 ==> data[0] != 0x05 && data[0] != 0x07,
    ensures
        replies_to(s, data, cx) == Seq::<Seq<u8>>::empty(),
        after_datagram(s, data, cx) == (SessionView { last_activity: cx.now, ..s }),
{
}

/// How many of the replies carry a frame.
pub open spec fn frames_sent(replies: Seq<Seq<u8>>) -> nat
    decreases replies.len(),
{
    if replies.len() == 0 {
        0
    } else {
        frames_sent(replies.drop_last()) + if carries_frame(replies.last()) {
            1nat
        } else {
            0
        }
    }
}

proof fn lemma_frames_sent_concat(a: Seq<Seq<u8>>, b: Seq<Seq<u8>>)
    ensures
        frames_sent(a + b) == frames_sent(a) + frames_sent(b),
    decreases b.len(),
{
    if b.len() == 0 {
        assert(a + b =~= a);
    } else {
        assert((a + b).drop_last() =~= a + b.drop_last());
        lemma_frames_sent_concat(a, b.drop_last());
    }
}

proof fn lemma_frames_sent_one(reply: Seq<u8>)
    ensures
        frames_sent(seq![reply]) == if carries_frame(reply) {
            1nat
        } else {
            0
        },
{
    assert(seq![reply].drop_last() =~= Seq::empty());
    assert(frames_sent(Seq::empty()) == 0);
}

proof fn lemma_frames_advance(s: SessionView, payloads: Seq<Seq<u8>>, cx: Context)
    requires
        s.valid(),
    ensures
        ({
            let after = after_frames(s, payloads, cx);
            let sent = frames_sent(frames_replies(s, payloads, cx));
            &&& after.out_seq == s.out_seq + sent
            &&& after.out_reliable_index == s.out_reliable_index + sent
            &&& after.out_order_index == s.out_order_index + sent
        }),
    decreases payloads.len(),
{
    if payloads.len() > 0 {
        let before = after_frames(s, payloads.drop_last(), cx);
        lemma_frames_advance(s, payloads.drop_last(), cx);
        frames_keep_the_rest(s, payloads.drop_last(), cx, s.last_activity);
        lemma_frames_sent_concat(
            frames_replies(s, payloads.drop_last(), cx),
            frame_replies(before, payloads.last(), cx),
        );
        if let Some(body) = answer(before.stage, payloads.last(), cx) {
            lemma_wrapped_carries_frame(before, body);
            lemma_frames_sent_one(before.wrapped(body));
        }
    }
}

/// The three counters of a session grow by one for each frame that it sends,
/// and by nothing else.
pub proof fn counters_count_the_frames_sent(s: SessionView, data: Seq<u8>, cx: Context)
    requires
        s.valid(),
    ensures
        ({
            let after = after_datagram(s, data, cx);
            let sent = frames_sent(replies_to(s, data, cx));
            &&& after.out_seq == s.out_seq + sent
            &&& after.out_reliable_index == s.out_reliable_index + sent
            &&& after.out_order_index == s.out_order_index + sent
        }),
{
    if data.len() > 0 && data[0] == ID_OPEN_CONNECTION_REQUEST_1 {
        if let Some(reply) = open_connection_reply_1(data, cx.server_guid) {
            lemma_frames_sent_one(reply);
        }
    } else if data.len() > 0 && data[0] == ID_OPEN_CONNECTION_REQUEST_2 {
        if let Some(reply) = open_connection_reply_2(data, cx.client, cx.server_guid) {
            lemma_frames_sent_one(reply);
        }
    } else if is_frame_set(data) {
        if data.len() >= 4 {
            lemma_frames_sent_one(ack(le24_at(data, 1) as u32));
        }
        if awaits_login(s, data) {
            let last = s.wrapped(disconnect(cx.line1, cx.line2));
            lemma_frames_sent_one(last);
            lemma_frames_sent_concat(acknowledgement(data), seq![last]);
        } else {
            let touched = SessionView { last_activity: cx.now, ..s };
            frames_keep_the_rest(s, frames(data), cx, cx.now);
            lemma_frames_advance(touched, frames(data), cx);
            lemma_frames_sent_concat(acknowledgement(data), frames_replies(s, frames(data), cx));
        }
    }
}

/// A session becomes done exactly on a datagram that makes it tell the client
/// to disconnect, and the disconnect is then the last reply.
pub proof fn done_means_disconnected(s: SessionView, data: Seq<u8>, cx: Context)
    requires
        s.stage != Stage::Done,
    ensures
        after_datagram(s, data, cx).stage == Stage::Done <==> disconnects(s, data),
        disconnects(s, data) ==> exists|at: SessionView|
            replies_to(s, data, cx).len() > 0 && replies_to(s, data, cx).last()
                == #[trigger] at.wrapped(disconnect(cx.line1, cx.line2)),
{
    let touched = SessionView { last_activity: cx.now, ..s };
    stage_follows_frames(touched, frames(data), cx);
    if disconnects(s, data) {
        if awaits_login(s, data) {
            assert(replies_to(s, data, cx).last() == s.wrapped(disconnect(cx.line1, cx.line2)));
        } else {
            lemma_disconnect_last(s, frames(data), cx);
        }
    }
}

proof fn lemma_disconnect_last(s: SessionView, payloads: Seq<Seq<u8>>, cx: Context)
    requires
        s.stage != Stage::Done,
        stage_after_frames(s.stage, payloads) == Stage::Done,
    ensures
        exists|at: SessionView|
            frames_replies(s, payloads, cx).len() > 0 && frames_replies(s, payloads, cx).last()
                == #[trigger] at.wrapped(disconnect(cx.line1, cx.line2)),
    decreases payloads.len(),
{
    let before = payloads.drop_last();
    stage_follows_frames(s, before, cx);
    if stage_after_frames(s.stage, before) == Stage::Done {
        lemma_disconnect_last(s, before, cx);
        assert(frames_replies(s, payloads, cx) =~= frames_replies(s, before, cx));
    } else {
        let at = after_frames(s, before, cx);
        assert(frames_replies(s, payloads, cx).last() == at.wrapped(
            disconnect(cx.line1, cx.line2),
        ));
    }
}

/// A session that is done stays done, and nothing but an acknowledgement or a
/// reply to a new handshake's opening requests is sent from then on.
pub proof fn done_is_final(s: SessionView, data: Seq<u8>, cx: Context)
    requires
        s.stage == Stage::Done,
    ensures
        after_datagram(s, data, cx).stage == Stage::Done,
        !disconnects(s, data),
        is_frame_set(data) ==> replies_to(s, data, cx) == acknowledgement(data),
        frames_sent(replies_to(s, data, cx)) == 0,
{
    let touched = SessionView { last_activity: cx.now, ..s };
    stage_follows_frames(touched, frames(data), cx);
    assert(frames(data).take(0) =~= Seq::empty());
    done_stays_done(s.stage, frames(data), 0);
    lemma_done_sends_nothing(s, frames(data), cx);
    assert(replies_to(s, data, cx) =~= replies_to(s, data, cx) + Seq::<Seq<u8>>::empty());
    if is_frame_set(data) {
        assert(replies_to(s, data, cx) =~= acknowledgement(data));
    }
    if replies_to(s, data, cx).len() > 0 {
        lemma_frames_sent_one(replies_to(s, data, cx)[0]);
        assert(replies_to(s, data, cx) =~= seq![replies_to(s, data, cx)[0]]);
    }
}

proof fn lemma_done_sends_nothing(s: SessionView, payloads: Seq<Seq<u8>>, cx: Context)
    requires
        s.stage == Stage::Done,
    ensures
        frames_replies(s, payloads, cx) == Seq::<Seq<u8>>::empty(),
        after_frames(s, payloads, cx) == s,
    decreases payloads.len(),
{
    if payloads.len() > 0 {
        lemma_done_sends_nothing(s, payloads.drop_last(), cx);
    }
}

/// A client is told to disconnect at most once.
pub proof fn disconnects_once(
    s: SessionView,
    first: Seq<u8>,
    cx: Context,
    second: Seq<u8>,
)
    requires
        disconnects(s, first),
    ensures
        !disconnects(after_datagram(s, first, cx), second),
{
    done_means_disconnected(s, first, cx);
}

/// A fragment that is cut off, or whose numbers are not in order, neither
/// counts as activity nor moves the handshake, and gets no reply but its
/// acknowledgement.
pub proof fn bad_fragments_do_not_refresh(s: SessionView, data: Seq<u8>, cx: Context)
    requires
        awaits_login(s, data),
        bad_fragment(s.pending_split, data),
    ensures
        after_datagram(s, data, cx).last_activity == s.last_activity,
        after_datagram(s, data, cx).stage == s.stage,
        replies_to(s, data, cx) == acknowledgement(data),
{
}

/// A fragment completes the login exactly where every fragment of its packet
/// has then been seen: no disconnect comes in the middle of a login.
pub proof fn login_waits_for_every_fragment(pending: PendingSplit, data: Seq<u8>)
    requires
        split_within_limits(pending),
        fragment_header(data) matches Some(fragment) && fragment_accepted(pending, fragment),
    ensures
        login_complete(pending, data) <==> (split_after(
            pending,
            fragment_header(data)->0,
        ) matches Some((id, count, seen)) && forall|i: u32|
            i < count ==> #[trigger] seen.contains(i)),
{
    let fragment = fragment_header(data)->0;
    let (id, count, seen) = split_after(pending, fragment)->0;
    assert(split_within_limits(split_after(pending, fragment)));
    bounded_set_len(seen, count as nat);
    if seen.len() >= count {
        assert forall|i: u32| i < count implies #[trigger] seen.contains(i) by {
            if !seen.contains(i) {
                bounded_set_len(seen.insert(i), count as nat);
            }
        }
    }
    if forall|i: u32| i < count ==> #[trigger] seen.contains(i) {
        lemma_full_set_len(seen, count as nat);
    }
}

proof fn lemma_full_set_len(s: Set<u32>, n: nat)
    requires
        s.finite(),
        n <= u32::MAX,
        forall|i: u32| i < n ==> #[trigger] s.contains(i),
    ensures
        s.len() >= n,
    decreases n,
{
    if n > 0 {
        let last = (n - 1) as u32;
        lemma_full_set_len(s.remove(last), (n - 1) as nat);
    }
}

/// The tracker never holds more fragments than the ceiling, whatever arrives.
pub proof fn fragment_tracking_is_bounded(pending: PendingSplit, fragment: FragmentHeader)
    requires
        split_within_limits(pending),
    ensures
        split_within_limits(split_after(pending, fragment)),
        split_after(pending, fragment) matches Some((id, count, seen)) ==> seen.len()
            <= MAX_TRACKED_LOGIN_FRAGMENTS,
{
    if let Some((id, count, seen)) = split_after(pending, fragment) {
        bounded_set_len(seen, count as nat);
    }
}

/// What can happen to a session: a fragment is recorded, or a datagram comes
/// in.
pub enum SessionStep {
    Fragment(FragmentHeader),
    Datagram(Seq<u8>, Context),
}

/// The session after one step.
pub open spec fn after_step(s: SessionView, step: SessionStep) -> SessionView {
    match step {
        SessionStep::Fragment(fragment) => SessionView {
            pending_split: split_after(s.pending_split, fragment),
            ..s
        },
        SessionStep::Datagram(data, cx) => after_datagram(s, data, cx),
    }
}

/// The session after a number of steps.
pub open spec fn after_steps(s: SessionView, steps: Seq<SessionStep>) -> SessionView
    decreases steps.len(),
{
    if steps.len() == 0 {
        s
    } else {
        after_step(after_steps(s, steps.drop_last()), steps.last())
    }
}

/// Whether the tracker holds at least one index, and no more than the ceiling:
/// each is an index of the split packet in progress.
pub open spec fn tracks_few_fragments(pending: PendingSplit) -> bool {
    pending matches Some((id, count, seen)) ==> {
        &&& 1 <= count <= MAX_TRACKED_LOGIN_FRAGMENTS
        &&& seen.finite()
        &&& 1 <= seen.len() <= count
        &&& forall|i: u32| #[trigger] seen.contains(i) ==> i < count
    }
}

proof fn lemma_fragment_tracked(pending: PendingSplit, fragment: FragmentHeader)
    requires
        tracks_few_fragments(pending),
    ensures
        tracks_few_fragments(split_after(pending, fragment)),
{
    fragment_tracking_is_bounded(pending, fragment);
    if let Some((id, count, seen)) = split_after(pending, fragment) {
        bounded_set_len(seen, count as nat);
    }
}

proof fn lemma_step_keeps_valid(s: SessionView, step: SessionStep)
    requires
        s.valid(),
        tracks_few_fragments(s.pending_split),
    ensures
        after_step(s, step).valid(),
        tracks_few_fragments(after_step(s, step).pending_split),
{
    match step {
        SessionStep::Fragment(fragment) => {
            lemma_fragment_tracked(s.pending_split, fragment);
        },
        SessionStep::Datagram(data, cx) => {
            if let Some(fragment) = fragment_header(data) {
                lemma_fragment_tracked(s.pending_split, fragment);
            }
            let touched = SessionView { last_activity: cx.now, ..s };
            frames_keep_the_rest(touched, frames(data), cx, cx.now);
        },
    }
}

/// Whatever a new session goes through, it stays valid: its counters never run
/// over, and its tracker never holds more indices than the ceiling.
pub proof fn reached_sessions_are_bounded(now: Instant, steps: Seq<SessionStep>)
    ensures
        after_steps(fresh_session(now), steps).valid(),
        tracks_few_fragments(after_steps(fresh_session(now), steps).pending_split),
    decreases steps.len(),
{
    if steps.len() > 0 {
        reached_sessions_are_bounded(now, steps.drop_last());
        lemma_step_keeps_valid(after_steps(fresh_session(now), steps.drop_last()), steps.last());
    }
}

/// A keep-alive is never taken for a login.
pub proof fn keep_alive_is_ignored(s: SessionView, data: Seq<u8>, payload: Seq<u8>, cx: Context)
    requires
        holds_frames(data),
        frames(data) == seq![payload],
        payload.len() > 0,
        payload[0] == 0x00,
        s.stage == Stage::AwaitingLoginAttempt,
    ensures
        after_datagram(s, data, cx) == (SessionView { last_activity: cx.now, ..s }),
        replies_to(s, data, cx) == acknowledgement(data),
{
    reveal_with_fuel(after_frames, 2);
    reveal_with_fuel(frames_replies, 2);
    assert(frames(data).drop_last() =~= Seq::empty());
    frames_keep_the_rest(s, frames(data), cx, cx.now);
    assert(replies_to(s, data, cx) =~= acknowledgement(data));
}

/// A datagram that a session sends is a set of one frame, and its payload is
/// read back.
pub proof fn wrapped_payload_reads_back(s: SessionView, payload: Seq<u8>)
    requires
        payload.len() <= 8191,
    ensures
        is_frame_set(s.wrapped(payload)),
        frames(s.wrapped(payload)) == seq![payload],
{
    let data = s.wrapped(payload);
    let flags = (RELIABLE_ORDERED * 32) as u8;
    assert(data[4] == flags);
    assert(frame_header_len(flags) == 10);
    assert(be16_at(data, 5) == payload.len() * 8);
    assert(payload_len_at(data, 4) == payload.len());
    assert(data.subrange(14, data.len() as int) =~= payload);
    assert(frames_from(data, data.len() as int) =~= Seq::empty());
    assert(frames(data) =~= seq![payload]);
}

/// A client that sends what each stage asks for is told to disconnect, whether
/// its frames come one by one or together.
pub proof fn handshake_reaches_disconnect(
    request: Seq<u8>,
    incoming: Seq<u8>,
    settings: Seq<u8>,
    login: Seq<u8>,
)
    requires
        request.len() >= 17,
        request[0] == 0x09,
        incoming.len() > 0,
        incoming[0] == 0x13,
        asks_for_settings(settings),
        login.len() > 0,
        login[0] != 0x00,
        !asks_for_settings(login),
    ensures
        next_stage(Stage::AwaitingConnectionRequest, request)
            == Stage::AwaitingNewIncomingConnection,
        next_stage(Stage::AwaitingNewIncomingConnection, incoming)
            == Stage::AwaitingNetworkSettingsRequest,
        next_stage(Stage::AwaitingNetworkSettingsRequest, settings) == Stage::AwaitingLoginAttempt,
        next_stage(Stage::AwaitingLoginAttempt, login) == Stage::Done,
        stage_after_frames(
            Stage::AwaitingConnectionRequest,
            seq![request, incoming, settings, login],
        ) == Stage::Done,
{
    lemma_asks_for_settings(settings);
    lemma_asks_for_settings(login);
    let all = seq![request, incoming, settings, login];
    assert(all.drop_last() =~= seq![request, incoming, settings]);
    assert(all.drop_last().drop_last() =~= seq![request, incoming]);
    assert(all.drop_last().drop_last().drop_last() =~= seq![request]);
    assert(all.drop_last().drop_last().drop_last().drop_last() =~= Seq::empty());
    reveal_with_fuel(stage_after_frames, 5);
}

/// The opening requests of a handshake are answered in every stage, and leave
/// the stage as it is.
pub proof fn opening_requests_keep_the_stage(s: SessionView, data: Seq<u8>, cx: Context)
    requires
        data.len() > 0,
        data[0] == 0x05 || data[0] == 0x07,
    ensures
        after_datagram(s, data, cx) == (SessionView { last_activity: cx.now, ..s }),
        data[0] == 0x05 ==> replies_to(s, data, cx) == match open_connection_reply_1(
            data,
            cx.server_guid,
        ) {
            Some(reply) => seq![reply],
            None => Seq::empty(),
        },
        data[0] == 0x07 ==> replies_to(s, data, cx) == match open_connection_reply_2(
            data,
            cx.client,
            cx.server_guid,
        ) {
            Some(reply) => seq![reply],
            None => Seq::empty(),
        },
{
}

/// A client that sends a step again, since a reply was lost, does no harm: the
/// same frame changes nothing the second time and sends nothing.
pub proof fn repeated_steps_change_nothing(
    s: SessionView,
    payload: Seq<u8>,
    cx: Context,
    again: Context,
)
    requires
        next_stage(s.stage, payload) != s.stage,
    ensures
        after_frame(after_frame(s, payload, cx), payload, again) == after_frame(s, payload, cx),
        frame_replies(after_frame(s, payload, cx), payload, again) == Seq::<Seq<u8>>::empty(),
{
    if s.stage == Stage::AwaitingNewIncomingConnection {
        assert(batch_packets(payload) == seq![payload]);
        let request = MC_ID_REQUEST_NETWORK_SETTINGS@;
        assert(request[0] == 0xC1);
        if payload.len() >= 2 {
            assert(payload.take(2)[0] == payload[0]);
        }
        assert(!starts_with(payload, request));
        assert(!requests_network_settings(payload));
    }
}

// ---------------------------------------------------------------------
// What each step gets
// ---------------------------------------------------------------------

/// Whether some packet in a payload starts with the id of a request for the
/// network settings.
pub open spec fn asks_for_settings(payload: Seq<u8>) -> bool {
    exists|k: int|
        0 <= k < batch_packets(payload).len() && (#[trigger] batch_packets(payload)[k]).len() >= 2
            && batch_packets(payload)[k][0] == 0xC1 && batch_packets(payload)[k][1] == 0x01
}

proof fn lemma_asks_for_settings(payload: Seq<u8>)
    ensures
        requests_network_settings(payload) <==> asks_for_settings(payload),
{
    let id = MC_ID_REQUEST_NETWORK_SETTINGS@;
    assert(id =~= seq![0xC1u8, 0x01]);
    assert forall|p: Seq<u8>| #[trigger] starts_with(p, id) <==> p.len() >= 2 && p[0] == 0xC1
        && p[1] == 0x01 by {
        if p.len() >= 2 && p[0] == 0xC1 && p[1] == 0x01 {
            assert(p.take(2) =~= id);
        }
        if starts_with(p, id) {
            assert(p.take(2)[0] == 0xC1 && p.take(2)[1] == 0x01);
        }
    }
    if asks_for_settings(payload) {
        let k = choose|k: int|
            0 <= k < batch_packets(payload).len() && (#[trigger] batch_packets(payload)[k]).len()
                >= 2 && batch_packets(payload)[k][0] == 0xC1 && batch_packets(payload)[k][1]
                == 0x01;
        assert(starts_with(batch_packets(payload)[k], id));
    }
}

/// A batch asks for the network settings exactly where one of the packets that
/// were put in it does.
pub proof fn settings_request_is_found_in_a_batch(packets: Seq<Seq<u8>>)
    requires
        lengths_fit(packets),
    ensures
        requests_network_settings(batch_of_all(packets)) <==> exists|k: int|
            0 <= k < packets.len() && (#[trigger] packets[k]).len() >= 2 && packets[k][0] == 0xC1
                && packets[k][1] == 0x01,
{
    batch_splits_back(packets);
    lemma_asks_for_settings(batch_of_all(packets));
}

/// What a frame leads to. A connection request is accepted, with the time that
/// it holds; a new connection is noted; a request for the network settings
/// gets them; and what comes then, if it is neither a keep-alive nor that
/// request again, is a login and gets the disconnect with the two lines.
/// Anything else changes nothing and gets nothing.
pub proof fn each_step_gets_its_answer(s: SessionView, payload: Seq<u8>, cx: Context)
    ensures
        ({
            let replies = frame_replies(s, payload, cx);
            let after = after_frame(s, payload, cx);
            let nothing = Seq::<Seq<u8>>::empty();
            match s.stage {
                Stage::AwaitingConnectionRequest => if payload.len() >= 17 && payload[0] == 0x09 {
                    &&& replies == seq![
                        s.wrapped(
                            connection_request_accepted(
                                cx.client,
                                payload.subrange(9, 17),
                                cx.millis,
                            ),
                        ),
                    ]
                    &&& after == (SessionView {
                        stage: Stage::AwaitingNewIncomingConnection,
                        ..s
                    }).sent_one()
                } else {
                    replies == nothing && after == s
                },
                Stage::AwaitingNewIncomingConnection => if payload.len() >= 1 && payload[0]
                    == 0x13 {
                    &&& replies == nothing
                    &&& after == (SessionView {
                        stage: Stage::AwaitingNetworkSettingsRequest,
                        ..s
                    })
                } else {
                    replies == nothing && after == s
                },
                Stage::AwaitingNetworkSettingsRequest => if asks_for_settings(payload) {
                    &&& replies == seq![s.wrapped(network_settings())]
                    &&& after == (SessionView {
                        stage: Stage::AwaitingLoginAttempt,
                        ..s
                    }).sent_one()
                } else {
                    replies == nothing && after == s
                },
                Stage::AwaitingLoginAttempt => if (payload.len() >= 1 && payload[0] == 0x00)
                    || asks_for_settings(payload) {
                    replies == nothing && after == s
                } else {
                    &&& replies == seq![s.wrapped(disconnect(cx.line1, cx.line2))]
                    &&& after == (SessionView { stage: Stage::Done, ..s }).sent_one()
                },
                Stage::Done => replies == nothing && after == s,
            }
        }),
{
    lemma_asks_for_settings(payload);
}

/// A datagram with one frame gets its acknowledgement and then what the frame
/// gets, and the session is the one after the frame.
pub proof fn one_frame_gets_its_answer(s: SessionView, data: Seq<u8>, payload: Seq<u8>, cx: Context)
    requires
        holds_frames(data),
        data.len() >= 4,
        frames(data) == seq![payload],
    ensures
        replies_to(s, data, cx) == seq![seq![0xC0u8, 0, 1, 1, data[1], data[2], data[3]]]
            + frame_replies(s, payload, cx),
        after_datagram(s, data, cx) == after_frame(
            (SessionView { last_activity: cx.now, ..s }),
            payload,
            cx,
        ),
{
    reveal_with_fuel(after_frames, 2);
    reveal_with_fuel(frames_replies, 2);
    assert(frames(data).drop_last() =~= Seq::empty());
    frame_sets_are_acknowledged_once(s, data, cx);
    assert(replies_to(s, data, cx) =~= seq![
        seq![0xC0u8, 0, 1, 1, data[1], data[2], data[3]],
    ] + frame_replies(s, payload, cx));
}

/// The frames of a datagram are taken one after the other: the last one meets
/// the session that those before it have left, and is answered last.
pub proof fn frames_are_answered_in_order(
    s: SessionView,
    data: Seq<u8>,
    before: Seq<Seq<u8>>,
    last: Seq<u8>,
    cx: Context,
)
    requires
        holds_frames(data),
        data.len() >= 4,
        before.len() > 0,
        frames(data) == before.push(last),
    ensures
        ({
            let now = SessionView { last_activity: cx.now, ..s };
            &&& after_datagram(s, data, cx) == after_frame(after_frames(now, before, cx), last, cx)
            &&& replies_to(s, data, cx) == seq![
                seq![0xC0u8, 0, 1, 1, data[1], data[2], data[3]],
            ] + frames_replies(now, before, cx) + frame_replies(
                after_frames(now, before, cx),
                last,
                cx,
            )
        }),
{
    let now = SessionView { last_activity: cx.now, ..s };
    assert(before.push(last).drop_last() =~= before);
    frames_keep_the_rest(s, frames(data), cx, cx.now);
    frame_sets_are_acknowledged_once(s, data, cx);
    assert(replies_to(s, data, cx) =~= seq![
        seq![0xC0u8, 0, 1, 1, data[1], data[2], data[3]],
    ] + frames_replies(now, before, cx) + frame_replies(after_frames(now, before, cx), last, cx));
}

/// A fragment counts where its packet has one to 4096 fragments, it is one of
/// them, and it does not contradict those of the same packet. It is then added
/// to them, or starts the packet if that is a new one.
pub proof fn fragments_are_collected(pending: PendingSplit, fragment: FragmentHeader)
    ensures
        ({
            let contradicts = pending matches Some((id, count, seen)) && id == fragment.split_id
                && count != fragment.split_count;
            let counts = 1 <= fragment.split_count <= 4096 && fragment.split_index
                < fragment.split_count && !contradicts;
            let before = match pending {
                Some((id, count, seen)) => if id == fragment.split_id {
                    seen
                } else {
                    Set::empty()
                },
                None => Set::empty(),
            };
            &&& fragment_accepted(pending, fragment) <==> counts
            &&& counts ==> split_after(pending, fragment) == Some(
                (fragment.split_id, fragment.split_count, before.insert(fragment.split_index)),
            )
            &&& fragment.split_count == 0 || fragment.split_count > 4096 || contradicts
                ==> split_after(pending, fragment) is None
            &&& 1 <= fragment.split_count <= 4096 && !contradicts && fragment.split_index
                >= fragment.split_count ==> split_after(pending, fragment) == pending
        }),
{
}

/// While a login is awaited, a fragment of it gets its acknowledgement, and
/// the disconnect with it exactly where it is the last one that was missing.
pub proof fn last_fragment_brings_the_disconnect(
    s: SessionView,
    data: Seq<u8>,
    fragment: FragmentHeader,
    cx: Context,
)
    requires
        s.valid(),
        s.stage == Stage::AwaitingLoginAttempt,
        holds_frames(data),
        fragment_header(data) == Some(fragment),
        fragment_accepted(s.pending_split, fragment),
    ensures
        ({
            let complete = split_after(s.pending_split, fragment) matches Some((id, count, seen))
                && forall|i: u32| i < count ==> #[trigger] seen.contains(i);
            let acknowledged = seq![0xC0u8, 0, 1, 1, data[1], data[2], data[3]];
            &&& replies_to(s, data, cx) == if complete {
                seq![acknowledged, s.wrapped(disconnect(cx.line1, cx.line2))]
            } else {
                seq![acknowledged]
            }
            &&& after_datagram(s, data, cx).stage == if complete {
                Stage::Done
            } else {
                Stage::AwaitingLoginAttempt
            }
            &&& after_datagram(s, data, cx).pending_split == split_after(s.pending_split, fragment)
            &&& after_datagram(s, data, cx).last_activity == cx.now
        }),
{
    login_waits_for_every_fragment(s.pending_split, data);
    frame_sets_are_acknowledged_once(s, data, cx);
    assert(frames(data) =~= Seq::empty());
    let acknowledged = seq![0xC0u8, 0, 1, 1, data[1], data[2], data[3]];
    assert(acknowledgement(data) =~= seq![acknowledged]);
    if login_complete(s.pending_split, data) {
        assert(replies_to(s, data, cx) =~= seq![
            acknowledged,
            s.wrapped(disconnect(cx.line1, cx.line2)),
        ]);
    }
}

/// While a login is awaited, a fragment that does not count gets its
/// acknowledgement and nothing else, and leaves the session to grow idle.
pub proof fn other_fragments_are_no_activity(s: SessionView, data: Seq<u8>, cx: Context)
    requires
        s.stage == Stage::AwaitingLoginAttempt,
        holds_frames(data),
        data.len() > 4,
        data[4] / 16 % 2 == 1,
        fragment_header(data) matches Some(fragment) ==> !fragment_accepted(
            s.pending_split,
            fragment,
        ),
    ensures
        replies_to(s, data, cx) == seq![seq![0xC0u8, 0, 1, 1, data[1], data[2], data[3]]],
        after_datagram(s, data, cx).stage == Stage::AwaitingLoginAttempt,
        after_datagram(s, data, cx).last_activity == s.last_activity,
{
    frame_sets_are_acknowledged_once(s, data, cx);
    assert(frames(data) =~= Seq::empty());
    assert(acknowledgement(data) =~= seq![
        seq![0xC0u8, 0, 1, 1, data[1], data[2], data[3]],
    ]);
}

/// While a login is awaited, a datagram without a frame that is no fragment
/// either counts as the login.
pub proof fn unreadable_logins_are_turned_away(s: SessionView, data: Seq<u8>, cx: Context)
    requires
        s.stage == Stage::AwaitingLoginAttempt,
        holds_frames(data),
        data.len() >= 4,
        data.len() > 4 ==> data[4] / 16 % 2 == 0,
        frames(data).len() == 0,
    ensures
        replies_to(s, data, cx) == seq![
            seq![0xC0u8, 0, 1, 1, data[1], data[2], data[3]],
            s.wrapped(disconnect(cx.line1, cx.line2)),
        ],
        after_datagram(s, data, cx).stage == Stage::Done,
{
    frame_sets_are_acknowledged_once(s, data, cx);
    assert(replies_to(s, data, cx) =~= seq![
        seq![0xC0u8, 0, 1, 1, data[1], data[2], data[3]],
        s.wrapped(disconnect(cx.line1, cx.line2)),
    ]);
}

/// Before a login is awaited, and after, a datagram without a frame only gets
/// its acknowledgement and counts as activity.
pub proof fn unreadable_datagrams_are_acknowledged(s: SessionView, data: Seq<u8>, cx: Context)
    requires
        s.stage != Stage::AwaitingLoginAttempt,
        holds_frames(data),
        data.len() >= 4,
        frames(data).len() == 0,
    ensures
        replies_to(s, data, cx) == seq![seq![0xC0u8, 0, 1, 1, data[1], data[2], data[3]]],
        after_datagram(s, data, cx) == (SessionView { last_activity: cx.now, ..s }),
{
    frame_sets_are_acknowledged_once(s, data, cx);
    assert(replies_to(s, data, cx) =~= seq![
        seq![0xC0u8, 0, 1, 1, data[1], data[2], data[3]],
    ]);
}

/// A new session has come nowhere, has sent nothing and waits for no fragment.
pub proof fn new_sessions_start_at_the_beginning(now: Instant)
    ensures
        fresh_session(now).stage == Stage::AwaitingConnectionRequest,
        fresh_session(now).out_seq == 0,
        fresh_session(now).out_reliable_index == 0,
        fresh_session(now).out_order_index == 0,
        fresh_session(now).pending_split is None,
        fresh_session(now).last_activity == now,
{
}

/// The time that is sent is in milliseconds and the identifier in nanoseconds,
/// as far as 64 bits hold them.
pub proof fn clock_readings_are_in_their_units(since_epoch: Duration)
    ensures
        since_epoch.nanos < 0x8000_0000_0000_0000 ==> guid_from_clock(Some(since_epoch))
            == since_epoch.nanos,
        since_epoch.nanos / 1_000_000 < 0x8000_0000_0000_0000 ==> millis_at(Some(since_epoch))
            == since_epoch.nanos / 1_000_000,
        (guid_from_clock(Some(since_epoch)) - since_epoch.nanos) % 0x1_0000_0000_0000_0000 == 0,
        guid_from_clock(None) == 0,
        millis_at(None) == 0,
{
}

} // verus!
