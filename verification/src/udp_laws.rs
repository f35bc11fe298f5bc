//! What holds of the UDP relay as a whole.

use std::time::Instant;

use vstd::prelude::*;
use vstd::set_lib::lemma_len_subset;

use crate::net::{AddrView, SocketAddr};
use crate::time::{nanos_between, Duration};
use crate::plugins::bedrock_offline::{
    after_datagram, replies_to, unconnected_ping, unconnected_pong, BedrockOfflineConfig, Context,
    SessionView, Stage,
};
use crate::plugins::handshake_laws::{opening_requests_keep_the_stage, short_lines_fit};
use crate::plugins::raknet::RAKNET_MAGIC;
use crate::udp_proxy::{
    active_sessions, disconnect_can_be_sent, handled_offline, local_addr_for, next_step,
    offline_context, offline_replies, return_path_end, session_active, session_is_there, session_of,
    session_removable, sessions_after, total_len, EnqueueResult, PendingView, ReturnPathEnd,
    ReturnPathEvent, Session, StepView, UdpProxyConfig, MAX_DATAGRAM, MAX_PENDING_BYTES,
    MAX_PENDING_CLIENTS, MAX_PENDING_DATAGRAMS, PROBE_INTERVAL,
};
use crate::udp_relay::{
    answered_offline, ActionView, Arrival, DropNotice, RelayView, SelectionActionView,
};

verus! {

/// The first target that responds, in order.
pub open spec fn first_responder(
    targets: Seq<SocketAddr>,
    responds: spec_fn(AddrView) -> bool,
) -> Option<AddrView>
    decreases targets.len(),
{
    if targets.len() == 0 {
        None
    } else {
        match first_responder(targets.drop_last(), responds) {
            Some(t) => Some(t),
            None => if responds(targets.last()@) {
                Some(targets.last()@)
            } else {
                None
            },
        }
    }
}

/// What a selection comes to from a step on.
pub open spec fn selection_outcome(
    targets: Seq<SocketAddr>,
    responds: spec_fn(AddrView) -> bool,
    probed: int,
    responded: bool,
) -> Option<AddrView>
    decreases targets.len() - probed,
{
    if probed < 0 || probed > targets.len() {
        None
    } else {
        match next_step(targets, probed, responded) {
            StepView::Selected(selected) => selected,
            StepView::Probe(target) => if probed < targets.len() {
                selection_outcome(targets, responds, probed + 1, responds(target))
            } else {
                None
            },
        }
    }
}

proof fn lemma_outcome(
    targets: Seq<SocketAddr>,
    responds: spec_fn(AddrView) -> bool,
    probed: int,
)
    requires
        0 <= probed <= targets.len(),
        first_responder(targets.take(probed), responds) is None,
    ensures
        selection_outcome(targets, responds, probed, false) == first_responder(targets, responds),
    decreases targets.len() - probed,
{
    if probed == targets.len() {
        assert(targets.take(probed) =~= targets);
    } else {
        let next = targets.take(probed + 1);
        assert(next.drop_last() =~= targets.take(probed));
        let target = targets[probed]@;
        if responds(target) {
            reveal_with_fuel(selection_outcome, 2);
            assert(first_responder(next, responds) == Some(target));
            lemma_first_responder_stays(targets, responds, probed + 1);
            assert(next_step(targets, probed + 1, true) == StepView::Selected(Some(target)));
        } else {
            lemma_outcome(targets, responds, probed + 1);
        }
    }
}

proof fn lemma_first_responder_stays(
    targets: Seq<SocketAddr>,
    responds: spec_fn(AddrView) -> bool,
    k: int,
)
    requires
        0 <= k <= targets.len(),
        first_responder(targets.take(k), responds) is Some,
    ensures
        first_responder(targets, responds) == first_responder(targets.take(k), responds),
    decreases targets.len(),
{
    if k == targets.len() {
        assert(targets.take(k) =~= targets);
    } else {
        assert(targets.drop_last().take(k) =~= targets.take(k));
        lemma_first_responder_stays(targets.drop_last(), responds, k);
    }
}

/// A selection comes to the first target, in order, that responds to its
/// probe.
pub proof fn selection_finds_first_responder(
    targets: Seq<SocketAddr>,
    responds: spec_fn(AddrView) -> bool,
)
    ensures
        selection_outcome(targets, responds, 0, false) == first_responder(targets, responds),
{
    assert(targets.take(0) =~= Seq::empty());
    lemma_outcome(targets, responds, 0);
}

/// A relay's state stays within its limits whatever datagram arrives.
pub proof fn datagrams_keep_the_limits(
    relay: RelayView,
    config: &UdpProxyConfig,
    sessions: Map<AddrView, Session>,
    a: Arrival,
)
    requires
        relay.within_limits(),
        relay.pending.max_clients == MAX_PENDING_CLIENTS,
        relay.pending.max_bytes == MAX_PENDING_BYTES,
    ensures
        relay.after(config, sessions, a).within_limits(),
{
    let fakes = active_sessions(relay.fake_sessions, a.now);
    lemma_len_subset(fakes.dom(), relay.fake_sessions.dom());
    let after = relay.after(config, sessions, a);
    let before = relay.pending.selections;
    assert forall|c: AddrView| after.pending.selections.contains_key(c) implies (
    #[trigger] after.pending.selections[c]).datagrams.len() <= MAX_PENDING_DATAGRAMS by {
        if c != a.client {
            assert(before.contains_key(c) && after.pending.selections[c] == before[c]);
        }
        if before.contains_key(c) {
            assert(before[c].datagrams.len() <= MAX_PENDING_DATAGRAMS);
        }
    }
    if before.contains_key(a.client) {
        assert(before.dom().insert(a.client) =~= before.dom());
    }
}

/// A relay's state stays within its limits whatever a target selection comes
/// to.
pub proof fn selections_keep_the_limits(relay: RelayView, client: AddrView, generation: u64)
    requires
        relay.within_limits(),
    ensures
        relay.after_selection(client, generation).within_limits(),
{
    let after = relay.after_selection(client, generation).pending.selections;
    let before = relay.pending.selections;
    assert forall|c: AddrView| after.contains_key(c) implies (
    #[trigger] after[c]).datagrams.len() <= MAX_PENDING_DATAGRAMS by {
        assert(before.contains_key(c) && after[c] == before[c]);
    }
}

/// A client that has a session with a target keeps to it: no other target is
/// probed or opened for it while the session lasts, unless it is answered
/// offline.
pub proof fn established_session_stays_pinned(
    relay: RelayView,
    config: &UdpProxyConfig,
    sessions: Map<AddrView, Session>,
    a: Arrival,
)
    requires
        sessions.contains_key(a.client),
        !answered_offline(
            config.bedrock_offline,
            active_sessions(relay.fake_sessions, a.now),
            a,
        ),
    ensures
        relay.action(config, sessions, a) == ActionView::Forward(sessions[a.client].socket),
        relay.after(config, sessions, a).pending == relay.pending,
{
}

/// A lone target is used without any probe: its datagrams are forwarded, or
/// answered while it is down, and never wait.
pub proof fn lone_target_is_never_selected(
    relay: RelayView,
    config: &UdpProxyConfig,
    sessions: Map<AddrView, Session>,
    a: Arrival,
)
    requires
        config.targets@.len() == 1,
    ensures
        match relay.action(config, sessions, a) {
            ActionView::Queued => false,
            ActionView::Drop(notice) => false,
            ActionView::Select(generation) => false,
            _ => true,
        },
        relay.after(config, sessions, a).pending == relay.pending,
{
}

/// Without an offline configuration nothing is ever answered in place of the
/// targets.
pub proof fn no_offline_answers_without_config(
    relay: RelayView,
    config: &UdpProxyConfig,
    sessions: Map<AddrView, Session>,
    a: Arrival,
)
    requires
        config.bedrock_offline is None,
    ensures
        !(relay.action(config, sessions, a) is Reply),
{
}

/// The pending clients after a number of datagrams of one of them.
pub open spec fn enqueue_all(
    pending: PendingView,
    client: AddrView,
    datagrams: Seq<Seq<u8>>,
) -> PendingView
    decreases datagrams.len(),
{
    if datagrams.len() == 0 {
        pending
    } else {
        enqueue_all(pending, client, datagrams.drop_last()).enqueued(client, datagrams.last())
    }
}

/// Whether each of a number of datagrams finds room.
pub open spec fn all_queued(pending: PendingView, client: AddrView, datagrams: Seq<Seq<u8>>) -> bool
    decreases datagrams.len(),
{
    datagrams.len() == 0 || (all_queued(pending, client, datagrams.drop_last()) && enqueue_all(
        pending,
        client,
        datagrams.drop_last(),
    ).enqueue_result(client, datagrams.last()) == EnqueueResult::Queued)
}

proof fn lemma_enqueue_all(
    pending: PendingView,
    client: AddrView,
    generation: u64,
    first: Seq<u8>,
    rest: Seq<Seq<u8>>,
)
    requires
        all_queued(pending.started(client, generation, first), client, rest),
    ensures
        enqueue_all(pending.started(client, generation, first), client, rest).current(
            client,
            generation,
        ),
        enqueue_all(
            pending.started(client, generation, first),
            client,
            rest,
        ).selections[client].datagrams == seq![first] + rest,
    decreases rest.len(),
{
    let started = pending.started(client, generation, first);
    if rest.len() == 0 {
        assert(seq![first] + rest =~= seq![first]);
    } else {
        lemma_enqueue_all(pending, client, generation, first, rest.drop_last());
        assert((seq![first] + rest.drop_last()).push(rest.last()) =~= seq![first] + rest);
    }
}

/// What is queued while a target is selected goes to the target that is found,
/// each datagram once and in the order of arrival; afterwards nothing is
/// pending for the client.
pub proof fn queued_datagrams_are_forwarded_in_order(
    relay: RelayView,
    offline: bool,
    client: AddrView,
    generation: u64,
    first: Seq<u8>,
    rest: Seq<Seq<u8>>,
    target: AddrView,
)
    requires
        all_queued(relay.pending.started(client, generation, first), client, rest),
    ensures
        ({
            let waiting = RelayView {
                pending: enqueue_all(
                    relay.pending.started(client, generation, first),
                    client,
                    rest,
                ),
                ..relay
            };
            &&& waiting.selection_action(offline, client, generation, Some(target))
                == SelectionActionView::Open(target, seq![first] + rest)
            &&& !waiting.after_selection(client, generation).pending.selections.contains_key(
                client,
            )
        }),
{
    lemma_enqueue_all(relay.pending, client, generation, first, rest);
}

/// The outcome of a selection that no longer runs changes nothing.
pub proof fn stale_selections_change_nothing(
    relay: RelayView,
    offline: bool,
    client: AddrView,
    generation: u64,
    target: Option<AddrView>,
)
    requires
        !relay.pending.current(client, generation),
    ensures
        relay.selection_action(offline, client, generation, target) == SelectionActionView::Stale,
        relay.after_selection(client, generation) == relay,
{
}

/// Each selection is reported once: the same report again is stale.
pub proof fn selection_is_reported_once(relay: RelayView, client: AddrView, generation: u64)
    ensures
        !relay.after_selection(client, generation).pending.current(client, generation),
{
}

/// A fake session that has been idle for too long no longer holds its client:
/// with several targets, they are probed anew.
pub proof fn expired_fake_session_probes_again(
    relay: RelayView,
    config: &UdpProxyConfig,
    sessions: Map<AddrView, Session>,
    a: Arrival,
)
    requires
        relay.fake_sessions.contains_key(a.client) ==> !session_active(
            relay.fake_sessions[a.client],
            a.now,
        ),
        a.reachable is None,
        !sessions.contains_key(a.client),
        config.targets@.len() != 1,
        !relay.pending.selections.contains_key(a.client),
        relay.pending.has_room(a.datagram),
    ensures
        relay.action(config, sessions, a) is Select,
{
}

/// A session through another socket than the caller's is never removed, nor
/// one that has been active within the timeout.
pub proof fn only_own_idle_sessions_are_removed(
    session: Session,
    socket: u64,
    idle_timeout: Option<Duration>,
    now: Instant,
)
    ensures
        session.socket != socket ==> !session_removable(session, socket, idle_timeout, now),
        idle_timeout matches Some(limit) ==> nanos_between(now, session.last_seen) < limit.nanos
            ==> !session_removable(session, socket, idle_timeout, now),
        session.socket == socket && (idle_timeout matches Some(limit) ==> nanos_between(
            now,
            session.last_seen,
        ) >= limit.nanos) ==> session_removable(session, socket, idle_timeout, now),
{
}

// ---------------------------------------------------------------------
// When the relay answers, and when it leaves the targets to it
// ---------------------------------------------------------------------

/// Whether a client has a fake session that has not sat idle for fifteen
/// seconds.
pub open spec fn in_fake_session(relay: RelayView, client: AddrView, now: Instant) -> bool {
    relay.fake_sessions.contains_key(client) && nanos_between(
        now,
        relay.fake_sessions[client].last_activity,
    ) < 15_000_000_000
}

/// Whether a datagram is a ping for the server list: one of two ids, eight
/// bytes of time, and the magic.
pub open spec fn is_list_ping(datagram: Seq<u8>) -> bool {
    &&& datagram.len() >= 25
    &&& datagram[0] == 0x01 || datagram[0] == 0x02
    &&& datagram.subrange(9, 25) == seq![
        0x00u8, 0xff, 0xff, 0x00, 0xfe, 0xfe, 0xfe, 0xfe, 0xfd, 0xfd, 0xfd, 0xfd, 0x12, 0x34, 0x56,
        0x78,
    ]
}

/// Whether a datagram is one of the two opening requests of a handshake.
pub open spec fn is_opening_request(datagram: Seq<u8>) -> bool {
    datagram.len() > 0 && (datagram[0] == 0x05 || datagram[0] == 0x07)
}

proof fn lemma_list_ping(datagram: Seq<u8>)
    ensures
        unconnected_ping(datagram) <==> is_list_ping(datagram),
{
    assert(RAKNET_MAGIC@ =~= seq![
        0x00u8, 0xff, 0xff, 0x00, 0xfe, 0xfe, 0xfe, 0xfe, 0xfd, 0xfd, 0xfd, 0xfd, 0x12, 0x34, 0x56,
        0x78,
    ]);
}

/// While a target is not known to be down, no client is answered in its place
/// unless it is in the middle of a fake handshake. Whatever such a client
/// sends goes through its session, or to the lone target, and it gets no fake
/// session.
pub proof fn live_target_gets_every_datagram(
    relay: RelayView,
    config: &UdpProxyConfig,
    sessions: Map<AddrView, Session>,
    a: Arrival,
)
    requires
        a.reachable != Some(false),
        !in_fake_session(relay, a.client, a.now),
    ensures
        !(relay.action(config, sessions, a) is Reply),
        !(relay.action(config, sessions, a) is Ignore),
        sessions.contains_key(a.client) ==> relay.action(config, sessions, a)
            == ActionView::Forward(sessions[a.client].socket),
        !sessions.contains_key(a.client) && config.targets@.len() == 1 ==> relay.action(
            config,
            sessions,
            a,
        ) == ActionView::Open(config.targets@[0]@),
        !relay.after(config, sessions, a).fake_sessions.contains_key(a.client),
{
}

/// Whoever is answered in place of the targets is in the middle of a fake
/// handshake, or the lone target is known to be down; and there is something
/// to answer with.
pub proof fn answers_have_a_reason(
    relay: RelayView,
    config: &UdpProxyConfig,
    sessions: Map<AddrView, Session>,
    a: Arrival,
)
    requires
        relay.action(config, sessions, a) is Reply,
    ensures
        config.bedrock_offline is Some,
        in_fake_session(relay, a.client, a.now) || a.reachable == Some(false),
        in_fake_session(relay, a.client, a.now) || is_list_ping(a.datagram) || is_opening_request(
            a.datagram,
        ),
{
    lemma_list_ping(a.datagram);
}

/// A client in the middle of a fake handshake stays in it, whatever the
/// prober says by then and whatever session it has: nothing that it sends
/// reaches a target.
pub proof fn fake_handshakes_are_finished(
    relay: RelayView,
    config: &UdpProxyConfig,
    sessions: Map<AddrView, Session>,
    a: Arrival,
)
    requires
        in_fake_session(relay, a.client, a.now),
        config.bedrock_offline is Some,
    ensures
        relay.action(config, sessions, a) is Reply,
        relay.sessions_after(config, sessions, a) == sessions,
        relay.after(config, sessions, a).pending == relay.pending,
{
}

/// While the lone target is known to be down, a ping for the server list is
/// answered with one pong that echoes its time, and starts no fake session.
pub proof fn pings_are_answered_while_down(
    relay: RelayView,
    config: &UdpProxyConfig,
    sessions: Map<AddrView, Session>,
    a: Arrival,
)
    requires
        config.bedrock_offline is Some,
        a.reachable == Some(false),
        is_list_ping(a.datagram),
    ensures
        relay.action(config, sessions, a) matches ActionView::Reply(replies) && replies.len() == 1
            && replies[0].len() >= 35 && replies[0][0] == 0x1c && replies[0].subrange(1, 9)
            == a.datagram.subrange(1, 9),
        relay.after(config, sessions, a).fake_sessions.contains_key(a.client) <==> in_fake_session(
            relay,
            a.client,
            a.now,
        ),
{
    lemma_list_ping(a.datagram);
    let offline = config.bedrock_offline->0;
    let pong = unconnected_pong(a.datagram, &offline, config.listen_addr@.port());
    assert(pong.subrange(1, 9) =~= a.datagram.subrange(1, 9));
}

/// While the lone target is known to be down, an opening request starts a fake
/// session for its client, as long as fewer than 1024 clients have one. Beyond
/// that it is dropped, and starts none.
pub proof fn joins_are_taken_over_while_down(
    relay: RelayView,
    config: &UdpProxyConfig,
    sessions: Map<AddrView, Session>,
    a: Arrival,
)
    requires
        config.bedrock_offline is Some,
        a.reachable == Some(false),
        is_opening_request(a.datagram),
        none_is_finished(relay),
    ensures
        relay.action(config, sessions, a) is Reply,
        relay.after(config, sessions, a).fake_sessions.contains_key(a.client) <==> (in_fake_session(
            relay,
            a.client,
            a.now,
        ) || active_sessions(relay.fake_sessions, a.now).dom().len() < 1024),
{
    lemma_list_ping(a.datagram);
    let fakes = active_sessions(relay.fake_sessions, a.now);
    opening_requests_keep_the_stage(
        session_of(fakes, a.client, a.now),
        a.datagram,
        offline_context(&config.bedrock_offline->0, a.client, a.now, a.millis),
    );
    if fakes.contains_key(a.client) {
        assert(relay.fake_sessions[a.client].stage != Stage::Done);
    }
}

/// While the lone target is known to be down, whatever is neither a ping nor
/// an opening request still goes to it.
pub proof fn other_traffic_is_forwarded_while_down(
    relay: RelayView,
    config: &UdpProxyConfig,
    sessions: Map<AddrView, Session>,
    a: Arrival,
)
    requires
        !in_fake_session(relay, a.client, a.now),
        !is_list_ping(a.datagram),
        !is_opening_request(a.datagram),
        config.targets@.len() == 1,
    ensures
        relay.action(config, sessions, a) == if sessions.contains_key(a.client) {
            ActionView::Forward(sessions[a.client].socket)
        } else {
            ActionView::Open(config.targets@[0]@)
        },
        !relay.after(config, sessions, a).fake_sessions.contains_key(a.client),
{
    lemma_list_ping(a.datagram);
}

/// Whether no fake session is over: one that is has been forgotten.
pub open spec fn none_is_finished(relay: RelayView) -> bool {
    forall|c: AddrView|
        relay.fake_sessions.contains_key(c) ==> (#[trigger] relay.fake_sessions[c]).stage
            != Stage::Done
}

/// A fake session is forgotten as soon as its client has been told to
/// disconnect, so that the next thing it sends is taken for itself.
pub proof fn finished_sessions_are_forgotten(
    relay: RelayView,
    config: &UdpProxyConfig,
    sessions: Map<AddrView, Session>,
    a: Arrival,
)
    requires
        none_is_finished(relay),
    ensures
        none_is_finished(relay.after(config, sessions, a)),
{
    let after = relay.after(config, sessions, a);
    assert forall|c: AddrView| after.fake_sessions.contains_key(c) implies (
    #[trigger] after.fake_sessions[c]).stage != Stage::Done by {
        if c != a.client {
            assert(relay.fake_sessions.contains_key(c));
            assert(after.fake_sessions[c] == relay.fake_sessions[c]);
        } else if relay.fake_sessions.contains_key(c) {
            assert(relay.fake_sessions[c].stage != Stage::Done);
        }
    }
}

/// A datagram of one client leaves the fake sessions of the others alone,
/// except that one which has sat idle for fifteen seconds is dropped.
pub proof fn clients_do_not_meet(
    relay: RelayView,
    config: &UdpProxyConfig,
    sessions: Map<AddrView, Session>,
    a: Arrival,
    other: AddrView,
)
    requires
        other != a.client,
    ensures
        relay.after(config, sessions, a).fake_sessions.contains_key(other) <==> in_fake_session(
            relay,
            other,
            a.now,
        ),
        in_fake_session(relay, other, a.now) ==> relay.after(
            config,
            sessions,
            a,
        ).fake_sessions[other] == relay.fake_sessions[other],
        relay.after(config, sessions, a).pending.selections.contains_key(other)
            <==> relay.pending.selections.contains_key(other),
        relay.pending.selections.contains_key(other) ==> relay.after(
            config,
            sessions,
            a,
        ).pending.selections[other] == relay.pending.selections[other],
        relay.sessions_after(config, sessions, a).contains_key(other) <==> sessions.contains_key(
            other,
        ),
        sessions.contains_key(other) ==> relay.sessions_after(config, sessions, a)[other]
            == sessions[other],
{
}

/// A session with a target is used as it is, and counts as active from the
/// datagram on; no datagram opens or ends one by itself.
pub proof fn forwarding_keeps_the_session_alive(
    relay: RelayView,
    config: &UdpProxyConfig,
    sessions: Map<AddrView, Session>,
    a: Arrival,
)
    ensures
        relay.sessions_after(config, sessions, a).dom() == sessions.dom(),
        sessions.contains_key(a.client) ==> relay.sessions_after(
            config,
            sessions,
            a,
        )[a.client].socket == sessions[a.client].socket,
        relay.action(config, sessions, a) is Forward ==> sessions.contains_key(a.client)
            && relay.sessions_after(config, sessions, a)[a.client].last_seen == a.now,
        !(relay.action(config, sessions, a) is Forward) ==> relay.sessions_after(
            config,
            sessions,
            a,
        ) == sessions,
{
    assert(relay.sessions_after(config, sessions, a).dom() =~= sessions.dom());
}

// ---------------------------------------------------------------------
// Selecting one of several targets
// ---------------------------------------------------------------------

/// Whether a datagram of a client waits for one of several targets to be
/// selected: the client has no session yet, and nobody answers it.
pub open spec fn needs_selection(
    relay: RelayView,
    config: &UdpProxyConfig,
    sessions: Map<AddrView, Session>,
    a: Arrival,
) -> bool {
    &&& config.targets@.len() != 1
    &&& a.reachable is None
    &&& !in_fake_session(relay, a.client, a.now)
    &&& !sessions.contains_key(a.client)
}

/// The first datagram of a new client starts a selection and waits for it, as
/// long as fewer than 1024 clients wait, with at most four megabytes. The
/// number of the selection is the one that is reported as current, and differs
/// from the number of the one before.
pub proof fn new_clients_start_a_selection(
    relay: RelayView,
    config: &UdpProxyConfig,
    sessions: Map<AddrView, Session>,
    a: Arrival,
)
    requires
        needs_selection(relay, config, sessions, a),
        !relay.pending.selections.contains_key(a.client),
        relay.pending.max_clients == MAX_PENDING_CLIENTS,
        relay.pending.max_bytes == MAX_PENDING_BYTES,
        relay.pending.selections.dom().finite(),
    ensures
        ({
            let room = relay.pending.selections.dom().len() < 1024 && relay.pending.total_bytes
                + a.datagram.len() <= 4 * 1024 * 1024;
            let after = relay.after(config, sessions, a).pending;
            if room {
                &&& relay.action(config, sessions, a) matches ActionView::Select(generation)
                &&& generation != relay.next_generation
                &&& after.selections.contains_key(a.client)
                &&& after.selections[a.client].generation == generation
                &&& after.selections[a.client].datagrams == seq![a.datagram]
                &&& !after.selections[a.client].overflow_logged
                &&& after.total_bytes == relay.pending.total_bytes + a.datagram.len()
                &&& relay.after(config, sessions, a).next_generation == generation
            } else {
                &&& relay.action(config, sessions, a) is Drop
                &&& after == relay.pending
                &&& relay.after(config, sessions, a).next_generation != relay.next_generation
            }
        }),
{
}

/// While its target is being selected, a client's datagrams wait in the order
/// of arrival: up to 64 of them, and up to four megabytes for all clients.
/// One more is lost, and nothing else with it.
pub proof fn waiting_clients_queue_up(
    relay: RelayView,
    config: &UdpProxyConfig,
    sessions: Map<AddrView, Session>,
    a: Arrival,
)
    requires
        needs_selection(relay, config, sessions, a),
        relay.pending.selections.contains_key(a.client),
        relay.pending.max_bytes == MAX_PENDING_BYTES,
    ensures
        ({
            let queue = relay.pending.selections[a.client].datagrams;
            let room = queue.len() < 64 && relay.pending.total_bytes + a.datagram.len() <= 4 * 1024
                * 1024;
            let after = relay.after(config, sessions, a).pending;
            &&& after.selections.contains_key(a.client)
            &&& after.selections[a.client].generation
                == relay.pending.selections[a.client].generation
            &&& if room {
                &&& relay.action(config, sessions, a) == ActionView::Queued
                &&& after.selections[a.client].datagrams == queue.push(a.datagram)
                &&& after.total_bytes == relay.pending.total_bytes + a.datagram.len()
            } else {
                &&& relay.action(config, sessions, a) is Drop
                &&& after.selections[a.client].datagrams == queue
                &&& after.total_bytes == relay.pending.total_bytes
            }
        }),
{
}

/// A client whose own queue is full is mentioned once in the log, and not
/// again while its selection runs.
pub proof fn full_queues_are_mentioned_once(
    relay: RelayView,
    config: &UdpProxyConfig,
    sessions: Map<AddrView, Session>,
    a: Arrival,
    next: Arrival,
)
    requires
        needs_selection(relay, config, sessions, a),
        relay.pending.selections.contains_key(a.client),
        relay.pending.selections[a.client].datagrams.len() >= 64,
        next.client == a.client,
        needs_selection(relay.after(config, sessions, a), config, sessions, next),
    ensures
        !relay.pending.selections[a.client].overflow_logged ==> relay.action(config, sessions, a)
            == ActionView::Drop(Some(DropNotice::ClientQueueFull)),
        relay.after(config, sessions, a).action(config, sessions, next) == ActionView::Drop(None),
{
}

/// Want of room for all clients together is mentioned once in the log, and
/// again only after some selection has come to its end.
pub proof fn want_of_room_is_mentioned_once(
    relay: RelayView,
    config: &UdpProxyConfig,
    sessions: Map<AddrView, Session>,
    a: Arrival,
)
    requires
        needs_selection(relay, config, sessions, a),
        relay.pending.selections.contains_key(a.client)
            ==> relay.pending.selections[a.client].datagrams.len() < 64,
        relay.action(config, sessions, a) is Drop,
    ensures
        relay.after(config, sessions, a).global_pending_limit_logged,
        relay.action(config, sessions, a) == ActionView::Drop(
            if relay.global_pending_limit_logged {
                None
            } else if relay.pending.selections.contains_key(a.client) {
                Some(DropNotice::QueuesFull)
            } else {
                Some(DropNotice::NoRoomForClient)
            },
        ),
{
}

/// What the outcome of a selection leads to. A target that responds gets the
/// queue; where none does, the queue is answered offline if that can be, and
/// is lost otherwise. Either way the client waits no longer, its bytes are
/// given back, and all other clients wait on.
pub proof fn selections_empty_the_queue(
    relay: RelayView,
    offline: bool,
    client: AddrView,
    generation: u64,
    target: Option<AddrView>,
    other: AddrView,
)
    requires
        relay.pending.selections.contains_key(client),
        relay.pending.selections[client].generation == generation,
        total_len(relay.pending.selections[client].datagrams) <= relay.pending.total_bytes,
        other != client,
    ensures
        ({
            let queue = relay.pending.selections[client].datagrams;
            let action = relay.selection_action(offline, client, generation, target);
            let after = relay.after_selection(client, generation);
            &&& target matches Some(t) ==> action == SelectionActionView::Open(t, queue)
            &&& target is None && offline ==> action == SelectionActionView::Offline(queue)
            &&& target is None && !offline ==> action == SelectionActionView::Unreachable
            &&& !after.pending.selections.contains_key(client)
            &&& after.pending.total_bytes + total_len(queue) == relay.pending.total_bytes
            &&& after.pending.selections.contains_key(other)
                <==> relay.pending.selections.contains_key(other)
            &&& relay.pending.selections.contains_key(other) ==> after.pending.selections[other]
                == relay.pending.selections[other]
            &&& !after.global_pending_limit_logged
            &&& after.fake_sessions == relay.fake_sessions
        }),
{
}

/// The bytes in a queue are those of its datagrams: one more adds its own.
pub proof fn queued_bytes_add_up(queue: Seq<Seq<u8>>, datagram: Seq<u8>)
    ensures
        total_len(Seq::<Seq<u8>>::empty()) == 0,
        total_len(queue.push(datagram)) == total_len(queue) + datagram.len(),
{
    assert(queue.push(datagram).drop_last() =~= queue);
}

/// The first responder is one of the targets, it responds, and none before it
/// does; where there is none, no target responds.
pub proof fn first_responder_is_first(
    targets: Seq<SocketAddr>,
    responds: spec_fn(AddrView) -> bool,
)
    ensures
        match selection_outcome(targets, responds, 0, false) {
            Some(t) => exists|k: int|
                {
                    &&& 0 <= k < targets.len()
                    &&& #[trigger] targets[k]@ == t
                    &&& responds(t)
                    &&& forall|j: int| 0 <= j < k ==> !responds(#[trigger] targets[j]@)
                },
            None => forall|j: int| 0 <= j < targets.len() ==> !responds(#[trigger] targets[j]@),
        },
{
    selection_finds_first_responder(targets, responds);
    lemma_first_responder_is_first(targets, responds);
}

proof fn lemma_first_responder_is_first(
    targets: Seq<SocketAddr>,
    responds: spec_fn(AddrView) -> bool,
)
    ensures
        match first_responder(targets, responds) {
            Some(t) => exists|k: int|
                {
                    &&& 0 <= k < targets.len()
                    &&& #[trigger] targets[k]@ == t
                    &&& responds(t)
                    &&& forall|j: int| 0 <= j < k ==> !responds(#[trigger] targets[j]@)
                },
            None => forall|j: int| 0 <= j < targets.len() ==> !responds(#[trigger] targets[j]@),
        },
    decreases targets.len(),
{
    if targets.len() > 0 {
        let init = targets.drop_last();
        lemma_first_responder_is_first(init, responds);
        assert forall|j: int| 0 <= j < init.len() implies #[trigger] targets[j] == init[j] by {}
        match first_responder(init, responds) {
            Some(t) => {
                let k = choose|k: int|
                    {
                        &&& 0 <= k < init.len()
                        &&& #[trigger] init[k]@ == t
                        &&& responds(t)
                        &&& forall|j: int| 0 <= j < k ==> !responds(#[trigger] init[j]@)
                    };
                assert(targets[k]@ == t);
                assert forall|j: int| 0 <= j < k implies !responds(#[trigger] targets[j]@) by {
                    assert(!responds(init[j]@));
                }
            },
            None => {
                assert forall|j: int| 0 <= j < targets.len() - 1 implies !responds(
                    #[trigger] targets[j]@,
                ) by {
                    assert(!responds(init[j]@));
                }
                assert(targets.last() == targets[targets.len() - 1]);
            },
        }
    }
}

/// The way back from a target goes on exactly as long as datagrams reach the
/// client, and a quiet spell ends it only with the session.
pub proof fn return_path_ends_with_its_reason(sent: bool, removed: bool)
    ensures
        return_path_end(ReturnPathEvent::Forwarded(sent)) is None <==> sent,
        return_path_end(ReturnPathEvent::Quiet(removed)) is Some <==> removed,
        return_path_end(ReturnPathEvent::TargetFailed) == Some(ReturnPathEnd::TargetClosed),
        !sent ==> return_path_end(ReturnPathEvent::Forwarded(sent)) == Some(
            ReturnPathEnd::ForwardFailed,
        ),
        removed ==> return_path_end(ReturnPathEvent::Quiet(removed)) == Some(
            ReturnPathEnd::IdleTimeout,
        ),
{
}

/// A socket is bound in the family of its target, at any port: an IPv6
/// address stands in brackets, and an IPv4 address does not.
pub proof fn sockets_match_their_target(target: AddrView)
    ensures
        local_addr_for(target) == if target is V6 {
            seq!['[', ':', ':', ']', ':', '0']
        } else {
            seq!['0', '.', '0', '.', '0', '.', '0', ':', '0']
        },
{
    reveal_strlit("[::]:0");
    reveal_strlit("0.0.0.0:0");
    assert(local_addr_for(target) =~= if target is V6 {
        seq!['[', ':', ':', ']', ':', '0']
    } else {
        seq!['0', '.', '0', '.', '0', '.', '0', ':', '0']
    });
}

// ---------------------------------------------------------------------
// Answers in place of the targets
// ---------------------------------------------------------------------

/// Which datagrams are answered where the targets are down: pings, opening
/// requests, and whatever comes from a client with a fake session.
pub proof fn offline_answers_are_for_players(
    fakes: Map<AddrView, SessionView>,
    client: AddrView,
    datagram: Seq<u8>,
)
    ensures
        handled_offline(fakes, client, datagram) <==> is_list_ping(datagram) || is_opening_request(
            datagram,
        ) || fakes.contains_key(client),
{
    lemma_list_ping(datagram);
}

/// A ping is answered with the pong for it and this server, and leaves the
/// fake sessions alone, also that of its client.
pub proof fn offline_pings_get_a_pong(
    config: &BedrockOfflineConfig,
    listen_port: u16,
    fakes: Map<AddrView, SessionView>,
    client: AddrView,
    datagram: Seq<u8>,
    now: Instant,
    millis: i64,
)
    requires
        is_list_ping(datagram),
    ensures
        offline_replies(config, listen_port, fakes, client, datagram, now, millis) == seq![
            unconnected_pong(datagram, config, listen_port),
        ],
        sessions_after(config, fakes, client, datagram, now, millis) == fakes,
{
    lemma_list_ping(datagram);
}

/// Anything else goes to the client's own fake session, or to a new one where
/// it opens a handshake and fewer than 1024 clients have one. It is answered
/// with this server's identifier and lines, and to this client's address. The
/// session is kept as the datagram leaves it, unless it is over.
pub proof fn offline_joins_meet_their_session(
    config: &BedrockOfflineConfig,
    listen_port: u16,
    fakes: Map<AddrView, SessionView>,
    client: AddrView,
    datagram: Seq<u8>,
    now: Instant,
    millis: i64,
)
    requires
        !is_list_ping(datagram),
    ensures
        ({
            let cx = Context {
                client,
                server_guid: config.server_guid,
                line1: config.motd_line1@,
                line2: config.motd_line2@,
                now,
                millis,
            };
            let meets = fakes.contains_key(client) || (is_opening_request(datagram)
                && fakes.dom().len() < 1024);
            let s = if fakes.contains_key(client) {
                fakes[client]
            } else {
                SessionView {
                    stage: Stage::AwaitingConnectionRequest,
                    out_seq: 0,
                    out_reliable_index: 0,
                    out_order_index: 0,
                    last_activity: now,
                    pending_split: None,
                }
            };
            let next = after_datagram(s, datagram, cx);
            &&& offline_replies(config, listen_port, fakes, client, datagram, now, millis)
                == if meets {
                replies_to(s, datagram, cx)
            } else {
                Seq::empty()
            }
            &&& sessions_after(config, fakes, client, datagram, now, millis) == if !meets {
                fakes
            } else if next.stage == Stage::Done {
                fakes.remove(client)
            } else {
                fakes.insert(client, next)
            }
        }),
{
    lemma_list_ping(datagram);
}

/// Where a disconnect with the two lines fits in one frame, whatever comes in
/// can be answered.
pub proof fn short_messages_can_always_be_sent(
    config: &BedrockOfflineConfig,
    fakes: Map<AddrView, SessionView>,
    client: AddrView,
    datagram: Seq<u8>,
)
    requires
        config.motd_line1@.len() + config.motd_line2@.len() <= 1000,
    ensures
        disconnect_can_be_sent(config, fakes, client, datagram),
{
    short_lines_fit(config.motd_line1@, config.motd_line2@);
}

/// The largest datagram is the largest that UDP carries, and a lone target is
/// probed every five seconds.
pub proof fn relay_limits()
    ensures
        MAX_DATAGRAM == 65_535 - 8,
        PROBE_INTERVAL == 5,
{
}

/// A client never has two sessions: one that it has stays, and is the one that
/// is used; otherwise it gets a new one. Either way the other clients keep
/// theirs.
pub proof fn clients_have_one_session(
    before: Map<AddrView, Session>,
    client: AddrView,
    socket: u64,
    now: Instant,
    used: u64,
    after: Map<AddrView, Session>,
    other: AddrView,
)
    requires
        session_is_there(before, client, socket, now, used, after),
        other != client,
    ensures
        after.contains_key(client) && after[client].socket == used,
        before.contains_key(client) ==> after[client] == before[client],
        !before.contains_key(client) ==> used == socket && after[client].last_seen == now,
        after.contains_key(other) <==> before.contains_key(other),
        before.contains_key(other) ==> after[other] == before[other],
{
}

} // verus!
