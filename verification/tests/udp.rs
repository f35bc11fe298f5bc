use std::time::{Duration as StdDuration, Instant};

use redir_rust::client_map::ClientMap;
use redir_rust::net::SocketAddr;
use redir_rust::plugins::bedrock_offline::{
    new_session, ping_probe_at, BedrockOfflineConfig, FakeSession, Stage,
    ID_OPEN_CONNECTION_REQUEST_1, ID_UNCONNECTED_PONG,
};
use redir_rust::plugins::raknet::RAKNET_MAGIC;
use redir_rust::time::Duration;
use redir_rust::udp_proxy::{
    bind_addr_for, can_start_fake_session, create_session, drop_idle_sessions, existing_session,
    handle_offline_datagram, handle_offline_datagram_at, on_return_path, remove_current_session,
    selection_step, touch_session, validate_config, EnqueueResult, PendingState, ReturnPathEnd,
    ReturnPathEvent, SelectionStep, Session, UdpConfigError, UdpProxyConfig, MAX_FAKE_SESSIONS,
    MAX_PENDING_CLIENTS, MAX_PENDING_DATAGRAMS,
};
use redir_rust::udp_relay::{
    watches_lone_target, DatagramAction, DropNotice, Relay, SelectionAction, SelectionResult,
};

fn local(port: u16) -> SocketAddr {
    SocketAddr::v4([127, 0, 0, 1], port)
}

#[test]
fn pending_state_rejects_clients_past_global_limit() {
    let mut state = PendingState::new(2, 1024);
    let a = local(1);
    let b = local(2);
    let c = local(3);

    assert!(state.start(&a, 1, vec![1]));
    assert!(state.start(&b, 2, vec![2]));
    assert!(!state.start(&c, 3, vec![3]));
}

#[test]
fn pending_state_rejects_datagrams_past_global_byte_limit() {
    let mut state = PendingState::new(10, 3);
    let a = local(1);
    let b = local(2);

    assert!(state.start(&a, 1, vec![1, 2]));
    assert!(!state.start(&b, 2, vec![3, 4]));
    let removed = state.remove(&a).unwrap();
    assert_eq!(removed.datagrams.len(), 1);
    assert!(state.start(&b, 2, vec![3, 4]));
}

#[test]
fn pending_state_caps_each_client_at_64_datagrams() {
    let mut state = PendingState::new(10, 1024);
    let client = local(1);
    assert!(state.start(&client, 1, vec![0]));
    for _ in 1..MAX_PENDING_DATAGRAMS {
        assert!(matches!(
            state.enqueue(&client, vec![0]),
            EnqueueResult::Queued
        ));
    }

    assert!(matches!(
        state.enqueue(&client, vec![0]),
        EnqueueResult::PerClientFull { first_drop: true }
    ));
    assert!(matches!(
        state.enqueue(&client, vec![0]),
        EnqueueResult::PerClientFull { first_drop: false }
    ));
    assert_eq!(
        state.selections.get(&client).unwrap().datagrams.len(),
        64
    );
}

#[test]
fn pending_state_accounts_for_enqueued_and_removed_bytes() {
    let mut state = PendingState::new(10, 5);
    let client = local(1);
    assert!(state.start(&client, 1, vec![1, 2]));
    assert_eq!(state.total_bytes, 2);
    assert!(matches!(
        state.enqueue(&client, vec![3, 4, 5]),
        EnqueueResult::Queued
    ));
    assert_eq!(state.total_bytes, 5);
    assert!(matches!(
        state.enqueue(&client, vec![6]),
        EnqueueResult::GloballyFull
    ));
    assert_eq!(state.total_bytes, 5);

    state.remove(&client).unwrap();
    assert_eq!(state.total_bytes, 0);
}

#[test]
fn pending_state_knows_its_clients() {
    let mut state = PendingState::new(10, 5);
    let client = local(1);
    assert!(!state.contains(&client));
    assert!(matches!(
        state.enqueue(&client, vec![1]),
        EnqueueResult::GloballyFull
    ));
    assert!(state.remove(&client).is_none());
    assert!(state.start(&client, 7, vec![1]));
    assert!(state.contains(&client));
    assert!(state.is_current(&client, 7));
    assert!(!state.is_current(&client, 8));
    assert!(!state.is_current(&local(2), 7));
}

#[test]
fn fake_session_capacity_allows_existing_client_but_rejects_new_one() {
    let mut fake_sessions = ClientMap::new();
    for port in 1..=MAX_FAKE_SESSIONS as u16 {
        fake_sessions.insert(&SocketAddr::v4([127, 0, 0, 1], port), new_session());
    }
    let existing = SocketAddr::v4([127, 0, 0, 1], 1);
    let newcomer = SocketAddr::v4([127, 0, 0, 1], 20_000);

    assert!(can_start_fake_session(&fake_sessions, &existing));
    assert!(!can_start_fake_session(&fake_sessions, &newcomer));

    // With no room left, an opening request is taken and gets no reply.
    let offline = Some(offline_config());
    let handled =
        handle_offline_datagram(&offline, 19132, &mut fake_sessions, &newcomer, &opening());
    assert_eq!(handled, Some(vec![]));
    assert_eq!(fake_sessions.len(), MAX_FAKE_SESSIONS);
}

#[test]
fn client_map_holds_one_value_for_each_address() {
    let mut map: ClientMap<u32> = ClientMap::new();
    let v6 = SocketAddr::v6("::1".to_string(), 1);
    assert!(map.insert(&local(1), 10).is_none());
    assert!(map.insert(&v6, 11).is_none());
    assert_eq!(map.insert(&local(1), 12), Some(10));
    assert_eq!(map.len(), 2);
    assert_eq!(map.get(&local(1)), Some(&12));
    assert_eq!(map.get(&v6), Some(&11));
    assert_eq!(map.remove(&local(1)), Some(12));
    assert_eq!(map.remove(&local(1)), None);
    assert!(map.contains_key(&v6));
    assert!(!map.contains_key(&local(1)));
}

fn offline_config() -> BedrockOfflineConfig {
    BedrockOfflineConfig {
        motd_line1: "down".to_string(),
        motd_line2: "later".to_string(),
        server_guid: 42,
    }
}

fn opening() -> Vec<u8> {
    let mut req = vec![ID_OPEN_CONNECTION_REQUEST_1];
    req.extend_from_slice(&RAKNET_MAGIC);
    req.push(11);
    req
}

fn config(targets: Vec<SocketAddr>, offline: bool) -> UdpProxyConfig {
    UdpProxyConfig {
        name: "test".to_string(),
        listen_addr: local(19132),
        targets,
        idle_timeout: Duration::from_secs(60),
        probe_timeout: Duration::from_secs(2),
        bedrock_offline: if offline { Some(offline_config()) } else { None },
    }
}

#[test]
fn offline_datagrams_are_answered_or_passed_on() {
    let mut sessions: ClientMap<FakeSession> = ClientMap::new();
    let client = local(5);
    let now = Instant::now();
    let offline = Some(offline_config());

    // Without a configuration nothing is answered.
    assert_eq!(
        handle_offline_datagram_at(&None, 1, &mut sessions, &client, &opening(), now, 0),
        None
    );
    // A ping is answered without a session.
    let pong =
        handle_offline_datagram_at(&offline, 1, &mut sessions, &client, &ping_probe_at(9), now, 0)
            .unwrap();
    assert_eq!(pong.len(), 1);
    assert_eq!(pong[0][0], ID_UNCONNECTED_PONG);
    assert_eq!(sessions.len(), 0);
    // Other traffic of a client without a session is passed on.
    assert_eq!(
        handle_offline_datagram_at(&offline, 1, &mut sessions, &client, b"hello", now, 0),
        None
    );
    // An opening request starts a session.
    let replies =
        handle_offline_datagram_at(&offline, 1, &mut sessions, &client, &opening(), now, 0)
            .unwrap();
    assert_eq!(replies.len(), 1);
    assert!(sessions.contains_key(&client));
    // From then on everything is taken.
    assert_eq!(
        handle_offline_datagram_at(&offline, 1, &mut sessions, &client, b"hello", now, 0),
        Some(vec![])
    );
    // A session that is done is forgotten.
    sessions.remove(&client);
    let mut last = FakeSession::new_at(now);
    last.stage = Stage::AwaitingLoginAttempt;
    sessions.insert(&client, last);
    let replies =
        handle_offline_datagram_at(&offline, 1, &mut sessions, &client, &[0x84, 0, 0, 0, 0], now, 0)
            .unwrap();
    assert_eq!(replies.len(), 2);
    assert!(!sessions.contains_key(&client));
}

#[test]
fn idle_fake_sessions_are_dropped() {
    let start = Instant::now();
    let mut sessions: ClientMap<FakeSession> = ClientMap::new();
    sessions.insert(&local(1), FakeSession::new_at(start));
    sessions.insert(&local(2), FakeSession::new_at(start + StdDuration::from_secs(1)));
    sessions.insert(&local(3), FakeSession::new_at(start));
    drop_idle_sessions(&mut sessions, start + StdDuration::from_millis(14_999));
    assert_eq!(sessions.len(), 3);
    drop_idle_sessions(&mut sessions, start + StdDuration::from_secs(15));
    assert_eq!(sessions.len(), 1);
    assert!(sessions.contains_key(&local(2)));
}

#[test]
fn idle_cleanup_keeps_matching_session_when_activity_resumed() {
    let client_addr = local(30001);
    let now = Instant::now();
    let mut sessions = ClientMap::new();
    sessions.insert(
        &client_addr,
        Session {
            socket: 1,
            last_seen: now - StdDuration::from_secs(2),
        },
    );
    touch_session(&mut sessions, &client_addr, 1, now);

    let removed = remove_current_session(
        &mut sessions,
        &client_addr,
        1,
        Some(Duration::from_secs(1)),
        now,
    );

    assert!(!removed);
    assert!(sessions.contains_key(&client_addr));
}

#[test]
fn idle_cleanup_removes_truly_idle_matching_session() {
    let client_addr = local(30002);
    let now = Instant::now();
    let mut sessions = ClientMap::new();
    sessions.insert(
        &client_addr,
        Session {
            socket: 1,
            last_seen: now - StdDuration::from_secs(2),
        },
    );

    let removed = remove_current_session(
        &mut sessions,
        &client_addr,
        1,
        Some(Duration::from_secs(1)),
        now,
    );

    assert!(removed);
    assert!(!sessions.contains_key(&client_addr));
}

#[test]
fn cleanup_from_stale_socket_cannot_remove_replacement_session() {
    let client_addr = local(30003);
    let now = Instant::now();
    let mut sessions = ClientMap::new();
    sessions.insert(
        &client_addr,
        Session {
            socket: 2,
            last_seen: now,
        },
    );

    let removed = remove_current_session(&mut sessions, &client_addr, 1, None, now);

    assert!(!removed);
    assert_eq!(sessions.get(&client_addr).unwrap().socket, 2);
    assert!(remove_current_session(&mut sessions, &client_addr, 2, None, now));
    assert!(!remove_current_session(&mut sessions, &client_addr, 2, None, now));
}

#[test]
fn a_client_keeps_the_session_that_it_has() {
    let client_addr = local(30004);
    let start = Instant::now();
    let later = start + StdDuration::from_secs(1);
    let mut sessions = ClientMap::new();
    assert_eq!(existing_session(&mut sessions, &client_addr, start), None);
    assert_eq!(create_session(&mut sessions, &client_addr, 7, start), 7);
    assert_eq!(create_session(&mut sessions, &client_addr, 8, later), 7);
    assert_eq!(sessions.get(&client_addr).unwrap().last_seen, start);
    assert_eq!(existing_session(&mut sessions, &client_addr, later), Some(7));
    assert_eq!(sessions.get(&client_addr).unwrap().last_seen, later);
    touch_session(&mut sessions, &client_addr, 9, start);
    assert_eq!(sessions.get(&client_addr).unwrap().last_seen, later);
}

#[test]
fn empty_target_list_is_rejected_before_binding() {
    let empty = config(vec![], false);
    assert_eq!(validate_config(&empty), Err(UdpConfigError::NoTargets));
    assert_eq!(
        UdpConfigError::NoTargets.message(),
        "udp redirect requires at least one target"
    );
    assert_eq!(validate_config(&config(vec![local(1)], false)), Ok(()));
}

fn step(
    relay: &mut Relay,
    config: &UdpProxyConfig,
    sessions: &mut ClientMap<Session>,
    port: u16,
    datagram: &[u8],
    reachable: Option<bool>,
) -> DatagramAction {
    relay.on_datagram(config, sessions, &local(port), datagram, reachable)
}

#[test]
fn lone_target_is_opened_without_a_probe() {
    let config = config(vec![local(9)], false);
    let mut relay = Relay::new();
    let mut sessions = ClientMap::new();
    match step(&mut relay, &config, &mut sessions, 1, b"x", None) {
        DatagramAction::Open(target) => assert!(target.same(&local(9))),
        _ => panic!("target expected"),
    }
    create_session(&mut sessions, &local(1), 3, Instant::now());
    assert!(matches!(
        step(&mut relay, &config, &mut sessions, 1, b"y", None),
        DatagramAction::Forward(3)
    ));
}

#[test]
fn only_a_lone_target_is_watched() {
    assert!(watches_lone_target(&config(vec![local(9)], true)));
    assert!(!watches_lone_target(&config(vec![local(9)], false)));
    assert!(!watches_lone_target(&config(vec![local(8), local(9)], true)));
}

#[test]
fn lone_target_that_is_down_is_answered_for() {
    let config = config(vec![local(9)], true);
    let mut relay = Relay::new();
    let mut sessions = ClientMap::new();
    match step(&mut relay, &config, &mut sessions, 1, &ping_probe_at(1), Some(false)) {
        DatagramAction::Reply(replies) => assert_eq!(replies[0][0], ID_UNCONNECTED_PONG),
        _ => panic!("pong expected"),
    }
    // What cannot be answered goes to the target all the same.
    assert!(matches!(
        step(&mut relay, &config, &mut sessions, 1, b"x", Some(false)),
        DatagramAction::Open(_)
    ));
    assert!(matches!(
        step(&mut relay, &config, &mut sessions, 1, &ping_probe_at(1), Some(true)),
        DatagramAction::Open(_)
    ));
    // A handshake under way goes on even when the target is back.
    assert!(matches!(
        step(&mut relay, &config, &mut sessions, 1, &opening(), Some(false)),
        DatagramAction::Reply(_)
    ));
    assert!(matches!(
        step(&mut relay, &config, &mut sessions, 1, b"x", Some(true)),
        DatagramAction::Reply(_)
    ));
}

#[test]
fn datagrams_queued_during_selection_are_forwarded_once_in_order() {
    let config = config(vec![local(8), local(9)], false);
    let mut relay = Relay::new();
    let mut sessions = ClientMap::new();
    let generation = match step(&mut relay, &config, &mut sessions, 1, b"a", None) {
        DatagramAction::Select(generation) => generation,
        _ => panic!("selection expected"),
    };
    for datagram in [b"b", b"c"] {
        assert!(matches!(
            step(&mut relay, &config, &mut sessions, 1, datagram, None),
            DatagramAction::Queued
        ));
    }
    let report = |generation: u64| SelectionResult {
        client_addr: local(1),
        generation,
        target_addr: Some(local(9)),
    };
    assert!(matches!(
        relay.on_selection(false, report(generation + 1)),
        SelectionAction::Stale
    ));
    match relay.on_selection(false, report(generation)) {
        SelectionAction::Open(target, queued) => {
            assert!(target.same(&local(9)));
            let queued: Vec<Vec<u8>> = queued.into_iter().collect();
            assert_eq!(queued, vec![b"a".to_vec(), b"b".to_vec(), b"c".to_vec()]);
        }
        _ => panic!("target expected"),
    }
    assert!(matches!(
        relay.on_selection(false, report(generation)),
        SelectionAction::Stale
    ));
    assert_eq!(relay.pending.total_bytes, 0);
}

#[test]
fn silent_targets_are_answered_for_or_given_up() {
    let config = config(vec![local(8), local(9)], true);
    let mut relay = Relay::new();
    let mut sessions = ClientMap::new();
    let report = |generation: u64| SelectionResult {
        client_addr: local(1),
        generation,
        target_addr: None,
    };
    assert!(matches!(
        step(&mut relay, &config, &mut sessions, 1, &ping_probe_at(5), None),
        DatagramAction::Select(1)
    ));
    match relay.on_selection(true, report(1)) {
        SelectionAction::Offline(queued) => assert_eq!(queued[0], ping_probe_at(5)),
        _ => panic!("queue expected"),
    }
    assert!(matches!(
        step(&mut relay, &config, &mut sessions, 1, b"x", None),
        DatagramAction::Select(2)
    ));
    assert!(matches!(
        relay.on_selection(false, report(2)),
        SelectionAction::Unreachable
    ));
}

#[test]
fn expired_fake_session_is_probed_again() {
    let config = config(vec![local(8), local(9)], true);
    let mut relay = Relay::new();
    let mut sessions = ClientMap::new();
    let now = Instant::now();
    relay
        .fake_sessions
        .insert(&local(1), FakeSession::new_at(now - StdDuration::from_secs(20)));
    assert!(matches!(
        relay.on_datagram_at(&config, &mut sessions, &local(1), b"x", None, now, 0),
        DatagramAction::Select(1)
    ));
    assert_eq!(relay.fake_sessions.len(), 0);
}

#[test]
fn fake_session_without_configuration_is_ignored() {
    let config = config(vec![local(9)], false);
    let mut relay = Relay::new();
    let mut sessions = ClientMap::new();
    relay.fake_sessions.insert(&local(1), new_session());
    assert!(matches!(
        step(&mut relay, &config, &mut sessions, 1, b"x", None),
        DatagramAction::Ignore
    ));
}

#[test]
fn drops_are_noted_once() {
    let config = config(vec![local(8), local(9)], false);
    let mut relay = Relay::new();
    let mut sessions = ClientMap::new();
    for port in 1..=MAX_PENDING_CLIENTS as u16 {
        assert!(matches!(
            step(&mut relay, &config, &mut sessions, port, b"x", None),
            DatagramAction::Select(_)
        ));
    }
    assert!(matches!(
        step(&mut relay, &config, &mut sessions, 5000, b"x", None),
        DatagramAction::Drop(Some(DropNotice::NoRoomForClient))
    ));
    assert!(matches!(
        step(&mut relay, &config, &mut sessions, 5000, b"x", None),
        DatagramAction::Drop(None)
    ));
    for _ in 1..MAX_PENDING_DATAGRAMS {
        step(&mut relay, &config, &mut sessions, 1, b"x", None);
    }
    assert!(matches!(
        step(&mut relay, &config, &mut sessions, 1, b"x", None),
        DatagramAction::Drop(Some(DropNotice::ClientQueueFull))
    ));
    assert!(matches!(
        step(&mut relay, &config, &mut sessions, 1, b"x", None),
        DatagramAction::Drop(None)
    ));
    // A selection that comes to its end makes drops worth a note again.
    relay.on_selection(
        false,
        SelectionResult {
            client_addr: local(1),
            generation: 1,
            target_addr: None,
        },
    );
    assert!(!relay.global_pending_limit_logged);
    let mut full = Relay::new();
    let big = vec![0; 4_194_304];
    assert!(matches!(
        step(&mut full, &config, &mut sessions, 1, &big, None),
        DatagramAction::Select(1)
    ));
    assert!(matches!(
        step(&mut full, &config, &mut sessions, 1, b"x", None),
        DatagramAction::Drop(Some(DropNotice::QueuesFull))
    ));
}

#[test]
fn generations_wrap_around() {
    let config = config(vec![local(8), local(9)], false);
    let mut relay = Relay::new();
    let mut sessions = ClientMap::new();
    relay.next_generation = u64::MAX;
    assert!(matches!(
        step(&mut relay, &config, &mut sessions, 1, b"x", None),
        DatagramAction::Select(0)
    ));
}

#[test]
fn targets_are_probed_in_order() {
    let targets = vec![local(1), local(2)];
    let probes = |probed: usize| match selection_step(&targets, probed, false) {
        SelectionStep::Probe(target) => Some(target.port()),
        SelectionStep::Selected(None) => None,
        SelectionStep::Selected(Some(_)) => panic!("nothing has responded"),
    };
    assert_eq!(probes(0), Some(1));
    assert_eq!(probes(1), Some(2));
    assert_eq!(probes(2), None);
    match selection_step(&targets, 1, true) {
        SelectionStep::Selected(Some(target)) => assert_eq!(target.port(), 1),
        _ => panic!("target expected"),
    }
}

#[test]
fn sockets_are_bound_in_the_family_of_the_target() {
    assert_eq!(bind_addr_for(&local(1)), "0.0.0.0:0");
    assert_eq!(bind_addr_for(&SocketAddr::v6("::1".to_string(), 1)), "[::]:0");
}

#[test]
fn return_path_ends_for_a_reason() {
    assert_eq!(on_return_path(ReturnPathEvent::Forwarded(true)), None);
    assert_eq!(on_return_path(ReturnPathEvent::Quiet(false)), None);
    let reason = |event: ReturnPathEvent| on_return_path(event).unwrap().reason();
    assert_eq!(
        reason(ReturnPathEvent::Forwarded(false)),
        "forward to client failed"
    );
    assert_eq!(
        reason(ReturnPathEvent::TargetFailed),
        "target unreachable or closed"
    );
    assert_eq!(reason(ReturnPathEvent::Quiet(true)), "idle timeout");
    assert_eq!(ReturnPathEnd::IdleTimeout.reason(), "idle timeout");
}
