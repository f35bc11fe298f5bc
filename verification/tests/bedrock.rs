use std::time::{Duration as StdDuration, Instant};

use redir_rust::net::SocketAddr;
use redir_rust::plugins::bedrock_offline::{
    build_open_connection_reply_1, build_open_connection_reply_2, build_unconnected_ping_probe,
    build_unconnected_pong, decode_varint, default_motd_line1, default_motd_line2,
    disconnect_fits, encode_varint, handle_datagram, handle_datagram_at, hex, is_pong_for,
    is_unconnected_ping, millis_since_epoch, new_session, now_millis, ping_probe_at, sanitize,
    BedrockOfflineConfig, FakeSession, Stage, ID_CONNECTED_PING, ID_CONNECTION_REQUEST,
    ID_CONNECTION_REQUEST_ACCEPTED, ID_NEW_INCOMING_CONNECTION, ID_OPEN_CONNECTION_REPLY_1,
    ID_OPEN_CONNECTION_REPLY_2, ID_OPEN_CONNECTION_REQUEST_1, ID_OPEN_CONNECTION_REQUEST_2,
    ID_UNCONNECTED_PING, ID_UNCONNECTED_PONG, MAX_TRACKED_LOGIN_FRAGMENTS,
    MC_ID_REQUEST_NETWORK_SETTINGS, RELIABLE_ORDERED,
};
use redir_rust::plugins::raknet::{
    batch, build_ack, parse_fragment_header, parse_frame_payloads, push_address,
    split_batch_packets, zigzag_encode, MC_BATCH_HEADER, RAKNET_MAGIC,
};
use redir_rust::time::Duration;

fn client() -> SocketAddr {
    SocketAddr::v4([127, 0, 0, 1], 55943)
}

fn sample_ping() -> Vec<u8> {
    let mut ping = vec![ID_UNCONNECTED_PING];
    ping.extend_from_slice(&123i64.to_be_bytes());
    ping.extend_from_slice(&RAKNET_MAGIC);
    ping.extend_from_slice(&999i64.to_be_bytes()); // client guid
    ping
}

#[test]
fn recognizes_valid_ping() {
    assert!(is_unconnected_ping(&sample_ping()));
}

#[test]
fn rejects_wrong_magic() {
    let mut ping = sample_ping();
    ping[9] ^= 0xff;
    assert!(!is_unconnected_ping(&ping));
}

#[test]
fn rejects_short_packet() {
    assert!(!is_unconnected_ping(&[ID_UNCONNECTED_PING, 0, 0]));
}

#[test]
fn builds_pong_echoing_time_and_motd() {
    let ping = sample_ping();
    let config = BedrockOfflineConfig {
        motd_line1: "Hello".to_string(),
        motd_line2: "World".to_string(),
        server_guid: 42,
    };
    let pong = build_unconnected_pong(&ping, &config, 19132).unwrap();

    assert_eq!(pong[0], ID_UNCONNECTED_PONG);
    assert_eq!(&pong[1..9], &123i64.to_be_bytes());
    assert_eq!(&pong[9..17], &42i64.to_be_bytes());
    assert_eq!(&pong[17..33], &RAKNET_MAGIC);

    let motd = String::from_utf8(pong[35..].to_vec()).unwrap();
    assert!(motd.starts_with("MCPE;Hello;"));
    assert!(motd.contains(";World;"));
}

#[test]
fn sanitizes_semicolons_in_motd_fields() {
    let ping = sample_ping();
    let config = BedrockOfflineConfig {
        motd_line1: "a;b".to_string(),
        motd_line2: "c".to_string(),
        server_guid: 1,
    };
    let pong = build_unconnected_pong(&ping, &config, 19132).unwrap();
    let motd = String::from_utf8(pong[35..].to_vec()).unwrap();
    assert!(motd.starts_with("MCPE;a,b;"));
}

#[test]
fn pong_entry_is_exact() {
    let config = BedrockOfflineConfig {
        motd_line1: "a;b".to_string(),
        motd_line2: "c".to_string(),
        server_guid: -7,
    };
    let pong = build_unconnected_pong(&sample_ping(), &config, 19132).unwrap();
    let entry = "MCPE;a,b;766;1.21.60;0;20;-7;c;Survival;1;19132;19132;";
    assert_eq!(&pong[9..17], &(-7i64).to_be_bytes());
    assert_eq!(&pong[33..35], &(entry.len() as u16).to_be_bytes());
    assert_eq!(&pong[35..], entry.as_bytes());
    assert!(build_unconnected_pong(&[0x01, 0x02], &config, 19132).is_none());
}

#[test]
fn sanitized_text_keeps_its_length() {
    assert_eq!(sanitize(";;é;"), ",,é,");
    assert_eq!(sanitize("plain"), "plain");
}

#[test]
fn default_lines_are_bilingual() {
    assert_eq!(default_motd_line1(), "伺服器無法連線！ / Server unreachable!");
    assert_eq!(default_motd_line2(), "請稍後再試 / Please Try Again");
}

#[test]
fn guid_comes_from_the_clock() {
    let at = |nanos: u128| {
        BedrockOfflineConfig::at(
            "a".to_string(),
            "b".to_string(),
            Some(Duration::from_nanos(nanos)),
        )
        .server_guid
    };
    assert_eq!(at(5), 5);
    assert_eq!(at((1u128 << 64) + 5), 5);
    assert_eq!(at((1u128 << 64) - 1), -1);
    let unset = BedrockOfflineConfig::at("a".to_string(), "b".to_string(), None);
    assert_eq!(unset.server_guid, 0);
    let now = BedrockOfflineConfig::new("a".to_string(), "b".to_string());
    assert!(now.server_guid != 0);
    let copy = now.clone();
    assert_eq!(copy.server_guid, now.server_guid);
    assert_eq!(copy.motd_line1, "a");
}

#[test]
fn millis_come_from_the_clock() {
    assert_eq!(millis_since_epoch(Some(Duration::from_nanos(2_999_999))), 2);
    assert_eq!(millis_since_epoch(None), 0);
    assert!(now_millis() > 1_600_000_000_000);
}

#[test]
fn probe_is_a_ping_and_its_pong_is_accepted() {
    let probe = ping_probe_at(77);
    assert!(is_unconnected_ping(&probe));
    assert_eq!(&probe[1..9], &77i64.to_be_bytes());
    assert!(is_unconnected_ping(&build_unconnected_ping_probe()));

    let config = BedrockOfflineConfig::new("x".to_string(), "y".to_string());
    let pong = build_unconnected_pong(&probe, &config, 1).unwrap();
    assert!(is_pong_for(&probe, &pong));
    assert!(!is_pong_for(&ping_probe_at(78), &pong));
    assert!(!is_pong_for(&probe, &pong[..pong.len() - 1]));
    assert!(!is_pong_for(&probe, &pong[..34]));
    let mut other = pong.clone();
    other[20] ^= 1;
    assert!(!is_pong_for(&probe, &other));
}

#[test]
fn open_connection_reply_1_echoes_magic_and_guid() {
    let mut req = vec![ID_OPEN_CONNECTION_REQUEST_1];
    req.extend_from_slice(&RAKNET_MAGIC);
    req.push(11); // raknet protocol version
    req.extend_from_slice(&[0u8; 20]); // MTU padding

    let reply = build_open_connection_reply_1(&req, 42).unwrap();
    assert_eq!(reply[0], ID_OPEN_CONNECTION_REPLY_1);
    assert_eq!(&reply[1..17], &RAKNET_MAGIC);
    assert_eq!(&reply[17..25], &42i64.to_be_bytes());
}

#[test]
fn open_connection_reply_1_bounds_the_size() {
    let request = |len: usize| {
        let mut req = vec![ID_OPEN_CONNECTION_REQUEST_1];
        req.extend_from_slice(&RAKNET_MAGIC);
        req.resize(len, 0);
        build_open_connection_reply_1(&req, 1).unwrap()[26..28].to_vec()
    };
    assert_eq!(request(17), 46u16.to_be_bytes());
    assert_eq!(request(100), 100u16.to_be_bytes());
    assert_eq!(request(1500), 1492u16.to_be_bytes());
    assert!(build_open_connection_reply_1(&[5; 16], 1).is_none());
    assert!(build_open_connection_reply_1(&[5; 40], 1).is_none());
}

#[test]
fn open_connection_reply_2_encodes_client_address() {
    let mut req = vec![ID_OPEN_CONNECTION_REQUEST_2];
    req.extend_from_slice(&RAKNET_MAGIC);
    req.extend_from_slice(&[4, 127, 0, 0, 1, 0x4d, 0x62]); // server_address (unused)
    req.extend_from_slice(&1400u16.to_be_bytes()); // mtu
    req.extend_from_slice(&999i64.to_be_bytes()); // client guid

    let client_addr = client();
    let reply = build_open_connection_reply_2(&req, &client_addr, 42).unwrap();

    assert_eq!(reply[0], ID_OPEN_CONNECTION_REPLY_2);
    let addr_bytes = &reply[25..32];
    assert_eq!(addr_bytes[0], 4);
    assert_eq!(&addr_bytes[1..5], &[127, 0, 0, 1]);
    assert_eq!(&addr_bytes[5..7], &55943u16.to_be_bytes());
    assert_eq!(&reply[32..34], &1400u16.to_be_bytes());
    assert!(build_open_connection_reply_2(&req[..33], &client_addr, 42).is_none());
}

#[test]
fn ipv6_address_is_written_with_zero_octets() {
    let mut out = Vec::new();
    push_address(&mut out, &SocketAddr::v6("::1".to_string(), 258));
    assert_eq!(out, vec![4, 0, 0, 0, 0, 1, 2]);
}

#[test]
fn full_handshake_reaches_disconnect() {
    let client_addr = client();
    let mut session = new_session();

    // ConnectionRequest
    let mut cr = vec![ID_CONNECTION_REQUEST];
    cr.extend_from_slice(&123i64.to_be_bytes()); // client guid
    cr.extend_from_slice(&456i64.to_be_bytes()); // timestamp
    cr.push(0);
    let datagram = wrap_test_datagram(&cr);
    let replies = handle_datagram(&mut session, &datagram, &client_addr, 1, "line1", "line2");
    assert_eq!(
        replies.len(),
        2,
        "expected an ACK plus the ConnectionRequestAccepted reply"
    );
    assert_eq!(replies[0][0], 0xC0, "first reply should be the ACK");
    assert_eq!(session.stage, Stage::AwaitingNewIncomingConnection);

    // NewIncomingConnection
    let nic = vec![ID_NEW_INCOMING_CONNECTION];
    let datagram = wrap_test_datagram(&nic);
    let replies = handle_datagram(&mut session, &datagram, &client_addr, 1, "line1", "line2");
    assert_eq!(
        replies.len(),
        1,
        "just the ACK, no protocol reply needed here"
    );
    assert_eq!(session.stage, Stage::AwaitingNetworkSettingsRequest);

    // RequestNetworkSettings, wrapped in a 0xFE batch (observed real
    // client behavior: this is never sent raw/unwrapped).
    let mut rns_packet = MC_ID_REQUEST_NETWORK_SETTINGS.to_vec();
    rns_packet.extend_from_slice(&766i32.to_be_bytes());
    let mut rns_batch = vec![MC_BATCH_HEADER];
    rns_batch.extend_from_slice(&encode_varint(rns_packet.len() as u32));
    rns_batch.extend_from_slice(&rns_packet);
    let datagram = wrap_test_datagram(&rns_batch);
    let replies = handle_datagram(&mut session, &datagram, &client_addr, 1, "line1", "line2");
    assert_eq!(
        replies.len(),
        2,
        "expected an ACK plus the NetworkSettings reply"
    );
    assert_eq!(session.stage, Stage::AwaitingLoginAttempt);

    // A stray ConnectedPing keep-alive shouldn't be mistaken for a login attempt.
    let ping = vec![ID_CONNECTED_PING, 0, 0, 0, 0, 0, 0, 0, 0];
    let datagram = wrap_test_datagram(&ping);
    let replies = handle_datagram(&mut session, &datagram, &client_addr, 1, "line1", "line2");
    assert_eq!(
        replies.len(),
        1,
        "just the ACK; ConnectedPing must not trigger Disconnect"
    );
    assert_eq!(session.stage, Stage::AwaitingLoginAttempt);

    // Anything else now triggers Disconnect.
    let login_stub = vec![MC_BATCH_HEADER, 0, 0, 0];
    let datagram = wrap_test_datagram(&login_stub);
    let replies = handle_datagram(
        &mut session,
        &datagram,
        &client_addr,
        1,
        "offline line1",
        "offline line2",
    );
    assert_eq!(
        replies.len(),
        2,
        "expected an ACK plus the Disconnect reply"
    );
    assert!(session.is_done());

    let disconnect_datagram = &replies[1];
    // datagram header(4) + frame header(1+2+3+4=10) = 14 bytes before payload
    let payload = &disconnect_datagram[14..];
    assert_eq!(payload[0], MC_BATCH_HEADER);

    let message = b"offline line1\noffline line2";
    let mut packet = vec![0x05, 0, 0, message.len() as u8];
    packet.extend_from_slice(message);
    packet.push(message.len() as u8);
    packet.extend_from_slice(message);
    assert_eq!(split_batch_packets(payload), vec![packet.as_slice()]);

    // Once done, a session only acknowledges.
    let replies = handle_datagram(&mut session, &datagram, &client_addr, 1, "line1", "line2");
    assert_eq!(replies.len(), 1);
    assert!(session.is_done());
}

#[test]
fn handshake_in_one_datagram_reaches_disconnect() {
    let mut cr = vec![ID_CONNECTION_REQUEST];
    cr.resize(18, 0);
    let settings = batch(&MC_ID_REQUEST_NETWORK_SETTINGS);
    let mut datagram = vec![0x84, 1, 2, 3];
    for payload in [
        cr.as_slice(),
        &[ID_NEW_INCOMING_CONNECTION],
        settings.as_slice(),
        &[MC_BATCH_HEADER, 0],
    ] {
        datagram.extend_from_slice(&wrap_test_datagram(payload)[4..]);
    }
    let mut session = new_session();
    let replies = handle_datagram(&mut session, &datagram, &client(), 1, "a", "b");
    assert_eq!(replies.len(), 4);
    assert_eq!(replies[0], vec![0xC0, 0, 1, 1, 1, 2, 3]);
    assert!(session.is_done());
    // The counters run through the datagrams sent.
    assert_eq!(&replies[1][1..4], &[0, 0, 0]);
    assert_eq!(&replies[2][1..4], &[1, 0, 0]);
    assert_eq!(&replies[3][1..4], &[2, 0, 0]);
}

#[test]
fn a_step_that_is_sent_again_only_gets_its_acknowledgement() {
    let mut session = new_session();
    let request = wrap_test_datagram(&[ID_CONNECTION_REQUEST; 17]);
    let incoming = wrap_test_datagram(&[ID_NEW_INCOMING_CONNECTION]);
    let send = |session: &mut FakeSession, datagram: &[u8]| {
        handle_datagram(session, datagram, &client(), 1, "a", "b").len()
    };
    assert_eq!(send(&mut session, &request), 2);
    assert_eq!(send(&mut session, &request), 1);
    assert_eq!(session.stage, Stage::AwaitingNewIncomingConnection);
    assert_eq!(send(&mut session, &incoming), 1);
    assert_eq!(send(&mut session, &incoming), 1);
    assert_eq!(session.stage, Stage::AwaitingNetworkSettingsRequest);
    let settings = wrap_test_datagram(&batch(&MC_ID_REQUEST_NETWORK_SETTINGS));
    assert_eq!(send(&mut session, &settings), 2);
    assert_eq!(send(&mut session, &settings), 1);
    assert_eq!(session.stage, Stage::AwaitingLoginAttempt);
    assert!(!session.is_done());
    // What is neither that request nor a keep-alive is the login.
    let login = wrap_test_datagram(&[MC_BATCH_HEADER, 0, 0, 0]);
    assert_eq!(send(&mut session, &login), 2);
    assert!(session.is_done());
}

#[test]
fn a_repeated_settings_request_is_no_login() {
    let mut session = new_session();
    let mut request = vec![ID_CONNECTION_REQUEST];
    request.resize(18, 0);
    let settings = wrap_test_datagram(&[0xFE, 6, 0xC1, 1, 0, 0, 2, 0xFE]);
    for datagram in [
        wrap_test_datagram(&request),
        wrap_test_datagram(&[ID_NEW_INCOMING_CONNECTION]),
        settings.clone(),
    ] {
        handle_datagram(&mut session, &datagram, &client(), 1, "a", "b");
    }
    assert_eq!(session.stage, Stage::AwaitingLoginAttempt);
    assert!(!session.would_disconnect(&settings));
    let sent = session.out_seq;
    let replies = handle_datagram(&mut session, &settings, &client(), 1, "a", "b");
    assert_eq!(replies, vec![vec![0xC0, 0, 1, 1, settings[1], settings[2], settings[3]]]);
    assert_eq!(session.stage, Stage::AwaitingLoginAttempt);
    assert_eq!(session.out_seq, sent);
    assert!(!session.is_done());
}

#[test]
fn the_sequence_number_counts_the_frames_sent() {
    let mut session = new_session();
    let datagrams = [
        wrap_test_datagram(&[ID_CONNECTION_REQUEST; 17]),
        vec![0x13, 1, 2],
        wrap_test_datagram(&[ID_NEW_INCOMING_CONNECTION]),
        wrap_test_datagram(&batch(&MC_ID_REQUEST_NETWORK_SETTINGS)),
        wrap_test_datagram(&[MC_BATCH_HEADER, 0]),
        wrap_test_datagram(&[MC_BATCH_HEADER, 0]),
    ];
    for (datagram, frames) in datagrams.iter().zip([1u32, 0, 0, 1, 1, 0]) {
        let before = session.out_seq;
        let replies = handle_datagram(&mut session, datagram, &client(), 1, "a", "b");
        let wrapped = replies.iter().filter(|reply| reply[0] == 0x84).count();
        let acks = replies.iter().filter(|reply| reply[0] == 0xC0).count();
        assert_eq!(wrapped as u32, frames);
        assert_eq!(session.out_seq, before + frames);
        assert_eq!(acks, usize::from(datagram[0] == 0x84));
    }
}

#[test]
fn connection_request_accepted_is_exact() {
    let mut cr = vec![ID_CONNECTION_REQUEST];
    cr.extend_from_slice(&123i64.to_be_bytes());
    cr.extend_from_slice(&456i64.to_be_bytes());
    let mut session = new_session();
    let replies = handle_datagram_at(
        &mut session,
        &wrap_test_datagram(&cr),
        &client(),
        1,
        "a",
        "b",
        Instant::now(),
        789,
    );
    let payloads = parse_frame_payloads(&replies[1]);
    assert_eq!(payloads.len(), 1);
    let mut expected = vec![ID_CONNECTION_REQUEST_ACCEPTED, 4, 127, 0, 0, 1];
    expected.extend_from_slice(&55943u16.to_be_bytes());
    expected.extend_from_slice(&[0, 0]);
    for _ in 0..10 {
        expected.extend_from_slice(&[4, 0, 0, 0, 0, 0, 0]);
    }
    expected.extend_from_slice(&456i64.to_be_bytes());
    expected.extend_from_slice(&789i64.to_be_bytes());
    assert_eq!(payloads[0], expected.as_slice());
}

#[test]
fn acknowledgements_and_noise_get_no_reply() {
    let now = Instant::now();
    let later = now + StdDuration::from_secs(3);
    let mut session = FakeSession::new_at(now);
    for data in [&[][..], &[0xC0, 0, 1][..], &[0xA0, 0, 1][..], &[0x13, 1][..]] {
        let replies =
            handle_datagram_at(&mut session, data, &client(), 1, "a", "b", later, 0);
        assert!(replies.is_empty());
        assert_eq!(session.stage, Stage::AwaitingConnectionRequest);
        assert_eq!(session.last_activity, later);
    }
}

/// Real `Login` packets carry several KB of JWT chain/skin data and
/// arrive RakNet-fragmented, which our parser doesn't reassemble. This
/// is the actual path a live client takes, not just the small
/// single-frame login_stub used above.
fn fragmented_test_datagram(split_count: u32, split_id: u16, split_index: u32) -> Vec<u8> {
    let mut frame = Vec::new();
    frame.push((RELIABLE_ORDERED << 5) | 0x10);
    frame.extend_from_slice(&800u16.to_be_bytes());
    frame.extend_from_slice(&[0, 0, 0]);
    frame.extend_from_slice(&[0, 0, 0]);
    frame.push(0);
    frame.extend_from_slice(&split_count.to_be_bytes());
    frame.extend_from_slice(&split_id.to_be_bytes());
    frame.extend_from_slice(&split_index.to_be_bytes());
    frame.extend_from_slice(&[0xAB; 100]);

    let mut datagram = vec![0x8c, 0, 0, 0];
    datagram.extend_from_slice(&frame);
    datagram
}

#[test]
fn fragment_header_is_read() {
    let header = parse_fragment_header(&fragmented_test_datagram(4, 258, 3)).unwrap();
    assert_eq!(header.split_count, 4);
    assert_eq!(header.split_id, 258);
    assert_eq!(header.split_index, 3);
    assert!(parse_fragment_header(&wrap_test_datagram(&[1, 2, 3])).is_none());
    assert!(parse_fragment_header(&[0x8c, 0, 0, 0]).is_none());
}

#[test]
fn fragment_tracker_rejects_zero_and_excessive_counts() {
    let mut session = new_session();

    let _ = session.record_fragment(1, 0, 0);
    assert!(session.pending_split.is_none());
    let _ = session.record_fragment(1, MAX_TRACKED_LOGIN_FRAGMENTS + 1, 0);
    assert!(session.pending_split.is_none());
}

#[test]
fn fragment_tracker_rejects_out_of_range_indexes_without_refreshing_session() {
    let client_addr = client();
    let mut session = new_session();
    session.stage = Stage::AwaitingLoginAttempt;
    session.last_activity = Instant::now() - StdDuration::from_secs(1);
    let previous_activity = session.last_activity;

    let datagram = fragmented_test_datagram(4, 1, 4);
    let _ = handle_datagram(&mut session, &datagram, &client_addr, 1, "line1", "line2");

    assert!(session.pending_split.is_none());
    assert_eq!(session.last_activity, previous_activity);
}

#[test]
fn fragment_tracker_resets_inconsistent_count_for_same_split_id() {
    let mut session = new_session();

    let _ = session.record_fragment(1, 4, 0);
    let _ = session.record_fragment(1, 5, 1);

    assert!(session.pending_split.is_none());
}

#[test]
fn fragment_tracker_resets_count_mismatch_even_with_out_of_range_index() {
    let mut session = new_session();

    let _ = session.record_fragment(1, 4, 0);
    let _ = session.record_fragment(1, 5, 5);

    assert!(session.pending_split.is_none());
}

#[test]
fn fragment_tracker_counts_each_index_once() {
    let mut session = new_session();
    assert_eq!(session.record_fragment(1, 4, 0), Some((1, 4)));
    assert_eq!(session.record_fragment(1, 4, 0), Some((1, 4)));
    assert_eq!(session.record_fragment(1, 4, 3), Some((2, 4)));
    assert_eq!(session.record_fragment(1, 4, 4), None);
    assert_eq!(session.record_fragment(2, 3, 0), Some((1, 3)));
}

#[test]
fn truncated_fragment_header_is_ignored_without_refresh_or_disconnect() {
    let client_addr = client();
    let mut session = new_session();
    session.stage = Stage::AwaitingLoginAttempt;
    session.last_activity = Instant::now() - StdDuration::from_secs(1);
    let previous_activity = session.last_activity;
    let truncated = vec![0x8c, 0, 0, 0, (RELIABLE_ORDERED << 5) | 0x10];

    let replies = handle_datagram(&mut session, &truncated, &client_addr, 1, "line1", "line2");

    assert_eq!(replies.len(), 1, "only the ACK should be sent");
    assert!(!session.is_done());
    assert_eq!(session.last_activity, previous_activity);
}

#[test]
fn fragment_tracker_never_tracks_more_than_conservative_limit() {
    let mut session = new_session();
    for split_index in 0..MAX_TRACKED_LOGIN_FRAGMENTS {
        let _ = session.record_fragment(1, MAX_TRACKED_LOGIN_FRAGMENTS, split_index);
    }
    for split_index in MAX_TRACKED_LOGIN_FRAGMENTS..MAX_TRACKED_LOGIN_FRAGMENTS + 32 {
        let _ = session.record_fragment(1, MAX_TRACKED_LOGIN_FRAGMENTS, split_index);
    }

    let (_, _, seen) = session.pending_split.as_ref().unwrap();
    assert_eq!(seen.len(), MAX_TRACKED_LOGIN_FRAGMENTS as usize);
}

#[test]
fn fragmented_login_waits_for_all_fragments_before_disconnect() {
    let client_addr = client();
    let mut session = new_session();
    session.stage = Stage::AwaitingLoginAttempt;

    // First 3 of 4 fragments: must NOT disconnect yet -- doing so would
    // kick the client mid-send of its own Login packet.
    for split_index in 0..3 {
        let datagram = fragmented_test_datagram(4, 1, split_index);
        let replies =
            handle_datagram(&mut session, &datagram, &client_addr, 1, "line1", "line2");
        assert_eq!(
            replies.len(),
            1,
            "just the ACK while fragments are still arriving"
        );
        assert!(!session.is_done());
    }

    // Final fragment completes the split -- now it's safe to disconnect.
    let datagram = fragmented_test_datagram(4, 1, 3);
    let replies = handle_datagram(&mut session, &datagram, &client_addr, 1, "line1", "line2");
    assert_eq!(
        replies.len(),
        2,
        "expected an ACK plus the Disconnect reply"
    );
    assert!(session.is_done());
}

#[test]
fn a_disconnect_is_foreseen() {
    let mut session = new_session();
    assert!(!session.would_disconnect(&wrap_test_datagram(&[9; 20])));
    session.stage = Stage::AwaitingLoginAttempt;
    assert!(session.would_disconnect(&wrap_test_datagram(&[9; 20])));
    assert!(!session.would_disconnect(&wrap_test_datagram(&[ID_CONNECTED_PING])));
    assert!(!session.would_disconnect(&[]));
    assert!(!session.would_disconnect(&fragmented_test_datagram(2, 1, 0)));
    assert!(session.would_disconnect(&fragmented_test_datagram(1, 1, 0)));
    session.record_fragment(1, 2, 0);
    assert!(!session.would_disconnect(&fragmented_test_datagram(2, 1, 0)));
    assert!(session.would_disconnect(&fragmented_test_datagram(2, 1, 1)));
    assert!(!session.would_disconnect(&fragmented_test_datagram(3, 1, 1)));
    session.stage = Stage::Done;
    assert!(!session.would_disconnect(&fragmented_test_datagram(2, 1, 1)));
}

#[test]
fn unparseable_login_without_fragments_is_a_login() {
    let mut session = new_session();
    session.stage = Stage::AwaitingLoginAttempt;
    let replies = handle_datagram(&mut session, &[0x84, 0, 0, 0, 0], &client(), 1, "a", "b");
    assert_eq!(replies.len(), 2);
    assert!(session.is_done());
}

fn wrap_test_datagram(payload: &[u8]) -> Vec<u8> {
    let mut frame = Vec::new();
    frame.push(RELIABLE_ORDERED << 5);
    frame.extend_from_slice(&((payload.len() as u16) * 8).to_be_bytes());
    frame.extend_from_slice(&[0, 0, 0]); // reliable index
    frame.extend_from_slice(&[0, 0, 0]); // order index
    frame.push(0); // order channel
    frame.extend_from_slice(payload);

    let mut datagram = vec![0x84, 0, 0, 0];
    datagram.extend_from_slice(&frame);
    datagram
}

#[test]
fn wrapped_payload_is_read_back() {
    let mut session = new_session();
    session.out_seq = 0x030201;
    let datagram = session.wrap(b"hello");
    assert_eq!(&datagram[..4], &[0x84, 1, 2, 3]);
    assert_eq!(parse_frame_payloads(&datagram), vec![&b"hello"[..]]);
    assert_eq!(session.out_seq, 0x030202);
    assert_eq!(session.out_reliable_index, 1);
    assert_eq!(session.out_order_index, 1);
}

#[test]
fn frames_of_every_reliability_are_found() {
    for reliability in 0u8..8 {
        let mut datagram = vec![0x84, 0, 0, 0, reliability << 5, 0, 16];
        if [2, 3, 4, 6, 7].contains(&reliability) {
            datagram.extend_from_slice(&[9, 9, 9]);
        }
        if [1, 3, 4, 5, 7].contains(&reliability) {
            datagram.extend_from_slice(&[9, 9, 9, 9]);
        }
        datagram.extend_from_slice(b"ab");
        assert_eq!(parse_frame_payloads(&datagram), vec![&b"ab"[..]]);
        datagram.pop();
        assert!(parse_frame_payloads(&datagram).is_empty());
    }
}

#[test]
fn batches_split_into_their_packets() {
    assert_eq!(split_batch_packets(b"raw"), vec![&b"raw"[..]]);
    assert_eq!(split_batch_packets(b""), vec![&b""[..]]);
    assert_eq!(
        split_batch_packets(&[MC_BATCH_HEADER, 2, 7, 8, 1, 9, 5, 1]),
        vec![&[7u8, 8][..], &[9u8][..]]
    );
    assert!(split_batch_packets(&[MC_BATCH_HEADER, 0x80]).is_empty());
    assert_eq!(split_batch_packets(&batch(b"xyz")), vec![&b"xyz"[..]]);
}

#[test]
fn varint_roundtrip() {
    for value in [0u32, 1, 127, 128, 300, 70000] {
        let encoded = encode_varint(value);
        let mut decoded: u32 = 0;
        let mut shift = 0;
        for byte in &encoded {
            decoded |= ((byte & 0x7F) as u32) << shift;
            if byte & 0x80 == 0 {
                break;
            }
            shift += 7;
        }
        assert_eq!(decoded, value);
        assert_eq!(decode_varint(&encoded), Some((value, encoded.len())));
    }
    assert_eq!(decode_varint(&[0xff, 0xff, 0xff, 0xff, 0x7f]), Some((u32::MAX, 5)));
    assert_eq!(decode_varint(&[0x80, 0x80]), None);
    assert_eq!(decode_varint(&[0x80, 0x80, 0x80, 0x80, 0x80, 0x00]), None);
}

#[test]
fn zigzag_keeps_small_magnitudes_small() {
    assert_eq!(zigzag_encode(0), 0);
    assert_eq!(zigzag_encode(-1), 1);
    assert_eq!(zigzag_encode(1), 2);
    assert_eq!(zigzag_encode(i32::MIN), u32::MAX);
    assert_eq!(zigzag_encode(i32::MAX), u32::MAX - 1);
}

#[test]
fn ack_names_one_datagram() {
    assert_eq!(build_ack(0x00030201), vec![0xC0, 0, 1, 1, 1, 2, 3]);
}

#[test]
fn long_disconnects_do_not_fit() {
    assert!(disconnect_fits("line1", "line2"));
    assert!(!disconnect_fits(&"x".repeat(5000), "line2"));
}

#[test]
fn hex_is_truncated() {
    assert_eq!(hex(&[]), "");
    assert_eq!(hex(&[0x0f, 0xa0]), "0f a0");
    let long = hex(&[0; 65]);
    assert!(long.ends_with("00 ... (65 bytes total)"));
    assert_eq!(long.len(), 64 * 3 - 1 + " ... (65 bytes total)".len());
}

#[test]
fn a_batch_of_several_packets_splits_into_them() {
    let packets = [vec![0xC1, 1, 9], vec![], vec![7; 200]];
    let mut payload = vec![MC_BATCH_HEADER];
    payload.extend_from_slice(&[3, 0xC1, 1, 9]);
    payload.push(0);
    payload.extend_from_slice(&[0xC8, 1]);
    payload.extend_from_slice(&[7; 200]);
    assert_eq!(split_batch_packets(&payload), packets);
    for cut in 1..payload.len() {
        let whole = if cut < 5 {
            0
        } else if cut < 6 {
            1
        } else {
            2
        };
        assert_eq!(split_batch_packets(&payload[..cut]), packets[..whole]);
    }
    assert_eq!(batch(&packets[2])[1..], payload[6..]);
}

#[test]
fn a_session_tracks_few_fragments_whatever_it_goes_through() {
    let mut session = new_session();
    let settings = wrap_test_datagram(&batch(&MC_ID_REQUEST_NETWORK_SETTINGS));
    for datagram in [
        wrap_test_datagram(&[ID_CONNECTION_REQUEST; 17]),
        wrap_test_datagram(&[ID_NEW_INCOMING_CONNECTION]),
        settings,
    ] {
        handle_datagram(&mut session, &datagram, &client(), 1, "a", "b");
    }
    let steps = [
        (4096, 1, 4095),
        (4096, 1, 4096),
        (4097, 1, 0),
        (3, 1, 0),
        (3, 2, 2),
        (2, 2, 0),
        (0, 2, 0),
        (5, 3, 4),
    ];
    for (split_count, split_id, split_index) in steps {
        session.record_fragment(split_id, split_count, split_index);
        let datagram = fragmented_test_datagram(split_count, split_id, split_index);
        handle_datagram(&mut session, &datagram, &client(), 1, "a", "b");
        if let Some((_, count, seen)) = &session.pending_split {
            assert!((1..=4096).contains(count));
            assert!(!seen.is_empty() && seen.len() <= *count as usize);
            assert!(seen.iter().all(|index| index < count));
        }
    }
    assert_eq!(session.stage, Stage::AwaitingLoginAttempt);
}
