use redir_rust::net::SocketAddr;
use redir_rust::plugin::{
    detect_handshake_kind, parse_handshake, read_varint_from_slice, Cursor, FailureAction,
    FirstPacketProbe, PacketError, PacketKind, ProbeStep,
};
use redir_rust::plugins::minecraft_offline::{
    build_login_disconnect_payload, build_status_json, failure_action, frame_packet,
    packet_body_len, slp_step, split_packet, write_varint, MinecraftOfflinePlugin, SlpAction,
    SlpEvent, SlpOutcome, SlpState, VarIntReader, VarIntStep,
};

#[test]
fn write_varint_matches_known_encodings() {
    // Reference values from https://minecraft.wiki/w/Java_Edition_protocol/Packets#VarInt_and_VarLong
    let mut buf = Vec::new();
    write_varint(&mut buf, 0);
    assert_eq!(buf, vec![0x00]);

    buf.clear();
    write_varint(&mut buf, 1);
    assert_eq!(buf, vec![0x01]);

    buf.clear();
    write_varint(&mut buf, 127);
    assert_eq!(buf, vec![0x7f]);

    buf.clear();
    write_varint(&mut buf, 128);
    assert_eq!(buf, vec![0x80, 0x01]);

    buf.clear();
    write_varint(&mut buf, 25565);
    assert_eq!(buf, vec![0xdd, 0xc7, 0x01]);

    buf.clear();
    write_varint(&mut buf, -1);
    assert_eq!(buf, vec![0xff, 0xff, 0xff, 0xff, 0x0f]);
}

#[test]
fn read_varint_from_slice_roundtrips_write_varint() {
    for value in [0, 1, 127, 128, 25565, 2_147_483_647, -1, -2_147_483_648] {
        let mut buf = Vec::new();
        write_varint(&mut buf, value);
        let mut cursor = Cursor::new(buf.as_slice());
        assert_eq!(read_varint_from_slice(&mut cursor).unwrap(), value);
    }
}

#[test]
fn read_varint_from_slice_rejects_too_long_sequence() {
    let buf = vec![0xff, 0xff, 0xff, 0xff, 0xff, 0xff];
    let mut cursor = Cursor::new(buf.as_slice());
    assert!(read_varint_from_slice(&mut cursor).is_err());
    assert_eq!(cursor.position(), 5);
}

#[test]
fn read_varint_from_slice_reports_why() {
    let mut cursor = Cursor::new(&[0x80, 0x80]);
    assert_eq!(
        read_varint_from_slice(&mut cursor),
        Err(PacketError::UnexpectedEof)
    );
    let mut cursor = Cursor::new(&[0x80; 5]);
    assert_eq!(
        read_varint_from_slice(&mut cursor),
        Err(PacketError::VarIntTooLong)
    );
}

#[test]
fn varint_reader_takes_one_byte_at_a_time() {
    let mut reader = VarIntReader::new();
    assert_eq!(reader.push(0xdd), VarIntStep::More);
    assert_eq!(reader.push(0xc7), VarIntStep::More);
    assert_eq!(reader.push(0x01), VarIntStep::Done(25565));

    let mut reader = VarIntReader::new();
    for _ in 0..4 {
        assert_eq!(reader.push(0xff), VarIntStep::More);
    }
    assert_eq!(reader.push(0xff), VarIntStep::TooLong);

    let mut reader = VarIntReader::new();
    for _ in 0..4 {
        reader.push(0xff);
    }
    assert_eq!(reader.push(0x0f), VarIntStep::Done(-1));
}

#[test]
fn frame_packet_prefixes_id_and_length() {
    let framed = frame_packet(0x00, b"hi");
    // body = [packet_id varint][payload] = [0x00, b'h', b'i'] (len 3),
    // framed = [length varint][body] = [0x03, 0x00, b'h', b'i']
    assert_eq!(framed, vec![0x03, 0x00, b'h', b'i']);
}

#[test]
fn framed_packets_read_back() {
    let framed = frame_packet(-1, b"payload");
    let mut cursor = Cursor::new(&framed);
    let len = read_varint_from_slice(&mut cursor).unwrap();
    assert_eq!(packet_body_len(len), Ok(12));
    let body = &framed[cursor.position()..];
    assert_eq!(body.len(), 12);
    assert_eq!(split_packet(body), Ok((-1, b"payload".to_vec())));
}

#[test]
fn packet_lengths_are_bounded() {
    assert_eq!(packet_body_len(0), Ok(0));
    assert_eq!(packet_body_len(1 << 20), Ok(1 << 20));
    assert_eq!(
        packet_body_len((1 << 20) + 1),
        Err(PacketError::InvalidPacketLength)
    );
    assert_eq!(packet_body_len(-1), Err(PacketError::InvalidPacketLength));
    assert_eq!(split_packet(&[]), Err(PacketError::UnexpectedEof));
}

#[test]
fn build_status_json_includes_expected_fields() {
    let json = build_status_json("status", "line1", "line2", Some("b64data"));
    let value: serde_json::Value = serde_json::from_str(&json).unwrap();

    assert_eq!(value["version"]["name"], "status");
    assert_eq!(value["version"]["protocol"], -1);
    assert_eq!(value["players"]["max"], 0);
    assert_eq!(value["players"]["online"], 0);
    assert_eq!(value["description"]["text"], "line1\nline2");
    assert_eq!(value["favicon"], "data:image/png;base64,b64data");
}

#[test]
fn build_status_json_omits_favicon_when_none() {
    let json = build_status_json("status", "line1", "line2", None);
    let value: serde_json::Value = serde_json::from_str(&json).unwrap();
    assert!(value.get("favicon").is_none());
}

#[test]
fn status_json_is_exact() {
    assert_eq!(
        build_status_json("s\"\\", "a\tb", "\u{8}\u{c}\r\u{1f}é", Some("xx")),
        "{\"description\":{\"text\":\"a\\tb\\n\\b\\f\\r\\u001fé\"},\
         \"favicon\":\"data:image/png;base64,xx\",\
         \"players\":{\"max\":0,\"online\":0,\"sample\":[]},\
         \"version\":{\"name\":\"s\\\"\\\\\",\"protocol\":-1}}"
    );
    assert_eq!(
        build_status_json("s", "a", "b", None),
        "{\"description\":{\"text\":\"a\\nb\"},\
         \"players\":{\"max\":0,\"online\":0,\"sample\":[]},\
         \"version\":{\"name\":\"s\",\"protocol\":-1}}"
    );
}

fn handshake(next_state: i32) -> Vec<u8> {
    let mut body = Vec::new();
    write_varint(&mut body, 766); // protocol_version
    let addr = b"play.example.com";
    write_varint(&mut body, addr.len() as i32);
    body.extend_from_slice(addr);
    body.extend_from_slice(&25565u16.to_be_bytes());
    write_varint(&mut body, next_state);
    body
}

#[test]
fn parse_handshake_extracts_protocol_version_and_next_state() {
    let mut body = Vec::new();
    write_varint(&mut body, 766); // protocol_version
    let addr = b"play.example.com";
    write_varint(&mut body, addr.len() as i32);
    body.extend_from_slice(addr);
    body.extend_from_slice(&25565u16.to_be_bytes());
    write_varint(&mut body, 1); // next_state: status

    let (protocol_version, next_state) = parse_handshake(&body).unwrap();
    assert_eq!(protocol_version, 766);
    assert_eq!(next_state, 1);
}

#[test]
fn parse_handshake_reports_why() {
    let body = handshake(1);
    assert_eq!(
        parse_handshake(&body[..body.len() - 1]),
        Err(PacketError::UnexpectedEof)
    );
    assert_eq!(parse_handshake(&body[..6]), Err(PacketError::UnexpectedEof));
    let mut negative = vec![0x00];
    write_varint(&mut negative, -1);
    assert_eq!(
        parse_handshake(&negative),
        Err(PacketError::InvalidAddressLength)
    );
    assert_eq!(
        parse_handshake(&[0x80; 8]),
        Err(PacketError::VarIntTooLong)
    );
}

#[test]
fn handshake_kind_is_detected() {
    assert_eq!(
        detect_handshake_kind(&frame_packet(0, &handshake(1))),
        Some(PacketKind::StatusPing)
    );
    assert_eq!(
        detect_handshake_kind(&frame_packet(0, &handshake(2))),
        Some(PacketKind::LoginAttempt)
    );
    assert_eq!(detect_handshake_kind(&frame_packet(0, &handshake(3))), None);
    assert_eq!(detect_handshake_kind(&frame_packet(1, &handshake(1))), None);
    assert_eq!(detect_handshake_kind(b"GET / HTTP/1.1"), None);
    assert_eq!(detect_handshake_kind(&[]), None);
    assert_eq!(PacketKind::StatusPing.as_str(), "ping");
    assert_eq!(PacketKind::LoginAttempt.as_str(), "join");
}

#[test]
fn first_packet_probe_finds_a_handshake() {
    let mut packet = frame_packet(0, &handshake(2));
    let mut probe = FirstPacketProbe::new();
    for n in 1..packet.len() {
        assert_eq!(probe.step(&packet[..n]), ProbeStep::Peek);
    }
    assert_eq!(
        probe.step(&packet),
        ProbeStep::Done(Some(PacketKind::LoginAttempt), true)
    );
    packet.extend_from_slice(b"what follows");
    assert_eq!(
        FirstPacketProbe::new().step(&packet),
        ProbeStep::Done(Some(PacketKind::LoginAttempt), true)
    );
}

#[test]
fn first_packet_probe_decides_on_what_it_has_seen() {
    // The length promises more than ever comes.
    let mut packet = frame_packet(0, &handshake(1));
    packet[0] += 10;
    let mut probe = FirstPacketProbe::new();
    assert_eq!(probe.step(&packet), ProbeStep::Peek);
    assert_eq!(
        probe.step(&[]),
        ProbeStep::Done(Some(PacketKind::StatusPing), true)
    );
    // Nothing behind the first packet counts.
    let mut cut = frame_packet(0, &handshake(1));
    cut[0] -= 1;
    assert_eq!(
        FirstPacketProbe::new().step(&cut),
        ProbeStep::Done(None, false)
    );
    // A packet that is longer than a look can show.
    let mut long = vec![0xff, 0x1f];
    long.resize(512, 0);
    assert_eq!(
        FirstPacketProbe::new().step(&long),
        ProbeStep::Done(None, false)
    );
}

#[test]
fn first_packet_probe_passes_over_other_traffic() {
    assert_eq!(FirstPacketProbe::new().step(&[]), ProbeStep::Done(None, false));
    assert_eq!(
        FirstPacketProbe::new().step(&[0x80; 6]),
        ProbeStep::Done(None, false)
    );
    assert_eq!(
        FirstPacketProbe::new().step(&[0x00, 0x00]),
        ProbeStep::Done(None, false)
    );
    // 4097, one more than the longest packet that is looked at.
    assert_eq!(
        FirstPacketProbe::new().step(&[0x81, 0x20]),
        ProbeStep::Done(None, false)
    );
    let mut probe = FirstPacketProbe::new();
    assert_eq!(probe.step(b"\x05abc"), ProbeStep::Peek);
    assert_eq!(probe.step(b"\x05abcde"), ProbeStep::Done(None, false));
}

#[test]
fn build_login_disconnect_payload_uses_length_prefixed_json() {
    let payload = build_login_disconnect_payload("kicked");
    let mut cursor = Cursor::new(payload.as_slice());
    let len = read_varint_from_slice(&mut cursor).unwrap() as usize;
    let start = cursor.position() as usize;
    assert_eq!(payload.len(), start + len);
    let json_bytes = &payload[start..start + len];
    let value: serde_json::Value = serde_json::from_slice(json_bytes).unwrap();
    assert_eq!(value["text"], "kicked");
}

#[test]
fn plugin_has_built_in_text_and_icon() {
    let icon = [0x89, 0x50, 0x4e, 0x47, 0x0d, 0x0a, 0x1a, 0x0a, 0x00];
    let plugin = MinecraftOfflinePlugin::new(25565, &icon);
    assert_eq!(plugin.name(), "minecraft-offline-motd");
    assert_eq!(
        plugin.status_line,
        "\u{00A7}c伺服器無法連線！ / Server unreachable!"
    );
    assert_eq!(plugin.motd_line2, "\u{00A7}e請稍後再試 / Please Try Again");
    assert_eq!(plugin.favicon_base64.as_deref(), Some("iVBORw0KGgoA"));
    assert!(plugin.applies_to(&SocketAddr::v4([0, 0, 0, 0], 25565)));
    assert!(!plugin.applies_to(&SocketAddr::v6("::".to_string(), 25566)));
    assert!(plugin.status_json().contains("\"favicon\":\"data:image/png;base64,iVBORw0KGgoA\""));
}

#[test]
fn plugin_text_can_be_set() {
    let plugin = MinecraftOfflinePlugin::new(1, b"icon")
        .with_status_line("down".to_string())
        .with_motd("one".to_string(), "two".to_string())
        .with_favicon_png_bytes(Some(b"Man!"));
    assert_eq!(plugin.favicon_base64.as_deref(), Some("TWFuIQ=="));
    assert_eq!(plugin.kick_text(), "one\ntwo");
    assert_eq!(
        plugin.status_json(),
        build_status_json("down", "one", "two", Some("TWFuIQ=="))
    );
    let plain = plugin.with_favicon_png_bytes(None);
    assert!(plain.favicon_base64.is_none());
    assert_eq!(
        plain.status_json(),
        build_status_json("down", "one", "two", None)
    );
    let padded = plain.with_favicon_png_bytes(Some(&[0xfb, 0xff, 0xfe, 0xff, 0xff]));
    assert_eq!(padded.favicon_base64.as_deref(), Some("+//+//8="));
}

#[test]
fn status_exchange_sends_status_and_echoes_ping() {
    let (state, action) = slp_step(
        SlpState::AwaitingHandshake,
        &SlpEvent::Packet(0, handshake(1)),
        "{}",
        "kick",
    );
    assert_eq!(state, SlpState::AwaitingStatusRequest);
    assert!(matches!(action, SlpAction::Read));

    let (state, action) = slp_step(state, &SlpEvent::Packet(0, vec![]), "{}", "kick");
    assert_eq!(state, SlpState::AwaitingPing);
    match action {
        SlpAction::SendAndRead(bytes) => assert_eq!(bytes, vec![4, 0, 2, b'{', b'}']),
        _ => panic!("status expected"),
    }

    let (end, action) = slp_step(state, &SlpEvent::Packet(1, vec![7, 8]), "{}", "kick");
    assert_eq!(end, SlpState::Closed);
    match action {
        SlpAction::EchoAndClose(bytes) => assert_eq!(bytes, vec![3, 1, 7, 8]),
        _ => panic!("echo expected"),
    }

    let (_, action) = slp_step(state, &SlpEvent::Packet(2, vec![]), "{}", "kick");
    assert!(matches!(action, SlpAction::Close));
    let (_, action) = slp_step(state, &SlpEvent::ReadFailed, "{}", "kick");
    assert!(matches!(action, SlpAction::Close));
}

#[test]
fn login_exchange_turns_the_client_away() {
    let (state, _) = slp_step(
        SlpState::AwaitingHandshake,
        &SlpEvent::Packet(0, handshake(2)),
        "{}",
        "kick",
    );
    assert_eq!(state, SlpState::AwaitingLoginStart);
    let (end, action) = slp_step(state, &SlpEvent::Packet(0, vec![1, 2, 3]), "{}", "kick");
    assert_eq!(end, SlpState::Closed);
    match action {
        SlpAction::SendAndClose(bytes) => assert_eq!(
            bytes,
            frame_packet(0, &build_login_disconnect_payload("kick"))
        ),
        _ => panic!("disconnect expected"),
    }
}

#[test]
fn wrong_packets_fail_the_exchange() {
    let fails = |state: SlpState, event: SlpEvent, error: PacketError, message: &str| {
        let (end, action) = slp_step(state, &event, "{}", "kick");
        assert_eq!(end, SlpState::Closed);
        match action {
            SlpAction::Fail(e) => {
                assert_eq!(e, error);
                assert_eq!(e.message(), message);
            }
            _ => panic!("failure expected"),
        }
    };
    fails(
        SlpState::AwaitingHandshake,
        SlpEvent::Packet(1, handshake(1)),
        PacketError::ExpectedHandshake,
        "expected handshake packet",
    );
    fails(
        SlpState::AwaitingHandshake,
        SlpEvent::Packet(0, handshake(-3)),
        PacketError::UnsupportedNextState(-3),
        "handshake requested next_state=-3, not status or login",
    );
    fails(
        SlpState::AwaitingHandshake,
        SlpEvent::Packet(0, vec![]),
        PacketError::UnexpectedEof,
        "failed to fill whole buffer",
    );
    fails(
        SlpState::AwaitingStatusRequest,
        SlpEvent::Packet(1, vec![]),
        PacketError::ExpectedStatusRequest,
        "expected status request packet",
    );
    fails(
        SlpState::AwaitingLoginStart,
        SlpEvent::Packet(5, vec![]),
        PacketError::ExpectedLoginStart,
        "expected login start packet",
    );
    let (_, action) = slp_step(
        SlpState::AwaitingHandshake,
        &SlpEvent::ReadFailed,
        "{}",
        "kick",
    );
    assert!(matches!(action, SlpAction::GiveUp));
    assert_eq!(PacketError::VarIntTooLong.message(), "VarInt too long");
    assert_eq!(
        PacketError::InvalidAddressLength.message(),
        "invalid server address length"
    );
    assert_eq!(
        PacketError::InvalidPacketLength.message(),
        "invalid packet length"
    );
}

#[test]
fn only_a_finished_exchange_is_handled() {
    assert_eq!(failure_action(SlpOutcome::Finished), FailureAction::Handled);
    assert_eq!(failure_action(SlpOutcome::Failed), FailureAction::PassThrough);
    assert_eq!(failure_action(SlpOutcome::TimedOut), FailureAction::PassThrough);
}
