use std::path::PathBuf;
use std::time::{Duration as StdDuration, Instant};

use redir_rust::cli::{
    any_failed, bedrock_offline_at, chosen_redirects, default_log_level, favicon_error,
    favicon_to_read, minecraft_plugin, select_command, tcp_plan, udp_plan, udp_plan_at, Command,
    CommandFlags, DirectOptions, TaskOutcome,
};
use redir_rust::config::{
    BedrockPluginsConfig, ConfigError, FileConfig, MinecraftPluginsConfig, Protocol,
    RedirectConfig,
};
use redir_rust::conn_worker::{
    copy_report, is_worker_invocation, parse_shaping_args, worker_args, worker_exe_path,
    worker_succeeded, worker_title, CopyOutcome,
};
use redir_rust::connections::{format_status_text, Registry, STATE_FILE};
use redir_rust::edit_config::{
    config_ok_message, editor_candidates, next_editor, no_editor_message, EditorStep,
    LaunchOutcome, Platform,
};
use redir_rust::install::{
    hint_sudo, installation_steps, update_steps, InstallStep, UNIT_TEMPLATE,
};
use redir_rust::net::SocketAddr;
use redir_rust::notify;
use redir_rust::plugin::{Direction, FailureAction};
use redir_rust::proctitle::parse_arg_bounds;
use redir_rust::proxy::{
    failure_context, first_connect_step, next_connect_hook, next_connect_step, next_failure_hook,
    rewrite, validate_config, ConnectOutcome, ConnectStep, HookStep, ProxyConfig, ProxyConfigError,
};
use redir_rust::service_ctl::{control_args, failure_message, status_args};
use redir_rust::shaping::{ShapingConfig, WaitInOut};
use redir_rust::time::Duration;
use redir_rust::version::{BuildInfo, UNKNOWN, VERSION};

fn local(port: u16) -> SocketAddr {
    SocketAddr::v4([127, 0, 0, 1], port)
}

// Connecting to a target.

fn proxy_config(targets: Vec<SocketAddr>) -> ProxyConfig {
    ProxyConfig::new(
        "test".to_string(),
        local(1),
        targets,
        Duration::from_secs(3),
        None,
    )
}

#[test]
fn proxy_needs_a_target() {
    assert_eq!(
        validate_config(&proxy_config(vec![])),
        Err(ProxyConfigError::NoTargets)
    );
    assert_eq!(
        ProxyConfigError::NoTargets.message(),
        "TCP proxy requires at least one target"
    );
    assert_eq!(validate_config(&proxy_config(vec![local(2)])), Ok(()));
    let config = proxy_config(vec![]).with_worker_executable(PathBuf::from("/explicit/worker"));
    assert_eq!(
        config.worker_executable,
        Some(PathBuf::from("/explicit/worker"))
    );
}

#[test]
fn targets_are_tried_in_order() {
    let targets = vec![local(2), local(3)];
    let tries = |step: ConnectStep| match step {
        ConnectStep::Try(target) => target.port(),
        _ => panic!("another attempt expected"),
    };
    assert_eq!(tries(first_connect_step(&targets)), 2);
    assert_eq!(
        tries(next_connect_step(
            &targets,
            1,
            ConnectOutcome::Failed("refused".to_string())
        )),
        3
    );
    match next_connect_step(&targets, 2, ConnectOutcome::Connected) {
        ConnectStep::Connected(target) => assert_eq!(target.port(), 3),
        _ => panic!("connection expected"),
    }
    match next_connect_step(&targets, 2, ConnectOutcome::TimedOut) {
        ConnectStep::AllFailed(target, error) => {
            assert_eq!(target.port(), 3);
            assert_eq!(error, "connection timed out");
        }
        _ => panic!("failure expected"),
    }
    match next_connect_step(&targets, 2, ConnectOutcome::Failed("refused".to_string())) {
        ConnectStep::AllFailed(target, error) => {
            let ctx = failure_context(&proxy_config(vec![]), &local(9), target, error);
            assert_eq!(ctx.client_addr, local(9));
            assert_eq!(ctx.listen_addr, local(1));
            assert_eq!(ctx.target_addr, local(3));
            assert_eq!(ctx.error, "refused");
        }
        _ => panic!("failure expected"),
    }
    assert!(matches!(
        first_connect_step(&vec![]),
        ConnectStep::NoTargets
    ));
}

#[test]
fn plugins_are_asked_in_turn() {
    assert_eq!(next_connect_hook(2, 0, true), HookStep::Ask(0));
    assert_eq!(next_connect_hook(2, 1, true), HookStep::Ask(1));
    assert_eq!(next_connect_hook(2, 2, true), HookStep::Unsettled);
    assert_eq!(next_connect_hook(2, 1, false), HookStep::Settled);
    assert_eq!(
        next_failure_hook(2, 0, FailureAction::PassThrough),
        HookStep::Ask(0)
    );
    assert_eq!(
        next_failure_hook(2, 1, FailureAction::Handled),
        HookStep::Settled
    );
    assert_eq!(
        next_failure_hook(2, 2, FailureAction::PassThrough),
        HookStep::Unsettled
    );
}

#[test]
fn the_last_rewrite_stands() {
    let chunk = rewrite(b"abc".to_vec(), None);
    assert_eq!(chunk, b"abc");
    let chunk = rewrite(chunk, Some(b"x".to_vec()));
    let chunk = rewrite(chunk, None);
    assert_eq!(chunk, b"x");
}

// The worker.

fn args(list: &[&str]) -> Vec<String> {
    list.iter().map(|a| a.to_string()).collect()
}

#[test]
fn worker_invocation_is_recognized() {
    assert!(is_worker_invocation(&args(&["redir-rust", "--conn-worker"])));
    assert!(!is_worker_invocation(&args(&["redir-rust"])));
    assert!(!is_worker_invocation(&args(&["--conn-worker"])));
    assert!(!is_worker_invocation(&args(&["redir-rust", "-c", "--conn-worker"])));
}

#[test]
fn shaping_comes_through_the_command_line() {
    let shaping = ShapingConfig {
        max_bandwidth_bps: Some(u64::MAX),
        wait_in_out: WaitInOut::Out,
        random_wait_ms: Some(0),
        bufsize: 4096,
    };
    let passed = worker_args(Some(&shaping));
    assert_eq!(
        passed,
        args(&[
            "--conn-worker",
            "--max-bandwidth-bps",
            "18446744073709551615",
            "--random-wait-ms",
            "0",
            "--wait-in-out",
            "out",
            "--bufsize",
            "4096",
        ])
    );
    assert_eq!(parse_shaping_args(&passed[1..]), Some(shaping));
    let plain = ShapingConfig {
        max_bandwidth_bps: None,
        wait_in_out: WaitInOut::In,
        random_wait_ms: None,
        bufsize: 1,
    };
    assert_eq!(
        parse_shaping_args(&worker_args(Some(&plain))[1..]),
        Some(plain)
    );
    assert_eq!(worker_args(None), args(&["--conn-worker"]));
}

#[test]
fn invalid_shaping_arguments_leave_a_connection_unshaped() {
    assert_eq!(parse_shaping_args(&[]), None);
    assert_eq!(parse_shaping_args(&args(&["--bufsize"])), None);
    assert_eq!(parse_shaping_args(&args(&["--bufsize", "x"])), None);
    assert_eq!(parse_shaping_args(&args(&["--bufsize", "-1"])), None);
    assert_eq!(parse_shaping_args(&args(&["--bufsize", ""])), None);
    assert_eq!(
        parse_shaping_args(&args(&["--max-bandwidth-bps", "18446744073709551616"])),
        None
    );
    assert_eq!(parse_shaping_args(&args(&["--wait-in-out", "up"])), None);
    assert_eq!(parse_shaping_args(&args(&["--other", "1"])), None);
    let shaping = parse_shaping_args(&args(&["--bufsize", "+07", "--bufsize", "9"])).unwrap();
    assert_eq!(shaping.bufsize, 9);
    assert_eq!(shaping.wait_in_out, WaitInOut::Both);
    let shaping = parse_shaping_args(&args(&["--random-wait-ms", "+5"])).unwrap();
    assert_eq!(shaping.random_wait_ms, Some(5));
    assert_eq!(shaping.bufsize, 16 * 1024);
}

#[test]
fn explicit_worker_executable_takes_precedence() {
    let path = std::path::Path::new("/explicit/worker");
    let current: Result<&std::path::Path, ()> = Ok(std::path::Path::new("/current"));
    assert_eq!(worker_exe_path(Some(path), None, current).unwrap(), path);
    let env = std::path::Path::new("/from/env");
    assert_eq!(worker_exe_path(Some(path), Some(env), current).unwrap(), path);
    assert_eq!(worker_exe_path(None, Some(env), current).unwrap(), env);
    assert_eq!(worker_exe_path(None, None, current), current);
    assert_eq!(
        worker_exe_path::<&std::path::Path, ()>(None, None, Err(())),
        Err(())
    );
}

#[test]
fn worker_reports_and_ends() {
    let copied = CopyOutcome::Copied(12);
    let failed = CopyOutcome::Failed("broken pipe".to_string());
    assert_eq!(
        copy_report(Direction::ClientToTarget, &copied).as_deref(),
        Some("conn-worker: client->target copied 12 bytes")
    );
    assert_eq!(
        copy_report(Direction::TargetToClient, &failed).as_deref(),
        Some("conn-worker: target->client copy failed: broken pipe")
    );
    assert_eq!(
        copy_report(Direction::TargetToClient, &CopyOutcome::Panicked),
        None
    );
    assert!(worker_succeeded(&copied, &copied));
    assert!(!worker_succeeded(&copied, &failed));
    assert!(!worker_succeeded(&CopyOutcome::Panicked, &copied));
    assert_eq!(
        worker_title(&local(1), &SocketAddr::v6("::1".to_string(), 2)),
        "redir-rust 127.0.0.1:1 -> [::1]:2"
    );
}

// Open connections.

#[test]
fn empty_registry_reports_online() {
    assert_eq!(format_status_text(0, &[]), "online");
}

#[test]
fn all_clients_shown_when_under_limit() {
    let clients: Vec<SocketAddr> = vec![local(1), local(2)];
    assert_eq!(
        format_status_text(2, &clients),
        "2 connection(s): [127.0.0.1:1] [127.0.0.1:2]"
    );
}

#[test]
fn truncated_clients_get_remaining_count_suffix() {
    let clients: Vec<SocketAddr> = vec![local(1)];
    assert_eq!(
        format_status_text(5, &clients),
        "5 connection(s): [127.0.0.1:1] +4 more"
    );
}

#[test]
fn track_and_drop_roundtrip_updates_registry() {
    let client = local(40000);
    let target = local(40001);

    let mut registry = Registry::new();
    let guard = registry.track("test-redirect", "tcp", &client, &target);
    assert_eq!(guard.0, 1);
    assert!(
        registry.is_registered(&guard),
        "tracked connection should be registered"
    );
    let other = registry.track("test-redirect", "udp", &client, &target);
    assert_eq!(other.0, 2);

    let gone = redir_rust::connections::ConnectionGuard(guard.0);
    registry.release(guard);
    assert!(
        !registry.is_registered(&gone),
        "dropping the guard should deregister it"
    );
    assert!(registry.is_registered(&other));
}

#[test]
fn snapshot_lists_the_open_connections() {
    let mut registry = Registry::new();
    let (bytes, line) = registry.persist();
    assert_eq!(bytes, b"[]");
    assert_eq!(line, "online");

    let start = Instant::now();
    let _ = registry.track_at(
        "mc \"main\"",
        "tcp",
        &local(1),
        &local(2),
        start,
        Some(Duration::from_millis(1_700_000_000_999)),
    );
    let ids = registry.ids();
    assert_eq!(ids, vec![1]);
    let bytes = registry.snapshot_at(&ids, start + StdDuration::from_millis(5_900));
    assert_eq!(
        String::from_utf8(bytes).unwrap(),
        "[{\"client\":\"127.0.0.1:1\",\"connected_at_unix\":1700000000,\"duration_secs\":5,\
         \"id\":1,\"protocol\":\"tcp\",\"redirect\":\"mc \\\"main\\\"\",\
         \"target\":\"127.0.0.1:2\"}]"
    );
    assert_eq!(registry.status_at(&ids), "1 connection(s): [127.0.0.1:1]");

    for _ in 0..9 {
        let _ = registry.track("r", "udp", &local(7), &local(8));
    }
    let (bytes, line) = registry.persist();
    let value: serde_json::Value = serde_json::from_slice(&bytes).unwrap();
    assert_eq!(value.as_array().unwrap().len(), 10);
    assert!(line.starts_with("10 connection(s): ["));
    assert!(line.ends_with(" +2 more"));
    assert_eq!(STATE_FILE, "/run/redir-rust/connections.json");
}

// The service manager.

#[test]
fn messages_to_the_service_manager() {
    assert_eq!(notify::ready(), "READY=1");
    assert_eq!(notify::status("online"), "STATUS=online");
    let path = |p: &str| notify::destination(Some(p.to_string()));
    assert_eq!(path("/run/notify").as_deref(), Some("/run/notify"));
    assert_eq!(path("@abstract"), None);
    assert_eq!(path(""), None);
    assert_eq!(notify::destination(None), None);
}

#[test]
fn commands_of_the_service_manager() {
    assert_eq!(control_args("start", "u.service"), args(&["start", "u.service"]));
    assert_eq!(
        status_args("u.service"),
        args(&["status", "--no-pager", "-l", "u.service"])
    );
    assert_eq!(
        failure_message("stop", "u.service", "exit status: 1"),
        "systemctl stop u.service failed: exit status: 1"
    );
}

// The title of the process.

#[test]
fn set_does_not_panic() {
    // Whatever room there is for it, a title is cut to fit and terminated.
    for len in [0, 1, 5, 21, 22, 64] {
        let region = redir_rust::proctitle::set("redir-rust test title", len);
        assert_eq!(region.len(), len);
        if len > 0 {
            assert_eq!(region[len - 1], 0);
        }
    }
}

#[test]
fn titles_are_cut_and_padded() {
    assert_eq!(redir_rust::proctitle::set("abc", 6), b"abc\0\0\0");
    assert_eq!(redir_rust::proctitle::set("abcdef", 4), b"abc\0");
    assert_eq!(redir_rust::proctitle::set("abc", 1), b"\0");
    assert_eq!(redir_rust::proctitle::set("abc", 0), b"");
}

fn stat_line(name: &str, start: &str, end: &str) -> String {
    let mut fields = vec!["S".to_string()];
    for n in 4..48 {
        fields.push(n.to_string());
    }
    fields.push(start.to_string());
    fields.push(end.to_string());
    fields.push("50".to_string());
    format!("17 ({name}) {}\n", fields.join(" "))
}

#[test]
fn arg_bounds_are_read_behind_the_name() {
    assert_eq!(
        parse_arg_bounds(&stat_line("redir-rust", "1000", "1064")),
        Some((1000, 1064))
    );
    assert_eq!(
        parse_arg_bounds(&stat_line("a) (b c", "1000", "1064")),
        Some((1000, 1064))
    );
    assert_eq!(parse_arg_bounds(&stat_line("x", "1064", "1064")), None);
    assert_eq!(parse_arg_bounds(&stat_line("x", "y", "1064")), None);
    assert_eq!(parse_arg_bounds("17 (x) S 1 2 3"), None);
    assert_eq!(parse_arg_bounds("no name"), None);
    assert_eq!(parse_arg_bounds("17 (x)"), None);
    assert_eq!(parse_arg_bounds("17 (x)é1"), None);
}

#[test]
fn arg_bounds_are_sane_for_this_process() {
    let stat = "350067 (redir-rust) S 1 350067 350067 0 -1 4194560 1213 0 0 0 5 3 0 0 20 0 3 0 \
                812345 281284608 1187 18446744073709551615 94321456123904 94321458123904 \
                140723456789504 0 0 0 0 4096 17642 0 0 0 17 2 0 0 0 0 0 94321458987654 \
                94321459087654 94321470123520 140723456791234 140723456791299 \
                140723456791299 140723456794583 0\n";
    let (start, end) = parse_arg_bounds(stat).unwrap();
    assert!(
        end > start,
        "arg_end ({end}) should be after arg_start ({start})"
    );
    assert_eq!((start, end), (140723456791234, 140723456791299));
}

// Editing the settings.

#[test]
fn editors_are_tried_in_order() {
    assert_eq!(
        editor_candidates(Some("ed".to_string()), Some("vis".to_string()), Platform::Unix),
        args(&["ed", "vis", "nano", "vi"])
    );
    assert_eq!(
        editor_candidates(Some("".to_string()), None, Platform::Windows),
        args(&["notepad"])
    );
    assert!(editor_candidates(None, None, Platform::Other).is_empty());

    assert_eq!(
        next_editor(2, 0, LaunchOutcome::NotFound),
        EditorStep::Launch(0)
    );
    assert_eq!(
        next_editor(2, 1, LaunchOutcome::NotFound),
        EditorStep::Launch(1)
    );
    assert_eq!(
        next_editor(2, 2, LaunchOutcome::NotFound),
        EditorStep::NoneFound
    );
    assert_eq!(next_editor(2, 1, LaunchOutcome::Failed), EditorStep::Failed);
    assert_eq!(next_editor(2, 1, LaunchOutcome::Ran), EditorStep::Ran);
    assert_eq!(
        no_editor_message(&args(&["nano", "vi"])),
        "error: no editor found; set $EDITOR (tried: nano, vi)"
    );
    assert_eq!(config_ok_message(3), "config OK (3 redirect(s))");
}

// Installing.

#[test]
fn an_update_touches_only_the_binary() {
    let steps = installation_steps();
    assert_eq!(steps[0], InstallStep::MakeBinDir);
    assert_eq!(steps.len(), 9);
    assert_eq!(
        update_steps(),
        vec![
            InstallStep::InstallBinary,
            InstallStep::Restart,
            InstallStep::ShowStatus
        ]
    );
    assert!(UNIT_TEMPLATE.starts_with("[Unit]\nDescription=redir-rust port redirector\n"));
    assert!(UNIT_TEMPLATE.contains("\nType=notify\n"));
    assert_eq!(
        hint_sudo(true, "x".to_string()),
        "permission denied -- rerun as root (sudo redir-rust --install-systemd)"
    );
    assert_eq!(hint_sudo(false, "x".to_string()), "x");
}

// The version.

#[test]
fn short_version_starts_with_the_crate_version() {
    let info = BuildInfo::new(Some("abc1234-dirty"), None, Some("release"), None);
    assert!(info.short().starts_with(VERSION));
    assert!(info.short().contains(&info.git_commit));
    assert_eq!(info.short(), format!("{VERSION} (abc1234-dirty release)"));
}

#[test]
fn long_version_lists_every_build_field() {
    let info = BuildInfo::new(None, Some("x86_64-linux"), None, Some("rustc 1.80"));
    let long = info.long();
    for field in ["commit:", "target:", "profile:", "rustc:"] {
        assert!(long.contains(field), "missing {field} in:\n{long}");
    }
    assert!(long.contains(&info.target));
    assert!(long.contains(&info.rustc));
    assert_eq!(
        long,
        format!(
            "{VERSION}\ncommit:  {UNKNOWN}\ntarget:  x86_64-linux\n\
             profile: {UNKNOWN}\nrustc:   rustc 1.80"
        )
    );
}

// The command line.

#[test]
fn the_first_switch_counts() {
    let mut flags = CommandFlags {
        install_systemd: true,
        update: true,
        service_status: true,
        service_start: true,
        service_stop: true,
        service_restart: true,
        edit_config: true,
    };
    assert_eq!(select_command(flags), Command::InstallSystemd);
    flags.install_systemd = false;
    assert_eq!(select_command(flags), Command::Update);
    flags.update = false;
    assert_eq!(select_command(flags), Command::ServiceStatus);
    flags.service_status = false;
    assert_eq!(select_command(flags), Command::ServiceStart);
    flags.service_start = false;
    assert_eq!(select_command(flags), Command::ServiceStop);
    flags.service_stop = false;
    assert_eq!(select_command(flags), Command::ServiceRestart);
    flags.service_restart = false;
    assert_eq!(select_command(flags), Command::EditConfig);
    flags.edit_config = false;
    assert_eq!(select_command(flags), Command::RunRedirects);
    assert_eq!(default_log_level(true), "debug");
    assert_eq!(default_log_level(false), "info");
}

fn direct(protocol: Protocol) -> RedirectConfig {
    DirectOptions {
        name: None,
        listen: local(25565),
        targets: vec![local(25566), local(25567)],
        protocol,
        connect_timeout_ms: 3000,
        udp_idle_timeout_ms: 60_000,
        minecraft_offline_motd: true,
        status_line: Some("down".to_string()),
        motd_line1: None,
        motd_line2: Some("two".to_string()),
        favicon_path: None,
        bedrock_offline_motd: true,
        bedrock_motd_line1: None,
        bedrock_motd_line2: Some("zwei".to_string()),
        max_bandwidth_bps: None,
        wait_in_out: WaitInOut::Both,
        random_wait_ms: Some(7),
        bufsize_bytes: 16 * 1024,
    }
    .into_redirect()
}

#[test]
fn command_line_describes_a_redirect() {
    let redirect = direct(Protocol::Tcp);
    assert_eq!(
        redirect.display_name(),
        "127.0.0.1:25565 -> [127.0.0.1:25566, 127.0.0.1:25567]"
    );
    assert_eq!(redirect.target_addrs(), [local(25566), local(25567)]);
    assert!(redirect.minecraft_plugins().unwrap().enabled);

    let plan = tcp_plan(&redirect);
    assert!(plan.ignores_bedrock);
    assert_eq!(plan.config.name, redirect.display_name());
    assert_eq!(plan.config.targets, [local(25566), local(25567)]);
    assert_eq!(plan.config.connect_timeout, Duration::from_millis(3000));
    assert_eq!(plan.config.shaping.unwrap().random_wait_ms, Some(7));
}

#[test]
fn a_settings_file_takes_the_place_of_the_command_line() {
    let protocols = |redirects: Vec<RedirectConfig>| {
        redirects
            .iter()
            .map(|redirect| redirect.protocol)
            .collect::<Vec<_>>()
    };
    let file = || FileConfig {
        redirects: vec![direct(Protocol::Udp), direct(Protocol::Tcp)],
    };
    let from_file = chosen_redirects(Some(Ok(file())), None).unwrap();
    assert_eq!(protocols(from_file), [Protocol::Udp, Protocol::Tcp]);
    let both = chosen_redirects(Some(Ok(file())), Some(direct(Protocol::Udp))).unwrap();
    assert_eq!(protocols(both), [Protocol::Udp, Protocol::Tcp]);
    let failed = Some(Err(ConfigError::Empty("a.toml".to_string())));
    let error = chosen_redirects(failed, Some(direct(Protocol::Udp))).unwrap_err();
    assert!(matches!(error, ConfigError::Empty(path) if path == "a.toml"));
    let alone = chosen_redirects(None, Some(direct(Protocol::Udp))).unwrap();
    assert_eq!(protocols(alone), [Protocol::Udp]);
}

#[test]
fn an_icon_is_read_for_an_active_plugin_only() {
    let mut settings = MinecraftPluginsConfig {
        enabled: true,
        status_line: None,
        motd_line1: None,
        motd_line2: None,
        favicon_path: Some("icon.png".into()),
    };
    assert_eq!(
        favicon_to_read(Some(&settings)).unwrap().to_str(),
        Some("icon.png")
    );
    settings.enabled = false;
    assert!(favicon_to_read(Some(&settings)).is_none());
    settings.enabled = true;
    settings.favicon_path = None;
    assert!(favicon_to_read(Some(&settings)).is_none());
    assert!(favicon_to_read(None).is_none());
}

#[test]
fn udp_redirects_get_their_offline_text() {
    let redirect = direct(Protocol::Udp);
    let plan = udp_plan_at(&redirect, Some(Duration::from_nanos(9)));
    assert!(plan.ignores_minecraft);
    let offline = plan.config.bedrock_offline.unwrap();
    assert_eq!(offline.motd_line1, "伺服器無法連線！ / Server unreachable!");
    assert_eq!(offline.motd_line2, "zwei");
    assert_eq!(offline.server_guid, 9);
    assert_eq!(plan.config.probe_timeout, Duration::from_secs(2));
    assert_eq!(plan.config.idle_timeout, Duration::from_secs(60));
    assert!(udp_plan(&redirect).config.bedrock_offline.is_some());

    let disabled = BedrockPluginsConfig {
        enabled: false,
        motd_line1: None,
        motd_line2: None,
    };
    assert!(bedrock_offline_at(Some(&disabled), None).is_none());
    assert!(bedrock_offline_at(None, None).is_none());
}

#[test]
fn minecraft_plugin_follows_its_settings() {
    let mut settings = MinecraftPluginsConfig {
        enabled: true,
        status_line: None,
        motd_line1: None,
        motd_line2: None,
        favicon_path: None,
    };
    let plain = minecraft_plugin(Some(&settings), 7, b"icon", None).unwrap();
    assert_eq!(plain.listen_port, 7);
    assert_eq!(plain.favicon_base64.as_deref(), Some("aWNvbg=="));
    assert_eq!(
        plain.motd_line1,
        "\u{00A7}c伺服器無法連線！ / Server unreachable!"
    );
    settings.motd_line2 = Some("two".to_string());
    settings.status_line = Some("down".to_string());
    let set = minecraft_plugin(Some(&settings), 7, b"icon", Some(b"abc")).unwrap();
    assert_eq!(
        set.motd_line1,
        "\u{00A7}c伺服器無法連線！ / Server unreachable!"
    );
    assert_eq!(set.motd_line2, "two");
    assert_eq!(set.status_line, "down");
    assert_eq!(set.favicon_base64.as_deref(), Some("YWJj"));
    settings.motd_line1 = Some("x".to_string());
    settings.motd_line2 = None;
    let first = minecraft_plugin(Some(&settings), 7, b"icon", None).unwrap();
    assert_eq!(first.motd_line1, "x");
    assert_eq!(
        first.motd_line2,
        "\u{00A7}e請稍後再試 / Please Try Again"
    );
    settings.motd_line2 = Some("y".to_string());
    let both = minecraft_plugin(Some(&settings), 7, b"icon", None).unwrap();
    assert_eq!((both.motd_line1.as_str(), both.motd_line2.as_str()), ("x", "y"));
    settings.enabled = false;
    assert!(minecraft_plugin(Some(&settings), 7, b"icon", None).is_none());
    assert!(minecraft_plugin(None, 7, b"icon", None).is_none());
    assert_eq!(
        favicon_error("icon.png", "gone"),
        "failed to read favicon icon.png: gone"
    );
}

#[test]
fn any_failure_counts() {
    assert!(!any_failed(&vec![]));
    assert!(!any_failed(&vec![TaskOutcome::Finished]));
    assert!(any_failed(&vec![TaskOutcome::Finished, TaskOutcome::Failed]));
    assert!(any_failed(&vec![TaskOutcome::Panicked]));
}
