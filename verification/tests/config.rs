use redir_rust::config::{
    BedrockConfig, BedrockPluginsConfig, ConfigError, ConfigSource, FileConfig, MinecraftConfig,
    MinecraftPluginsConfig, Protocol, RedirectConfig, RedirectSettings, TargetConfig,
};
use redir_rust::net::SocketAddr;
use redir_rust::shaping::WaitInOut;
use redir_rust::time::Duration;

/// An IPv4 address in its usual notation.
fn addr(text: &str) -> SocketAddr {
    let (ip, port) = text.split_once(':').unwrap();
    let mut octets = [0u8; 4];
    for (octet, part) in octets.iter_mut().zip(ip.split('.')) {
        *octet = part.parse().unwrap();
    }
    SocketAddr::v4(octets, port.parse().unwrap())
}

fn text(table: &toml::Table, key: &str) -> Option<String> {
    table.get(key).map(|v| v.as_str().unwrap().to_string())
}

fn number(table: &toml::Table, key: &str) -> Option<u64> {
    table.get(key).map(|v| v.as_integer().unwrap() as u64)
}

fn plugins<'a>(table: &'a toml::Table, key: &str) -> Option<&'a toml::Table> {
    table.get(key)?.as_table()?.get("plugins")?.as_table()
}

fn enabled(table: &toml::Table) -> bool {
    table.get("enabled").map_or(true, |v| v.as_bool().unwrap())
}

fn redirect(table: &toml::Table) -> RedirectConfig {
    RedirectSettings {
        name: text(table, "name"),
        listen: addr(&text(table, "listen").unwrap()),
        target: text(table, "target").map(|t| addr(&t)),
        targets: table.get("targets").map(|list| {
            list.as_array()
                .unwrap()
                .iter()
                .map(|t| addr(t.as_str().unwrap()))
                .collect()
        }),
        protocol: text(table, "protocol").map(|p| match p.as_str() {
            "tcp" => Protocol::Tcp,
            "udp" => Protocol::Udp,
            _ => panic!("unknown protocol"),
        }),
        connect_timeout_ms: number(table, "connect_timeout_ms"),
        udp_idle_timeout_ms: number(table, "udp_idle_timeout_ms"),
        minecraft: plugins(table, "minecraft").map(|p| MinecraftConfig {
            plugins: Some(MinecraftPluginsConfig {
                enabled: enabled(p),
                status_line: text(p, "status_line"),
                motd_line1: text(p, "motd_line1"),
                motd_line2: text(p, "motd_line2"),
                favicon_path: text(p, "favicon_path").map(|f| f.into()),
            }),
        }),
        bedrock: plugins(table, "bedrock").map(|p| BedrockConfig {
            plugins: Some(BedrockPluginsConfig {
                enabled: enabled(p),
                motd_line1: text(p, "motd_line1"),
                motd_line2: text(p, "motd_line2"),
            }),
        }),
        max_bandwidth_bps: number(table, "max_bandwidth_bps"),
        wait_in_out: text(table, "wait_in_out").map(|w| w.parse().unwrap()),
        random_wait_ms: number(table, "random_wait_ms"),
        bufsize_bytes: number(table, "bufsize_bytes").map(|n| n as usize),
    }
    .complete()
}

fn file_config(contents: &str) -> Result<FileConfig, String> {
    let table: toml::Table = toml::from_str(contents).map_err(|e| e.to_string())?;
    let redirects = match table.get("redirect") {
        Some(list) => list
            .as_array()
            .unwrap()
            .iter()
            .map(|r| redirect(r.as_table().unwrap()))
            .collect(),
        None => vec![],
    };
    Ok(FileConfig { redirects })
}

fn parse(contents: &str) -> FileConfig {
    file_config(contents).unwrap()
}

fn load(path: &str, contents: &str) -> Result<FileConfig, ConfigError> {
    let source = match file_config(contents) {
        Ok(config) => ConfigSource::Parsed(config),
        Err(reason) => ConfigSource::Malformed(reason),
    };
    FileConfig::load(path, source)
}

fn texts(addrs: &[SocketAddr]) -> Vec<String> {
    addrs.iter().map(|a| a.to_text()).collect()
}

#[test]
fn parses_ordered_targets() {
    let config = parse(
        r#"
            [[redirect]]
            listen = "0.0.0.0:25565"
            targets = ["127.0.0.1:25566", "127.0.0.1:25567"]
            "#,
    );

    assert_eq!(
        config.redirects[0].target_addrs(),
        [addr("127.0.0.1:25566"), addr("127.0.0.1:25567")]
    );
}

#[test]
fn normalizes_legacy_target_to_one_address() {
    let config = parse(
        r#"
            [[redirect]]
            listen = "0.0.0.0:25565"
            target = "127.0.0.1:25566"
            "#,
    );

    assert_eq!(config.redirects[0].target_addrs(), [addr("127.0.0.1:25566")]);
}

#[test]
fn builds_target_config_from_ordered_addresses() {
    let targets = vec![addr("127.0.0.1:25566"), addr("127.0.0.1:25567")];

    let target_config = TargetConfig::from_ordered(targets.clone());

    assert_eq!(target_config.as_slice(), targets);
}

#[test]
fn missing_targets_are_an_empty_list() {
    let none = TargetConfig {
        target: None,
        targets: None,
    };
    assert!(none.as_slice().is_empty());
    let both = TargetConfig {
        target: Some(addr("1.2.3.4:5")),
        targets: Some(vec![addr("1.2.3.4:6")]),
    };
    assert_eq!(texts(both.as_slice()), ["1.2.3.4:5"]);
}

#[test]
fn unnamed_multi_target_display_name_preserves_order() {
    let config = parse(
        r#"
            [[redirect]]
            listen = "0.0.0.0:25565"
            targets = ["127.0.0.1:25566", "127.0.0.1:25567"]
            "#,
    );

    assert_eq!(
        config.redirects[0].display_name(),
        "0.0.0.0:25565 -> [127.0.0.1:25566, 127.0.0.1:25567]"
    );
}

#[test]
fn parses_minimal_redirect_with_defaults() {
    let config = parse(
        r#"
            [[redirect]]
            listen = "0.0.0.0:25565"
            target = "127.0.0.1:25566"
            "#,
    );

    assert_eq!(config.redirects.len(), 1);
    let r = &config.redirects[0];
    assert_eq!(r.name, None);
    assert_eq!(r.protocol, Protocol::Tcp);
    assert_eq!(r.connect_timeout_ms, 3000);
    assert_eq!(r.udp_idle_timeout_ms, 60_000);
    assert!(r.minecraft_plugins().is_none());
    assert_eq!(r.display_name(), "0.0.0.0:25565 -> 127.0.0.1:25566");

    assert_eq!(r.max_bandwidth_bps, None);
    assert_eq!(r.wait_in_out, WaitInOut::Both);
    assert_eq!(r.random_wait_ms, None);
    assert_eq!(r.bufsize_bytes, 16 * 1024);
    assert!(
        r.shaping().is_none(),
        "no shaping fields set -> no ShapingConfig"
    );
}

#[test]
fn parses_shaping_fields_and_builds_shaping_config() {
    let config = parse(
        r#"
            [[redirect]]
            listen = "0.0.0.0:25565"
            target = "127.0.0.1:25566"
            max_bandwidth_bps = 1000000
            wait_in_out = "out"
            random_wait_ms = 50
            bufsize_bytes = 4096
            "#,
    );

    let r = &config.redirects[0];
    assert_eq!(r.max_bandwidth_bps, Some(1_000_000));
    assert_eq!(r.wait_in_out, WaitInOut::Out);
    assert_eq!(r.random_wait_ms, Some(50));
    assert_eq!(r.bufsize_bytes, 4096);

    let shaping = r
        .shaping()
        .expect("shaping fields set -> ShapingConfig present");
    assert_eq!(shaping.max_bandwidth_bps, Some(1_000_000));
    assert_eq!(shaping.wait_in_out, WaitInOut::Out);
    assert_eq!(shaping.random_wait_ms, Some(50));
    assert_eq!(shaping.bufsize, 4096);
}

/// A custom `bufsize_bytes` alone, with no bandwidth cap or jitter, must
/// still produce a `ShapingConfig` -- otherwise it silently has no
/// effect, which is exactly the surprise this test guards against.
#[test]
fn bufsize_alone_still_activates_shaping() {
    let config = parse(
        r#"
            [[redirect]]
            listen = "0.0.0.0:25565"
            target = "127.0.0.1:25566"
            bufsize_bytes = 32767
            "#,
    );

    let r = &config.redirects[0];
    let shaping = r
        .shaping()
        .expect("custom bufsize alone -> ShapingConfig present");
    assert_eq!(shaping.max_bandwidth_bps, None);
    assert_eq!(shaping.random_wait_ms, None);
    assert_eq!(shaping.bufsize, 32767);
}

#[test]
fn parses_full_redirect_with_overrides_and_plugin() {
    let config = parse(
        r#"
            [[redirect]]
            name = "mc-main"
            listen = "0.0.0.0:25565"
            target = "127.0.0.1:25566"
            protocol = "udp"
            connect_timeout_ms = 1500
            udp_idle_timeout_ms = 30000

            [redirect.minecraft.plugins]
            enabled = true
            status_line = "custom status"
            motd_line1 = "line1"
            motd_line2 = "line2"
            "#,
    );

    let r = &config.redirects[0];
    assert_eq!(r.display_name(), "mc-main");
    assert_eq!(r.protocol, Protocol::Udp);
    assert_eq!(r.connect_timeout(), Duration::from_millis(1500));
    assert_eq!(r.udp_idle_timeout(), Duration::from_millis(30_000));

    let plugin = r.minecraft_plugins().unwrap();
    assert!(plugin.enabled);
    assert_eq!(plugin.status_line.as_deref(), Some("custom status"));
    assert_eq!(plugin.motd_line1.as_deref(), Some("line1"));
    assert_eq!(plugin.motd_line2.as_deref(), Some("line2"));
    assert!(r.bedrock_plugins().is_none());
}

#[test]
fn bedrock_settings_are_found() {
    let config = parse(
        r#"
            [[redirect]]
            listen = "0.0.0.0:19132"
            target = "127.0.0.1:19133"
            protocol = "udp"

            [redirect.bedrock.plugins]
            motd_line1 = "one"
            "#,
    );
    let plugin = config.redirects[0].bedrock_plugins().unwrap();
    assert!(plugin.enabled);
    assert_eq!(plugin.motd_line1.as_deref(), Some("one"));
    assert_eq!(plugin.motd_line2, None);
}

#[test]
fn rejects_config_with_no_redirects() {
    let err = load("empty.toml", "").unwrap_err();
    assert!(matches!(err, ConfigError::Empty(_)));
    assert_eq!(
        err.message(),
        "config file empty.toml defines no [[redirect]] entries"
    );
}

#[test]
fn load_rejects_redirect_with_both_target_forms() {
    let err = load(
        "both.toml",
        r#"
            [[redirect]]
            name = "mc-main"
            listen = "0.0.0.0:25565"
            target = "127.0.0.1:25566"
            targets = ["127.0.0.1:25567"]
            "#,
    )
    .unwrap_err();
    match err {
        ConfigError::InvalidTargets(redirect, reason) => {
            assert_eq!(redirect, "mc-main");
            assert!(
                reason.contains("exactly one"),
                "unexpected reason: {reason}"
            );
        }
        other => panic!("unexpected error: {}", other.message()),
    }
}

#[test]
fn load_rejects_empty_targets() {
    let err = load(
        "empty-targets.toml",
        r#"
            [[redirect]]
            listen = "0.0.0.0:25565"
            targets = []
            "#,
    )
    .unwrap_err();
    match err {
        ConfigError::InvalidTargets(redirect, reason) => {
            assert_eq!(redirect, "0.0.0.0:25565");
            assert!(
                reason.contains("at least one"),
                "unexpected reason: {reason}"
            );
        }
        other => panic!("unexpected error: {}", other.message()),
    }
}

#[test]
fn load_rejects_redirect_without_targets() {
    let err = load(
        "missing-targets.toml",
        r#"
            [[redirect]]
            name = "missing-target"
            listen = "0.0.0.0:25565"
            "#,
    )
    .unwrap_err();
    match &err {
        ConfigError::InvalidTargets(redirect, reason) => {
            assert_eq!(redirect, "missing-target");
            assert!(
                reason.contains("exactly one"),
                "unexpected reason: {reason}"
            );
        }
        other => panic!("unexpected error: {}", other.message()),
    }
    assert_eq!(
        err.message(),
        "redirect missing-target has invalid targets: \
         exactly one of `target` or `targets` must be set"
    );
}

#[test]
fn the_first_wrong_redirect_is_reported() {
    let err = load(
        "several.toml",
        r#"
            [[redirect]]
            name = "good"
            listen = "0.0.0.0:1"
            target = "127.0.0.1:2"
            [[redirect]]
            name = "bad"
            listen = "0.0.0.0:3"
            [[redirect]]
            name = "worse"
            listen = "0.0.0.0:4"
            targets = []
            "#,
    )
    .unwrap_err();
    assert!(matches!(err, ConfigError::InvalidTargets(name, _) if name == "bad"));
}

#[test]
fn rejects_missing_file() {
    let err = FileConfig::load(
        "/nonexistent/path/redir-rust-does-not-exist.toml",
        ConfigSource::Unreadable("No such file or directory (os error 2)".to_string()),
    )
    .unwrap_err();
    assert!(matches!(err, ConfigError::Read(_, _)));
    assert_eq!(
        err.message(),
        "failed to read config file /nonexistent/path/redir-rust-does-not-exist.toml: \
         No such file or directory (os error 2)"
    );
}

#[test]
fn rejects_malformed_toml() {
    let err = load("bad.toml", "this is not valid toml [[[").unwrap_err();
    assert!(matches!(err, ConfigError::Parse(_, _)));
    assert!(err
        .message()
        .starts_with("failed to parse config file bad.toml: "));
}

#[test]
fn loads_valid_file_end_to_end() {
    let config = load(
        "valid.toml",
        r#"
            [[redirect]]
            listen = "0.0.0.0:8080"
            target = "127.0.0.1:8081"
            "#,
    )
    .unwrap();
    assert_eq!(config.redirects.len(), 1);
}

#[test]
fn loads_ordered_targets_end_to_end() {
    let config = load(
        "ordered.toml",
        r#"
            [[redirect]]
            listen = "0.0.0.0:25565"
            targets = ["127.0.0.1:25566", "127.0.0.1:25567"]
            "#,
    )
    .unwrap();
    let redirect = &config.redirects[0];
    assert_eq!(
        redirect.target_addrs(),
        [addr("127.0.0.1:25566"), addr("127.0.0.1:25567")]
    );
    assert_eq!(
        redirect.display_name(),
        "0.0.0.0:25565 -> [127.0.0.1:25566, 127.0.0.1:25567]"
    );
}
