//! What the command line asks for, and how a redirect is run.

use std::path::PathBuf;

use vstd::prelude::*;

use crate::config::{
    BedrockConfig, BedrockPluginsConfig, ConfigError, FileConfig, MinecraftConfig,
    MinecraftPluginsConfig, Protocol, RedirectConfig, TargetConfig,
};
use crate::json::{base64, base64_fits};
use crate::net::SocketAddr;
use crate::plugins::bedrock_offline::{
    default_motd_line1, default_motd_line2, guid_from_clock, BedrockOfflineConfig,
};
use crate::plugins::minecraft_offline::{optional_text, MinecraftOfflinePlugin};
use crate::proxy::ProxyConfig;
use crate::shaping::WaitInOut;
use crate::time::{unix_time, Duration};
use crate::udp_proxy::UdpProxyConfig;

verus! {

/// The settings file that is used where none is named.
pub const DEFAULT_CONFIG_PATH: &'static str = "/etc/redir-rust/config.toml";

/// Seconds to wait for a target's answer to a probe.
pub const PROBE_TIMEOUT_SECS: u64 = 2;

/// The switches of the command line that ask for something else than to run
/// redirects.
#[derive(Debug, Clone, Copy, PartialEq, Eq, Structural)]
pub struct CommandFlags {
    pub install_systemd: bool,
    pub update: bool,
    pub service_status: bool,
    pub service_start: bool,
    pub service_stop: bool,
    pub service_restart: bool,
    pub edit_config: bool,
}

/// What the command line asks for.
#[derive(Debug, Clone, Copy, PartialEq, Eq, Structural)]
pub enum Command {
    InstallSystemd,
    Update,
    ServiceStatus,
    ServiceStart,
    ServiceStop,
    ServiceRestart,
    EditConfig,
    RunRedirects,
}

/// What the switches ask for. Where there are several, the first one in this
/// order counts.
pub open spec fn command_for(flags: CommandFlags) -> Command {
    if flags.install_systemd {
        Command::InstallSystemd
    } else if flags.update {
        Command::Update
    } else if flags.service_status {
        Command::ServiceStatus
    } else if flags.service_start {
        Command::ServiceStart
    } else if flags.service_stop {
        Command::ServiceStop
    } else if flags.service_restart {
        Command::ServiceRestart
    } else if flags.edit_config {
        Command::EditConfig
    } else {
        Command::RunRedirects
    }
}

/// What the switches ask for.
pub fn select_command(flags: CommandFlags) -> (command: Command)
    ensures
        command == command_for(flags),
{
    if flags.install_systemd {
        Command::InstallSystemd
    } else if flags.update {
        Command::Update
    } else if flags.service_status {
        Command::ServiceStatus
    } else if flags.service_start {
        Command::ServiceStart
    } else if flags.service_stop {
        Command::ServiceStop
    } else if flags.service_restart {
        Command::ServiceRestart
    } else if flags.edit_config {
        Command::EditConfig
    } else {
        Command::RunRedirects
    }
}

/// How much is logged where the environment does not say.
pub fn default_log_level(debug: bool) -> (level: &'static str)
    ensures
        level@ == if debug {
            "debug"@
        } else {
            "info"@
        },
{
    if debug {
        "debug"
    } else {
        "info"
    }
}

/// A redirect as the command line describes it.
#[derive(Debug)]
pub struct DirectOptions {
    pub name: Option<String>,
    pub listen: SocketAddr,
    pub targets: Vec<SocketAddr>,
    pub protocol: Protocol,
    pub connect_timeout_ms: u64,
    pub udp_idle_timeout_ms: u64,
    pub minecraft_offline_motd: bool,
    pub status_line: Option<String>,
    pub motd_line1: Option<String>,
    pub motd_line2: Option<String>,
    pub favicon_path: Option<PathBuf>,
    pub bedrock_offline_motd: bool,
    pub bedrock_motd_line1: Option<String>,
    pub bedrock_motd_line2: Option<String>,
    pub max_bandwidth_bps: Option<u64>,
    pub wait_in_out: WaitInOut,
    pub random_wait_ms: Option<u64>,
    pub bufsize_bytes: usize,
}

impl DirectOptions {
    /// The redirect.
    pub open spec fn redirect(self) -> RedirectConfig {
        RedirectConfig {
            name: self.name,
            listen: self.listen,
            target_config: TargetConfig { target: None, targets: Some(self.targets) },
            protocol: self.protocol,
            connect_timeout_ms: self.connect_timeout_ms,
            udp_idle_timeout_ms: self.udp_idle_timeout_ms,
            minecraft: if self.minecraft_offline_motd {
                Some(
                    MinecraftConfig {
                        plugins: Some(
                            MinecraftPluginsConfig {
                                enabled: true,
                                status_line: self.status_line,
                                motd_line1: self.motd_line1,
                                motd_line2: self.motd_line2,
                                favicon_path: self.favicon_path,
                            },
                        ),
                    },
                )
            } else {
                None
            },
            bedrock: if self.bedrock_offline_motd {
                Some(
                    BedrockConfig {
                        plugins: Some(
                            BedrockPluginsConfig {
                                enabled: true,
                                motd_line1: self.bedrock_motd_line1,
                                motd_line2: self.bedrock_motd_line2,
                            },
                        ),
                    },
                )
            } else {
                None
            },
            max_bandwidth_bps: self.max_bandwidth_bps,
            wait_in_out: self.wait_in_out,
            random_wait_ms: self.random_wait_ms,
            bufsize_bytes: self.bufsize_bytes,
        }
    }

    /// The redirect that the command line describes.
    pub fn into_redirect(self) -> (redirect: RedirectConfig)
        requires
            self.targets@.len() > 0,
        ensures
            redirect == self.redirect(),
    {
        let minecraft = if self.minecraft_offline_motd {
            Some(
                MinecraftConfig {
                    plugins: Some(
                        MinecraftPluginsConfig {
                            enabled: true,
                            status_line: self.status_line,
                            motd_line1: self.motd_line1,
                            motd_line2: self.motd_line2,
                            favicon_path: self.favicon_path,
                        },
                    ),
                },
            )
        } else {
            None
        };
        let bedrock = if self.bedrock_offline_motd {
            Some(
                BedrockConfig {
                    plugins: Some(
                        BedrockPluginsConfig {
                            enabled: true,
                            motd_line1: self.bedrock_motd_line1,
                            motd_line2: self.bedrock_motd_line2,
                        },
                    ),
                },
            )
        } else {
            None
        };
        RedirectConfig {
            name: self.name,
            listen: self.listen,
            target_config: TargetConfig::from_ordered(self.targets),
            protocol: self.protocol,
            connect_timeout_ms: self.connect_timeout_ms,
            udp_idle_timeout_ms: self.udp_idle_timeout_ms,
            minecraft,
            bedrock,
            max_bandwidth_bps: self.max_bandwidth_bps,
            wait_in_out: self.wait_in_out,
            random_wait_ms: self.random_wait_ms,
            bufsize_bytes: self.bufsize_bytes,
        }
    }
}

/// Whether these are the redirects to run.
pub open spec fn redirects_are_chosen(
    file: Option<Result<FileConfig, ConfigError>>,
    direct: Option<RedirectConfig>,
    chosen: Result<Vec<RedirectConfig>, ConfigError>,
) -> bool {
    match file {
        Some(Ok(loaded)) => chosen matches Ok(redirects) && redirects@ == loaded.redirects@,
        Some(Err(error)) => chosen matches Err(e) && e == error,
        None => chosen matches Ok(redirects) && redirects@ == seq![direct->0],
    }
}

/// The redirects to run: those of the settings file where one is named, and
/// otherwise the one that the command line describes. `file` is what came of
/// loading that file; what else stands on the command line then plays no part.
pub fn chosen_redirects(
    file: Option<Result<FileConfig, ConfigError>>,
    direct: Option<RedirectConfig>,
) -> (chosen: Result<Vec<RedirectConfig>, ConfigError>)
    requires
        file is None ==> direct is Some,
    ensures
        redirects_are_chosen(file, direct, chosen),
        file matches Some(Ok(loaded)) ==> chosen == Ok::<_, ConfigError>(loaded.redirects),
        file matches Some(Err(error)) ==> chosen == Err::<Vec<RedirectConfig>, _>(error),
        file is None ==> (chosen matches Ok(redirects) && redirects@ == seq![direct->0]),
{
    match file {
        Some(Ok(loaded)) => Ok(loaded.redirects),
        Some(Err(error)) => Err(error),
        None => {
            let mut redirects: Vec<RedirectConfig> = Vec::new();
            if let Some(redirect) = direct {
                redirects.push(redirect);
            }
            assert(redirects@ =~= seq![direct->0]);
            Ok(redirects)
        },
    }
}

/// Text, or what holds where there is none.
pub open spec fn text_or(text: Option<String>, default: Seq<char>) -> Seq<char> {
    match text {
        Some(t) => t@,
        None => default,
    }
}

/// Whether two lists hold the same addresses in the same order.
pub open spec fn same_addrs(a: Seq<SocketAddr>, b: Seq<SocketAddr>) -> bool {
    a.len() == b.len() && forall|i: int| 0 <= i < a.len() ==> #[trigger] a[i]@ == b[i]@
}

fn copy_addrs(addrs: &[SocketAddr]) -> (copy: Vec<SocketAddr>)
    ensures
        same_addrs(copy@, addrs@),
{
    let mut copy: Vec<SocketAddr> = Vec::new();
    let mut i: usize = 0;
    while i < addrs.len()
        invariant
            i <= addrs@.len(),
            copy@.len() == i,
            forall|j: int| 0 <= j < i ==> #[trigger] copy@[j]@ == addrs@[j]@,
        decreases addrs@.len() - i,
    {
        copy.push(addrs[i].clone());
        i = i + 1;
    }
    copy
}

// ---------------------------------------------------------------------
// UDP
// ---------------------------------------------------------------------

/// Whether a configuration for offline answers is what a redirect asks for, at
/// a given reading of the wall clock.
pub open spec fn offline_config_matches(
    plugins: Option<&BedrockPluginsConfig>,
    offline: Option<BedrockOfflineConfig>,
    since_epoch: Option<Duration>,
) -> bool {
    match plugins {
        Some(p) => if p.enabled {
            offline matches Some(config) && config.motd_line1@ == text_or(
                p.motd_line1,
                "伺服器無法連線！ / Server unreachable!"@,
            ) && config.motd_line2@ == text_or(p.motd_line2, "請稍後再試 / Please Try Again"@)
                && config.server_guid == guid_from_clock(since_epoch)
        } else {
            offline is None
        },
        None => offline is None,
    }
}

/// The configuration for offline answers at a given reading of the wall clock.
pub fn bedrock_offline_at(
    plugins: Option<&BedrockPluginsConfig>,
    since_epoch: Option<Duration>,
) -> (offline: Option<BedrockOfflineConfig>)
    ensures
        offline_config_matches(plugins, offline, since_epoch),
{
    let settings = match plugins {
        Some(settings) => settings,
        None => {
            return None;
        },
    };
    if !settings.enabled {
        return None;
    }
    let line1 = match &settings.motd_line1 {
        Some(line) => line.clone(),
        None => default_motd_line1(),
    };
    let line2 = match &settings.motd_line2 {
        Some(line) => line.clone(),
        None => default_motd_line2(),
    };
    Some(BedrockOfflineConfig::at(line1, line2, since_epoch))
}

/// How a UDP redirect is run, and whether it has settings of the Minecraft
/// plugin, which do not count for it.
pub struct UdpPlan {
    pub config: UdpProxyConfig,
    pub ignores_minecraft: bool,
}

/// Whether a plan is what a redirect asks for, at a given reading of the wall
/// clock.
pub open spec fn udp_plan_matches(
    redirect: RedirectConfig,
    plan: UdpPlan,
    since_epoch: Option<Duration>,
) -> bool {
    &&& plan.config.name@ == redirect.title()
    &&& plan.config.listen_addr@ == redirect.listen@
    &&& same_addrs(plan.config.targets@, redirect.target_config.ordered())
    &&& plan.config.idle_timeout.nanos == redirect.udp_idle_timeout_ms * 1_000_000
    &&& plan.config.probe_timeout.nanos == PROBE_TIMEOUT_SECS * 1_000_000_000
    &&& offline_config_matches(
        match redirect.bedrock {
            Some(bedrock) => match bedrock.plugins {
                Some(p) => Some(&p),
                None => None,
            },
            None => None,
        },
        plan.config.bedrock_offline,
        since_epoch,
    )
    &&& plan.ignores_minecraft == (redirect.minecraft matches Some(m) && m.plugins is Some)
}

/// How a UDP redirect is run, at a given reading of the wall clock.
pub fn udp_plan_at(redirect: &RedirectConfig, since_epoch: Option<Duration>) -> (plan: UdpPlan)
    ensures
        udp_plan_matches(*redirect, plan, since_epoch),
{
    let ignores_minecraft = redirect.minecraft_plugins().is_some();
    let bedrock_offline = bedrock_offline_at(redirect.bedrock_plugins(), since_epoch);
    UdpPlan {
        config: UdpProxyConfig {
            name: redirect.display_name(),
            listen_addr: redirect.listen.clone(),
            targets: copy_addrs(redirect.target_addrs()),
            idle_timeout: redirect.udp_idle_timeout(),
            probe_timeout: Duration::from_secs(PROBE_TIMEOUT_SECS),
            bedrock_offline,
        },
        ignores_minecraft,
    }
}

/// How a UDP redirect is run.
pub fn udp_plan(redirect: &RedirectConfig) -> (plan: UdpPlan)
    ensures
        exists|clock: Option<Duration>| #[trigger] udp_plan_matches(*redirect, plan, clock),
{
    udp_plan_at(redirect, unix_time())
}

// ---------------------------------------------------------------------
// TCP
// ---------------------------------------------------------------------

/// How a TCP redirect is run, and whether it has settings of the Bedrock
/// plugin, which do not count for it.
pub struct TcpPlan {
    pub config: ProxyConfig,
    pub ignores_bedrock: bool,
}

/// Whether a plan is what a redirect asks for.
pub open spec fn tcp_plan_matches(redirect: RedirectConfig, plan: TcpPlan) -> bool {
    &&& plan.config.name@ == redirect.title()
    &&& plan.config.listen_addr@ == redirect.listen@
    &&& same_addrs(plan.config.targets@, redirect.target_config.ordered())
    &&& plan.config.connect_timeout.nanos == redirect.connect_timeout_ms * 1_000_000
    &&& plan.config.shaping == redirect.shaping_spec()
    &&& plan.ignores_bedrock == (redirect.bedrock matches Some(b) && b.plugins is Some)
}

/// How a TCP redirect is run.
pub fn tcp_plan(redirect: &RedirectConfig) -> (plan: TcpPlan)
    ensures
        tcp_plan_matches(*redirect, plan),
        plan.config.name@ == redirect.title(),
        plan.config.listen_addr@ == redirect.listen@,
        same_addrs(plan.config.targets@, redirect.target_config.ordered()),
        plan.config.connect_timeout.nanos == redirect.connect_timeout_ms * 1_000_000,
        plan.config.shaping == redirect.shaping_spec(),
        plan.config.worker_executable is None,
        plan.ignores_bedrock == (redirect.bedrock matches Some(b) && b.plugins is Some),
{
    let ignores_bedrock = redirect.bedrock_plugins().is_some();
    TcpPlan {
        config: ProxyConfig::new(
            redirect.display_name(),
            redirect.listen.clone(),
            copy_addrs(redirect.target_addrs()),
            redirect.connect_timeout(),
            redirect.shaping(),
        ),
        ignores_bedrock,
    }
}

/// The icon file to read for a redirect: none where its plugin is off.
pub fn favicon_to_read(plugins: Option<&MinecraftPluginsConfig>) -> (path: Option<&PathBuf>)
    ensures
        path is Some <==> (plugins matches Some(p) && p.enabled && p.favicon_path is Some),
        path matches Some(found) ==> plugins->0.favicon_path == Some(*found),
{
    match plugins {
        Some(settings) => if settings.enabled {
            settings.favicon_path.as_ref()
        } else {
            None
        },
        None => None,
    }
}

/// Whether a plugin is what its settings ask for: the text that is set, and
/// the built-in text and icon otherwise. Each of the two lines stands for
/// itself: one that is not set keeps its built-in text.
pub open spec fn minecraft_plugin_matches(
    settings: MinecraftPluginsConfig,
    listen_port: u16,
    built_in_icon: Seq<u8>,
    favicon: Option<Seq<u8>>,
    plugin: MinecraftOfflinePlugin,
) -> bool {
    &&& plugin.listen_port == listen_port
    &&& plugin.status_line@ == text_or(
        settings.status_line,
        "\u{00A7}c伺服器無法連線！ / Server unreachable!"@,
    )
    &&& plugin.motd_line1@ == text_or(
        settings.motd_line1,
        "\u{00A7}c伺服器無法連線！ / Server unreachable!"@,
    )
    &&& plugin.motd_line2@ == text_or(
        settings.motd_line2,
        "\u{00A7}e請稍後再試 / Please Try Again"@,
    )
    &&& optional_text(plugin.favicon_base64) == Some(
        match favicon {
            Some(bytes) => base64(bytes),
            None => base64(built_in_icon),
        },
    )
}

/// Whether there is a plugin exactly where the settings are there and enabled,
/// and it is what they ask for.
pub open spec fn plugin_is_made(
    plugins: Option<&MinecraftPluginsConfig>,
    listen_port: u16,
    built_in_icon: Seq<u8>,
    favicon: Option<Seq<u8>>,
    plugin: Option<MinecraftOfflinePlugin>,
) -> bool {
    match plugins {
        Some(settings) => if settings.enabled {
            plugin matches Some(made) && minecraft_plugin_matches(
                *settings,
                listen_port,
                built_in_icon,
                favicon,
                made,
            )
        } else {
            plugin is None
        },
        None => plugin is None,
    }
}

/// The plugin that a redirect asks for, if it does. `favicon` is what the icon
/// file holds, where one is set; the program's own icon stands in for it where
/// none is.
pub fn minecraft_plugin(
    plugins: Option<&MinecraftPluginsConfig>,
    listen_port: u16,
    built_in_icon: &[u8],
    favicon: Option<&[u8]>,
) -> (plugin: Option<MinecraftOfflinePlugin>)
    requires
        base64_fits(built_in_icon@.len()),
        favicon matches Some(bytes) ==> base64_fits(bytes@.len()),
    ensures
        plugin_is_made(
            plugins,
            listen_port,
            built_in_icon@,
            match favicon {
                Some(bytes) => Some(bytes@),
                None => None,
            },
            plugin,
        ),
        plugin is Some <==> (plugins matches Some(p) && p.enabled),
        plugin matches Some(made) ==> minecraft_plugin_matches(
            *plugins->0,
            listen_port,
            built_in_icon@,
            match favicon {
                Some(bytes) => Some(bytes@),
                None => None,
            },
            made,
        ),
{
    let settings = match plugins {
        Some(settings) => settings,
        None => {
            return None;
        },
    };
    if !settings.enabled {
        return None;
    }
    let mut plugin = MinecraftOfflinePlugin::new(listen_port, built_in_icon);
    if let Some(status_line) = &settings.status_line {
        plugin = plugin.with_status_line(status_line.clone());
    }
    if settings.motd_line1.is_some() || settings.motd_line2.is_some() {
        let line1 = match &settings.motd_line1 {
            Some(line) => line.clone(),
            None => plugin.motd_line1.clone(),
        };
        let line2 = match &settings.motd_line2 {
            Some(line) => line.clone(),
            None => plugin.motd_line2.clone(),
        };
        plugin = plugin.with_motd(line1, line2);
    }
    if favicon.is_some() {
        plugin = plugin.with_favicon_png_bytes(favicon);
    }
    Some(plugin)
}

/// What is said where the icon file cannot be read.
pub fn favicon_error(path: &str, error: &str) -> (text: String)
    ensures
        text@ == "failed to read favicon "@ + path@ + ": "@ + error@,
{
    let mut text = "failed to read favicon ".to_string();
    text.append(path);
    text.append(": ");
    text.append(error);
    text
}

// ---------------------------------------------------------------------
// The end
// ---------------------------------------------------------------------

/// How a redirect came to its end.
#[derive(Debug, Clone, Copy, PartialEq, Eq, Structural)]
pub enum TaskOutcome {
    Finished,
    Failed,
    Panicked,
}

/// Whether any redirect failed.
pub fn any_failed(outcomes: &Vec<TaskOutcome>) -> (failed: bool)
    ensures
        failed == exists|i: int|
            0 <= i < outcomes@.len() && #[trigger] outcomes@[i] != TaskOutcome::Finished,
{
    let mut i: usize = 0;
    while i < outcomes.len()
        invariant
            i <= outcomes@.len(),
            forall|j: int| 0 <= j < i ==> #[trigger] outcomes@[j] == TaskOutcome::Finished,
        decreases outcomes@.len() - i,
    {
        if outcomes[i] != TaskOutcome::Finished {
            return true;
        }
        i = i + 1;
    }
    false
}

// ---------------------------------------------------------------------
// What holds of the whole
// ---------------------------------------------------------------------

/// A switch by itself asks for its own command, no switch asks to run the
/// redirects, and of several the one that comes first counts.
pub proof fn switches_ask_for_their_command(flags: CommandFlags)
    ensures
        command_for(flags) == Command::RunRedirects <==> !flags.install_systemd && !flags.update
            && !flags.service_status && !flags.service_start && !flags.service_stop
            && !flags.service_restart && !flags.edit_config,
        command_for(flags) == Command::InstallSystemd <==> flags.install_systemd,
        command_for(flags) == Command::Update ==> flags.update,
        command_for(flags) == Command::ServiceStatus ==> flags.service_status,
        command_for(flags) == Command::ServiceStart ==> flags.service_start,
        command_for(flags) == Command::ServiceStop ==> flags.service_stop,
        command_for(flags) == Command::ServiceRestart ==> flags.service_restart,
        command_for(flags) == Command::EditConfig ==> flags.edit_config && !flags.install_systemd
            && !flags.update && !flags.service_status && !flags.service_start
            && !flags.service_stop && !flags.service_restart,
        flags.update && !flags.install_systemd ==> command_for(flags) == Command::Update,
        flags.service_status && !flags.install_systemd && !flags.update ==> command_for(flags)
            == Command::ServiceStatus,
        flags.service_start && !flags.install_systemd && !flags.update && !flags.service_status
            ==> command_for(flags) == Command::ServiceStart,
        flags.service_stop && !flags.install_systemd && !flags.update && !flags.service_status
            && !flags.service_start ==> command_for(flags) == Command::ServiceStop,
{
}

/// What the command line says of a redirect holds for it. It has the settings
/// of a plugin exactly where the plugin is switched on, and then with the text
/// that is given.
pub proof fn options_describe_the_redirect(options: DirectOptions)
    ensures
        ({
            let redirect = options.redirect();
            &&& redirect.name == options.name
            &&& redirect.listen == options.listen
            &&& redirect.target_config.ordered() == options.targets@
            &&& redirect.target_config.problem() is None <==> options.targets@.len() > 0
            &&& redirect.protocol == options.protocol
            &&& redirect.connect_timeout_ms == options.connect_timeout_ms
            &&& redirect.udp_idle_timeout_ms == options.udp_idle_timeout_ms
            &&& redirect.max_bandwidth_bps == options.max_bandwidth_bps
            &&& redirect.wait_in_out == options.wait_in_out
            &&& redirect.random_wait_ms == options.random_wait_ms
            &&& redirect.bufsize_bytes == options.bufsize_bytes
            &&& redirect.minecraft is Some <==> options.minecraft_offline_motd
            &&& redirect.minecraft matches Some(m) ==> m.plugins matches Some(p) && p.enabled
                && p.status_line == options.status_line && p.motd_line1 == options.motd_line1
                && p.motd_line2 == options.motd_line2 && p.favicon_path == options.favicon_path
            &&& redirect.bedrock is Some <==> options.bedrock_offline_motd
            &&& redirect.bedrock matches Some(b) ==> b.plugins matches Some(p) && p.enabled
                && p.motd_line1 == options.bedrock_motd_line1 && p.motd_line2
                == options.bedrock_motd_line2
        }),
{
}

/// A UDP redirect runs under its name and addresses, with its targets in
/// order, its idle timeout, and two seconds for a probe. It answers in place
/// of its targets exactly where the Bedrock plugin is there and enabled, with
/// the text that is set and built-in text for the rest.
pub proof fn udp_plans_follow_the_redirect(
    redirect: RedirectConfig,
    plan: UdpPlan,
    since_epoch: Option<Duration>,
)
    requires
        udp_plan_matches(redirect, plan, since_epoch),
    ensures
        plan.config.listen_addr@ == redirect.listen@,
        plan.config.targets@.len() == redirect.target_config.ordered().len(),
        forall|i: int|
            0 <= i < plan.config.targets@.len() ==> #[trigger] plan.config.targets@[i]@
                == redirect.target_config.ordered()[i]@,
        plan.config.idle_timeout.nanos == redirect.udp_idle_timeout_ms * 1_000_000,
        plan.config.probe_timeout.nanos == 2_000_000_000,
        redirect.name matches Some(name) ==> plan.config.name@ == name@,
        plan.config.bedrock_offline is Some <==> (redirect.bedrock is Some
            && redirect.bedrock->0.plugins is Some && redirect.bedrock->0.plugins->0.enabled),
        plan.config.bedrock_offline matches Some(offline) ==> {
            let settings = redirect.bedrock->0.plugins->0;
            &&& settings.motd_line1 matches Some(line) ==> offline.motd_line1@ == line@
            &&& settings.motd_line2 matches Some(line) ==> offline.motd_line2@ == line@
            &&& settings.motd_line1 is None ==> offline.motd_line1@
                == "伺服器無法連線！ / Server unreachable!"@
            &&& settings.motd_line2 is None ==> offline.motd_line2@
                == "請稍後再試 / Please Try Again"@
            &&& since_epoch is None ==> offline.server_guid == 0
            &&& since_epoch matches Some(d) ==> d.nanos < 0x8000_0000_0000_0000
                ==> offline.server_guid == d.nanos
        },
        plan.ignores_minecraft <==> (redirect.minecraft is Some
            && redirect.minecraft->0.plugins is Some),
{
}

/// A plugin shows what its settings say, each setting for itself, and built-in
/// text for the rest; an icon file comes before the built-in icon.
pub proof fn plugins_show_their_settings(
    settings: MinecraftPluginsConfig,
    listen_port: u16,
    built_in_icon: Seq<u8>,
    favicon: Option<Seq<u8>>,
    plugin: MinecraftOfflinePlugin,
)
    requires
        minecraft_plugin_matches(settings, listen_port, built_in_icon, favicon, plugin),
    ensures
        plugin.listen_port == listen_port,
        settings.status_line matches Some(line) ==> plugin.status_line@ == line@,
        settings.motd_line1 matches Some(line) ==> plugin.motd_line1@ == line@,
        settings.motd_line2 matches Some(line) ==> plugin.motd_line2@ == line@,
        settings.status_line is None ==> plugin.status_line@
            == "\u{00A7}c伺服器無法連線！ / Server unreachable!"@,
        settings.motd_line1 is None ==> plugin.motd_line1@
            == "\u{00A7}c伺服器無法連線！ / Server unreachable!"@,
        settings.motd_line2 is None ==> plugin.motd_line2@
            == "\u{00A7}e請稍後再試 / Please Try Again"@,
        plugin.favicon_base64 is Some,
        favicon matches Some(bytes) ==> plugin.favicon_base64->0@ == base64(bytes),
        favicon is None ==> plugin.favicon_base64->0@ == base64(built_in_icon),
{
}

/// A TCP redirect runs under its name and address, with its targets in order
/// and its timeout, and is shaped as its settings say.
pub proof fn tcp_plans_follow_the_redirect(redirect: RedirectConfig, plan: TcpPlan)
    requires
        tcp_plan_matches(redirect, plan),
    ensures
        plan.config.listen_addr@ == redirect.listen@,
        plan.config.targets@.len() == redirect.target_config.ordered().len(),
        forall|i: int|
            0 <= i < plan.config.targets@.len() ==> #[trigger] plan.config.targets@[i]@
                == redirect.target_config.ordered()[i]@,
        plan.config.connect_timeout.nanos == redirect.connect_timeout_ms * 1_000_000,
        redirect.name matches Some(name) ==> plan.config.name@ == name@,
        redirect.max_bandwidth_bps is Some || redirect.random_wait_ms is Some
            || redirect.bufsize_bytes != 16 * 1024 <==> plan.config.shaping is Some,
        plan.config.shaping matches Some(shaping) ==> {
            &&& shaping.max_bandwidth_bps == redirect.max_bandwidth_bps
            &&& shaping.random_wait_ms == redirect.random_wait_ms
            &&& shaping.bufsize == redirect.bufsize_bytes
            &&& shaping.wait_in_out == redirect.wait_in_out
        },
        plan.ignores_bedrock <==> (redirect.bedrock is Some && redirect.bedrock->0.plugins is Some),
{
}

/// A plugin is made exactly where there are settings for it and they do not
/// switch it off; it is for the port of its redirect, and shows its settings.
pub proof fn plugins_are_made_where_enabled(
    plugins: Option<&MinecraftPluginsConfig>,
    listen_port: u16,
    built_in_icon: Seq<u8>,
    favicon: Option<Seq<u8>>,
    plugin: Option<MinecraftOfflinePlugin>,
)
    requires
        plugin_is_made(plugins, listen_port, built_in_icon, favicon, plugin),
    ensures
        plugin is Some <==> plugins is Some && plugins->0.enabled,
        plugin matches Some(made) ==> made.listen_port == listen_port && (
        plugins->0.motd_line1 matches Some(line) ==> made.motd_line1@ == line@) && (
        plugins->0.motd_line2 matches Some(line) ==> made.motd_line2@ == line@),
{
}

/// Where a settings file is named, what it holds is run or its error is
/// reported, and nothing else counts; otherwise what the command line
/// describes is run, and nothing besides.
pub proof fn a_file_takes_the_place_of_the_options(
    file: Option<Result<FileConfig, ConfigError>>,
    direct: Option<RedirectConfig>,
    other: Option<RedirectConfig>,
    chosen: Result<Vec<RedirectConfig>, ConfigError>,
)
    requires
        redirects_are_chosen(file, direct, chosen),
    ensures
        file is Some ==> redirects_are_chosen(file, other, chosen),
        chosen is Err <==> (file is Some && file->0 is Err),
        file is None ==> chosen->Ok_0@.len() == 1 && chosen->Ok_0@[0] == direct->0,
        file matches Some(Ok(loaded)) ==> chosen->Ok_0@ == loaded.redirects@,
{
}

} // verus!
