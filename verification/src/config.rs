//! Settings of the redirects.

use std::path::PathBuf;

use vstd::prelude::*;

use crate::net::SocketAddr;
use crate::shaping::{ShapingConfig, WaitInOut};
use crate::time::Duration;

verus! {

/// The redirects in a settings file.
#[derive(Debug)]
pub struct FileConfig {
    pub redirects: Vec<RedirectConfig>,
}

/// One redirect.
#[derive(Debug)]
pub struct RedirectConfig {
    /// What the redirect is called in the log. Where it has no name, it is
    /// described by its addresses.
    pub name: Option<String>,
    pub listen: SocketAddr,
    pub target_config: TargetConfig,
    pub protocol: Protocol,
    /// For TCP: how long to wait for a target.
    pub connect_timeout_ms: u64,
    /// For UDP: how long a session lasts without any traffic.
    pub udp_idle_timeout_ms: u64,
    /// For TCP.
    pub minecraft: Option<MinecraftConfig>,
    /// For UDP.
    pub bedrock: Option<BedrockConfig>,
    /// For TCP: bits per second, where there is a cap.
    pub max_bandwidth_bps: Option<u64>,
    /// For TCP: which directions the cap and the delay hold for.
    pub wait_in_out: WaitInOut,
    /// For TCP: milliseconds that a chunk is delayed at most, where it is.
    pub random_wait_ms: Option<u64>,
    /// For TCP: size of the chunks.
    pub bufsize_bytes: usize,
}

/// The targets of a redirect, in one of two forms.
#[derive(Debug)]
pub struct TargetConfig {
    pub target: Option<SocketAddr>,
    pub targets: Option<Vec<SocketAddr>>,
}

impl TargetConfig {
    /// The targets in order.
    pub open spec fn ordered(&self) -> Seq<SocketAddr> {
        match self.target {
            Some(target) => seq![target],
            None => match self.targets {
                Some(targets) => targets@,
                None => Seq::empty(),
            },
        }
    }

    /// Several targets in order.
    pub fn from_ordered(targets: Vec<SocketAddr>) -> (config: Self)
        requires
            targets@.len() > 0,
        ensures
            config.target is None,
            config.targets == Some(targets),
            config.ordered() == targets@,
    {
        TargetConfig { target: None, targets: Some(targets) }
    }

    /// The targets in order.
    pub fn as_slice(&self) -> (targets: &[SocketAddr])
        ensures
            targets@ == self.ordered(),
    {
        if self.target.is_some() {
            return self.target.as_slice();
        }
        match &self.targets {
            Some(targets) => targets.as_slice(),
            None => {
                let none = self.target.as_slice();
                assert(none@ =~= Seq::empty());
                none
            },
        }
    }

    /// What is wrong with the targets, if anything is.
    pub open spec fn problem(&self) -> Option<Seq<char>> {
        match (self.target, self.targets) {
            (Some(target), None) => None,
            (None, Some(targets)) => if targets@.len() > 0 {
                None
            } else {
                Some("`targets` must contain at least one address"@)
            },
            _ => Some("exactly one of `target` or `targets` must be set"@),
        }
    }

    fn check(&self) -> (problem: Option<&'static str>)
        ensures
            problem is Some <==> self.problem() is Some,
            problem matches Some(p) ==> self.problem() == Some(p@),
    {
        match &self.target {
            Some(_) => match &self.targets {
                None => None,
                Some(_) => Some("exactly one of `target` or `targets` must be set"),
            },
            None => match &self.targets {
                Some(targets) => if targets.len() > 0 {
                    None
                } else {
                    Some("`targets` must contain at least one address")
                },
                None => Some("exactly one of `target` or `targets` must be set"),
            },
        }
    }
}

/// Addresses with a comma and a space between them.
pub open spec fn joined_addrs(addrs: Seq<SocketAddr>) -> Seq<char>
    decreases addrs.len(),
{
    if addrs.len() == 0 {
        Seq::empty()
    } else if addrs.len() == 1 {
        addrs[0]@.text()
    } else {
        joined_addrs(addrs.drop_last()) + ", "@ + addrs.last()@.text()
    }
}

fn join_addrs(addrs: &[SocketAddr]) -> (text: String)
    ensures
        text@ == joined_addrs(addrs@),
{
    let mut text = String::new();
    let mut i: usize = 0;
    assert(text@ =~= joined_addrs(addrs@.take(0)));
    while i < addrs.len()
        invariant
            i <= addrs@.len(),
            text@ == joined_addrs(addrs@.take(i as int)),
        decreases addrs@.len() - i,
    {
        assert(addrs@.take(i + 1).drop_last() =~= addrs@.take(i as int));
        if i > 0 {
            text.append(", ");
        }
        addrs[i].push_text(&mut text);
        i = i + 1;
        assert(text@ =~= joined_addrs(addrs@.take(i as int)));
    }
    assert(addrs@.take(i as int) =~= addrs@);
    text
}

impl RedirectConfig {
    /// The redirect's own name, or its addresses.
    pub open spec fn title(&self) -> Seq<char> {
        match self.name {
            Some(name) => name@,
            None => {
                let targets = self.target_config.ordered();
                if targets.len() == 1 {
                    self.listen@.text() + " -> "@ + targets[0]@.text()
                } else {
                    self.listen@.text() + " -> ["@ + joined_addrs(targets) + seq![']']
                }
            },
        }
    }

    /// What the redirect is called in the log.
    pub fn display_name(&self) -> (name: String)
        ensures
            name@ == self.title(),
    {
        if let Some(name) = &self.name {
            return name.clone();
        }
        let targets = self.target_addrs();
        let mut text = self.listen.to_text();
        if targets.len() == 1 {
            text.append(" -> ");
            targets[0].push_text(&mut text);
        } else {
            text.append(" -> [");
            text.append(join_addrs(targets).as_str());
            text.push(']');
        }
        assert(text@ =~= self.title());
        text
    }

    /// The targets in order.
    pub fn target_addrs(&self) -> (targets: &[SocketAddr])
        ensures
            targets@ == self.target_config.ordered(),
    {
        self.target_config.as_slice()
    }

    pub fn connect_timeout(&self) -> (timeout: Duration)
        ensures
            timeout.nanos == self.connect_timeout_ms * 1_000_000,
    {
        Duration::from_millis(self.connect_timeout_ms)
    }

    pub fn udp_idle_timeout(&self) -> (timeout: Duration)
        ensures
            timeout.nanos == self.udp_idle_timeout_ms * 1_000_000,
    {
        Duration::from_millis(self.udp_idle_timeout_ms)
    }

    /// The settings of the Minecraft plugin, if there are any.
    pub fn minecraft_plugins(&self) -> (plugins: Option<&MinecraftPluginsConfig>)
        ensures
            plugins == match self.minecraft {
                Some(minecraft) => match minecraft.plugins {
                    Some(p) => Some(&p),
                    None => None,
                },
                None => None,
            },
    {
        match &self.minecraft {
            Some(minecraft) => minecraft.plugins.as_ref(),
            None => None,
        }
    }

    /// The settings of the Bedrock plugin, if there are any.
    pub fn bedrock_plugins(&self) -> (plugins: Option<&BedrockPluginsConfig>)
        ensures
            plugins == match self.bedrock {
                Some(bedrock) => match bedrock.plugins {
                    Some(p) => Some(&p),
                    None => None,
                },
                None => None,
            },
    {
        match &self.bedrock {
            Some(bedrock) => bedrock.plugins.as_ref(),
            None => None,
        }
    }

    /// How connections are shaped.
    pub open spec fn shaping_spec(&self) -> Option<ShapingConfig> {
        if self.max_bandwidth_bps is None && self.random_wait_ms is None && self.bufsize_bytes
            == DEFAULT_BUFSIZE_BYTES {
            None
        } else {
            Some(
                ShapingConfig {
                    max_bandwidth_bps: self.max_bandwidth_bps,
                    wait_in_out: self.wait_in_out,
                    random_wait_ms: self.random_wait_ms,
                    bufsize: self.bufsize_bytes,
                },
            )
        }
    }

    /// How connections are shaped: not at all where every setting is as it is
    /// by default. A chunk size of its own is reason enough to shape.
    pub fn shaping(&self) -> (shaping: Option<ShapingConfig>)
        ensures
            shaping == self.shaping_spec(),
    {
        if self.max_bandwidth_bps.is_none() && self.random_wait_ms.is_none() && self.bufsize_bytes
            == default_bufsize_bytes() {
            return None;
        }
        Some(
            ShapingConfig {
                max_bandwidth_bps: self.max_bandwidth_bps,
                wait_in_out: self.wait_in_out,
                random_wait_ms: self.random_wait_ms,
                bufsize: self.bufsize_bytes,
            },
        )
    }
}

/// The transport of a redirect.
#[derive(Debug, Clone, Copy, PartialEq, Eq, Structural)]
pub enum Protocol {
    Tcp,
    Udp,
}

impl Default for Protocol {
    fn default() -> (protocol: Self)
        ensures
            protocol == Protocol::Tcp,
    {
        Protocol::Tcp
    }
}

/// What concerns Minecraft in a redirect.
#[derive(Debug)]
pub struct MinecraftConfig {
    pub plugins: Option<MinecraftPluginsConfig>,
}

/// The settings of the Minecraft plugin.
#[derive(Debug)]
pub struct MinecraftPluginsConfig {
    pub enabled: bool,
    /// Text shown in place of the player count.
    pub status_line: Option<String>,
    pub motd_line1: Option<String>,
    pub motd_line2: Option<String>,
    /// A PNG file of 64 by 64 pixels, in place of the built-in icon.
    pub favicon_path: Option<PathBuf>,
}

/// What concerns Bedrock in a redirect.
#[derive(Debug)]
pub struct BedrockConfig {
    pub plugins: Option<BedrockPluginsConfig>,
}

/// The settings of the Bedrock plugin.
#[derive(Debug)]
pub struct BedrockPluginsConfig {
    pub enabled: bool,
    /// Shown as the server's name.
    pub motd_line1: Option<String>,
    /// Shown below it.
    pub motd_line2: Option<String>,
}

pub const DEFAULT_CONNECT_TIMEOUT_MS: u64 = 3000;

pub const DEFAULT_UDP_IDLE_TIMEOUT_MS: u64 = 60_000;

pub const DEFAULT_BUFSIZE_BYTES: usize = 16_384;

pub fn default_connect_timeout_ms() -> (ms: u64)
    ensures
        ms == DEFAULT_CONNECT_TIMEOUT_MS,
{
    DEFAULT_CONNECT_TIMEOUT_MS
}

pub fn default_udp_idle_timeout_ms() -> (ms: u64)
    ensures
        ms == DEFAULT_UDP_IDLE_TIMEOUT_MS,
{
    DEFAULT_UDP_IDLE_TIMEOUT_MS
}

pub fn default_true() -> (yes: bool)
    ensures
        yes,
{
    true
}

pub fn default_bufsize_bytes() -> (bytes: usize)
    ensures
        bytes == DEFAULT_BUFSIZE_BYTES,
{
    DEFAULT_BUFSIZE_BYTES
}

/// What a settings file says of a redirect: anything but the listen address
/// may be left out.
#[derive(Debug)]
pub struct RedirectSettings {
    pub name: Option<String>,
    pub listen: SocketAddr,
    pub target: Option<SocketAddr>,
    pub targets: Option<Vec<SocketAddr>>,
    pub protocol: Option<Protocol>,
    pub connect_timeout_ms: Option<u64>,
    pub udp_idle_timeout_ms: Option<u64>,
    pub minecraft: Option<MinecraftConfig>,
    pub bedrock: Option<BedrockConfig>,
    pub max_bandwidth_bps: Option<u64>,
    pub wait_in_out: Option<WaitInOut>,
    pub random_wait_ms: Option<u64>,
    pub bufsize_bytes: Option<usize>,
}

/// A setting, or what holds where it is left out.
pub open spec fn or_default<T>(setting: Option<T>, default: T) -> T {
    match setting {
        Some(v) => v,
        None => default,
    }
}

impl RedirectSettings {
    /// The redirect, with the defaults for what is left out.
    pub open spec fn completed(self) -> RedirectConfig {
        RedirectConfig {
            name: self.name,
            listen: self.listen,
            target_config: TargetConfig { target: self.target, targets: self.targets },
            protocol: or_default(self.protocol, Protocol::Tcp),
            connect_timeout_ms: or_default(self.connect_timeout_ms, DEFAULT_CONNECT_TIMEOUT_MS),
            udp_idle_timeout_ms: or_default(self.udp_idle_timeout_ms, DEFAULT_UDP_IDLE_TIMEOUT_MS),
            minecraft: self.minecraft,
            bedrock: self.bedrock,
            max_bandwidth_bps: self.max_bandwidth_bps,
            wait_in_out: or_default(self.wait_in_out, WaitInOut::Both),
            random_wait_ms: self.random_wait_ms,
            bufsize_bytes: or_default(self.bufsize_bytes, DEFAULT_BUFSIZE_BYTES),
        }
    }

    /// Fills in the defaults for what is left out.
    pub fn complete(self) -> (config: RedirectConfig)
        ensures
            config == self.completed(),
    {
        RedirectConfig {
            name: self.name,
            listen: self.listen,
            target_config: TargetConfig { target: self.target, targets: self.targets },
            protocol: match self.protocol {
                Some(protocol) => protocol,
                None => Protocol::default(),
            },
            connect_timeout_ms: match self.connect_timeout_ms {
                Some(ms) => ms,
                None => default_connect_timeout_ms(),
            },
            udp_idle_timeout_ms: match self.udp_idle_timeout_ms {
                Some(ms) => ms,
                None => default_udp_idle_timeout_ms(),
            },
            minecraft: self.minecraft,
            bedrock: self.bedrock,
            max_bandwidth_bps: self.max_bandwidth_bps,
            wait_in_out: match self.wait_in_out {
                Some(wait_in_out) => wait_in_out,
                None => WaitInOut::default(),
            },
            random_wait_ms: self.random_wait_ms,
            bufsize_bytes: match self.bufsize_bytes {
                Some(bytes) => bytes,
                None => default_bufsize_bytes(),
            },
        }
    }
}

/// What reading a settings file has come to.
#[derive(Debug)]
pub enum ConfigSource {
    /// The file could not be read, for this reason.
    Unreadable(String),
    /// The file could not be parsed, for this reason.
    Malformed(String),
    /// The file holds these redirects.
    Parsed(FileConfig),
}

/// Why a settings file cannot be used.
#[derive(Debug)]
pub enum ConfigError {
    Read(String, String),
    Parse(String, String),
    Empty(String),
    InvalidTargets(String, String),
}

/// What such an error is.
pub enum ConfigErrorView {
    Read(Seq<char>, Seq<char>),
    Parse(Seq<char>, Seq<char>),
    Empty(Seq<char>),
    InvalidTargets(Seq<char>, Seq<char>),
}

impl View for ConfigError {
    type V = ConfigErrorView;

    open spec fn view(&self) -> ConfigErrorView {
        match self {
            ConfigError::Read(path, reason) => ConfigErrorView::Read(path@, reason@),
            ConfigError::Parse(path, reason) => ConfigErrorView::Parse(path@, reason@),
            ConfigError::Empty(path) => ConfigErrorView::Empty(path@),
            ConfigError::InvalidTargets(redirect, reason) => ConfigErrorView::InvalidTargets(
                redirect@,
                reason@,
            ),
        }
    }
}

impl ConfigErrorView {
    /// The error in words.
    pub open spec fn text(self) -> Seq<char> {
        match self {
            ConfigErrorView::Read(path, reason) => "failed to read config file "@ + path + ": "@
                + reason,
            ConfigErrorView::Parse(path, reason) => "failed to parse config file "@ + path + ": "@
                + reason,
            ConfigErrorView::Empty(path) => "config file "@ + path
                + " defines no [[redirect]] entries"@,
            ConfigErrorView::InvalidTargets(redirect, reason) => "redirect "@ + redirect
                + " has invalid targets: "@ + reason,
        }
    }
}

impl ConfigError {
    /// The error in words.
    pub fn message(&self) -> (text: String)
        ensures
            text@ == self@.text(),
    {
        match self {
            ConfigError::Read(path, reason) => {
                let mut text = "failed to read config file ".to_string();
                text.append(path.as_str());
                text.append(": ");
                text.append(reason.as_str());
                text
            },
            ConfigError::Parse(path, reason) => {
                let mut text = "failed to parse config file ".to_string();
                text.append(path.as_str());
                text.append(": ");
                text.append(reason.as_str());
                text
            },
            ConfigError::Empty(path) => {
                let mut text = "config file ".to_string();
                text.append(path.as_str());
                text.append(" defines no [[redirect]] entries");
                text
            },
            ConfigError::InvalidTargets(redirect, reason) => {
                let mut text = "redirect ".to_string();
                text.append(redirect.as_str());
                text.append(" has invalid targets: ");
                text.append(reason.as_str());
                text
            },
        }
    }
}

/// What a redirect is called where its targets are found to be wrong.
pub open spec fn label(redirect: RedirectConfig) -> Seq<char> {
    match redirect.name {
        Some(name) => name@,
        None => redirect.listen@.text(),
    }
}

/// The first redirect whose targets are wrong, from `i` on.
pub open spec fn first_problem(redirects: Seq<RedirectConfig>, i: int) -> Option<ConfigErrorView>
    decreases redirects.len() - i,
{
    if i < 0 || i >= redirects.len() {
        None
    } else {
        match redirects[i].target_config.problem() {
            Some(reason) => Some(ConfigErrorView::InvalidTargets(label(redirects[i]), reason)),
            None => first_problem(redirects, i + 1),
        }
    }
}

/// What is wrong with a settings file, if anything is.
pub open spec fn config_problem(path: Seq<char>, source: ConfigSource) -> Option<ConfigErrorView> {
    match source {
        ConfigSource::Unreadable(reason) => Some(ConfigErrorView::Read(path, reason@)),
        ConfigSource::Malformed(reason) => Some(ConfigErrorView::Parse(path, reason@)),
        ConfigSource::Parsed(config) => if config.redirects@.len() == 0 {
            Some(ConfigErrorView::Empty(path))
        } else {
            first_problem(config.redirects@, 0)
        },
    }
}

impl FileConfig {
    /// Accepts what reading the file at `path` has come to: it has to be
    /// redirects, at least one, each with its targets in one form.
    pub fn load(path: &str, source: ConfigSource) -> (result: Result<FileConfig, ConfigError>)
        ensures
            match result {
                Ok(config) => config_problem(path@, source) is None && source
                    == ConfigSource::Parsed(config),
                Err(e) => config_problem(path@, source) == Some(e@),
            },
    {
        let config = match source {
            ConfigSource::Unreadable(reason) => {
                return Err(ConfigError::Read(path.to_string(), reason));
            },
            ConfigSource::Malformed(reason) => {
                return Err(ConfigError::Parse(path.to_string(), reason));
            },
            ConfigSource::Parsed(config) => config,
        };
        if config.redirects.len() == 0 {
            return Err(ConfigError::Empty(path.to_string()));
        }
        let mut i: usize = 0;
        while i < config.redirects.len()
            invariant
                i <= config.redirects@.len(),
                first_problem(config.redirects@, 0) == first_problem(
                    config.redirects@,
                    i as int,
                ),
                config.redirects@.len() > 0,
                source == ConfigSource::Parsed(config),
            decreases config.redirects@.len() - i,
        {
            let redirect = &config.redirects[i];
            if let Some(reason) = redirect.target_config.check() {
                let name = match &redirect.name {
                    Some(name) => name.clone(),
                    None => redirect.listen.to_text(),
                };
                return Err(ConfigError::InvalidTargets(name, reason.to_string()));
            }
            i = i + 1;
        }
        Ok(config)
    }
}

/// Every redirect of a file that is accepted has at least one target.
pub proof fn accepted_redirects_have_targets(path: Seq<char>, config: FileConfig, i: int)
    requires
        config_problem(path, ConfigSource::Parsed(config)) is None,
        0 <= i < config.redirects@.len(),
    ensures
        config.redirects@[i].target_config.ordered().len() > 0,
{
    lemma_no_problem_at(config.redirects@, 0, i);
}

proof fn lemma_no_problem_at(redirects: Seq<RedirectConfig>, from: int, i: int)
    requires
        0 <= from <= i < redirects.len(),
        first_problem(redirects, from) is None,
    ensures
        redirects[i].target_config.problem() is None,
    decreases i - from,
{
    if from < i {
        lemma_no_problem_at(redirects, from + 1, i);
    }
}

/// A connection is shaped as its settings say: each setting that is made is
/// carried over as it is, and only where none is made is the connection left
/// alone.
pub proof fn shaping_settings_are_carried_over(redirect: &RedirectConfig)
    ensures
        redirect.max_bandwidth_bps is Some ==> redirect.shaping_spec() is Some,
        redirect.random_wait_ms is Some ==> redirect.shaping_spec() is Some,
        redirect.bufsize_bytes != 16 * 1024 ==> redirect.shaping_spec() is Some,
        redirect.shaping_spec() matches Some(shaping) ==> {
            &&& shaping.max_bandwidth_bps == redirect.max_bandwidth_bps
            &&& shaping.random_wait_ms == redirect.random_wait_ms
            &&& shaping.bufsize == redirect.bufsize_bytes
            &&& shaping.wait_in_out == redirect.wait_in_out
        },
        redirect.shaping_spec() is None ==> redirect.max_bandwidth_bps is None
            && redirect.random_wait_ms is None && redirect.bufsize_bytes == 16 * 1024,
        redirect.max_bandwidth_bps is None && redirect.random_wait_ms is None
            && redirect.bufsize_bytes == 16 * 1024 ==> redirect.shaping_spec() is None,
{
}

/// Whatever a file says of a redirect holds for it.
pub proof fn settings_hold_where_they_are_made(settings: RedirectSettings)
    ensures
        ({
            let config = settings.completed();
            &&& config.name == settings.name
            &&& config.listen == settings.listen
            &&& config.target_config.target == settings.target
            &&& config.target_config.targets == settings.targets
            &&& config.minecraft == settings.minecraft
            &&& config.bedrock == settings.bedrock
            &&& config.max_bandwidth_bps == settings.max_bandwidth_bps
            &&& config.random_wait_ms == settings.random_wait_ms
            &&& settings.protocol matches Some(v) ==> config.protocol == v
            &&& settings.connect_timeout_ms matches Some(v) ==> config.connect_timeout_ms == v
            &&& settings.udp_idle_timeout_ms matches Some(v) ==> config.udp_idle_timeout_ms == v
            &&& settings.wait_in_out matches Some(v) ==> config.wait_in_out == v
            &&& settings.bufsize_bytes matches Some(v) ==> config.bufsize_bytes == v
        }),
{
}

/// What a file leaves out: TCP, three seconds to connect, a minute without
/// traffic, both directions, and chunks of sixteen kilobytes. Such a redirect
/// is not shaped.
pub proof fn defaults_hold_for_the_rest(settings: RedirectSettings)
    ensures
        ({
            let config = settings.completed();
            &&& settings.protocol is None ==> config.protocol == Protocol::Tcp
            &&& settings.connect_timeout_ms is None ==> config.connect_timeout_ms == 3_000
            &&& settings.udp_idle_timeout_ms is None ==> config.udp_idle_timeout_ms == 60_000
            &&& settings.wait_in_out is None ==> config.wait_in_out == WaitInOut::Both
            &&& settings.bufsize_bytes is None ==> config.bufsize_bytes == 16 * 1024
            &&& settings.max_bandwidth_bps is None && settings.random_wait_ms is None
                && settings.bufsize_bytes is None ==> config.shaping_spec() is None
        }),
{
}

/// The targets of a redirect are in order exactly where one of the two forms
/// is used, and the list is not empty. They are then used as they stand.
pub proof fn targets_come_in_one_form(config: TargetConfig)
    ensures
        config.problem() is None <==> (config.target is Some && config.targets is None) || (
        config.target is None && config.targets is Some && config.targets->0@.len() > 0),
        config.problem() is None ==> config.ordered() == match config.target {
            Some(target) => seq![target],
            None => config.targets->0@,
        },
        config.target is None && config.targets is Some && config.targets->0@.len() == 0
            ==> config.problem() == Some("`targets` must contain at least one address"@),
        (config.target is Some <==> config.targets is Some) ==> config.problem() == Some(
            "exactly one of `target` or `targets` must be set"@,
        ),
{
}

/// A file is refused for its first redirect whose targets are not in order,
/// under the redirect's name or, where it has none, its address.
pub proof fn first_bad_redirect_is_named(path: Seq<char>, config: FileConfig, k: int)
    requires
        0 <= k < config.redirects@.len(),
        config.redirects@[k].target_config.problem() is Some,
        forall|i: int|
            0 <= i < k ==> (#[trigger] config.redirects@[i]).target_config.problem() is None,
    ensures
        config_problem(path, ConfigSource::Parsed(config)) == Some(
            ConfigErrorView::InvalidTargets(
                match config.redirects@[k].name {
                    Some(name) => name@,
                    None => config.redirects@[k].listen@.text(),
                },
                config.redirects@[k].target_config.problem()->0,
            ),
        ),
{
    lemma_first_problem(config.redirects@, 0, k);
}

proof fn lemma_first_problem(redirects: Seq<RedirectConfig>, from: int, k: int)
    requires
        0 <= from <= k < redirects.len(),
        redirects[k].target_config.problem() is Some,
        forall|i: int| from <= i < k ==> (#[trigger] redirects[i]).target_config.problem() is None,
    ensures
        first_problem(redirects, from) == Some(
            ConfigErrorView::InvalidTargets(
                label(redirects[k]),
                redirects[k].target_config.problem()->0,
            ),
        ),
    decreases k - from,
{
    if from < k {
        lemma_first_problem(redirects, from + 1, k);
    }
}

/// A file is accepted exactly where it can be read and parsed, has a redirect,
/// and the targets of every redirect are in order.
pub proof fn files_are_accepted_as_a_whole(path: Seq<char>, source: ConfigSource)
    ensures
        config_problem(path, source) is None <==> (source matches ConfigSource::Parsed(config)
            && config.redirects@.len() > 0 && forall|i: int|
            0 <= i < config.redirects@.len() ==> (
            #[trigger] config.redirects@[i]).target_config.problem() is None),
        source matches ConfigSource::Unreadable(reason) ==> config_problem(path, source) == Some(
            ConfigErrorView::Read(path, reason@),
        ),
        source matches ConfigSource::Malformed(reason) ==> config_problem(path, source) == Some(
            ConfigErrorView::Parse(path, reason@),
        ),
        source matches ConfigSource::Parsed(config) ==> config.redirects@.len() == 0
            ==> config_problem(path, source) == Some(ConfigErrorView::Empty(path)),
{
    if let ConfigSource::Parsed(config) = source {
        let redirects = config.redirects@;
        if first_problem(redirects, 0) is None {
            assert forall|i: int| 0 <= i < redirects.len() implies (
            #[trigger] redirects[i]).target_config.problem() is None by {
                lemma_no_problem_at(redirects, 0, i);
            }
        }
        if forall|i: int|
            0 <= i < redirects.len() ==> (#[trigger] redirects[i]).target_config.problem() is None {
            lemma_all_in_order(redirects, 0);
        }
    }
}

proof fn lemma_all_in_order(redirects: Seq<RedirectConfig>, from: int)
    requires
        0 <= from,
        forall|i: int|
            0 <= i < redirects.len() ==> (#[trigger] redirects[i]).target_config.problem() is None,
    ensures
        first_problem(redirects, from) is None,
    decreases redirects.len() - from,
{
    if from < redirects.len() {
        lemma_all_in_order(redirects, from + 1);
    }
}

/// A redirect goes by its name; without one, by its address, an arrow, and its
/// target, or all of its targets in brackets with commas between them.
pub proof fn titles_name_the_addresses(redirect: &RedirectConfig)
    ensures
        redirect.name matches Some(name) ==> redirect.title() == name@,
        redirect.name is None && redirect.target_config.ordered().len() == 1 ==> redirect.title()
            == redirect.listen@.text() + " -> "@ + redirect.target_config.ordered()[0]@.text(),
        redirect.name is None && redirect.target_config.ordered().len() == 2 ==> redirect.title()
            == redirect.listen@.text() + " -> ["@ + (redirect.target_config.ordered()[0]@.text()
            + ", "@ + redirect.target_config.ordered()[1]@.text()) + "]"@,
{
    let targets = redirect.target_config.ordered();
    if targets.len() == 2 {
        reveal_with_fuel(joined_addrs, 2);
        assert(targets.drop_last() =~= seq![targets[0]]);
    }
    reveal_strlit("]");
    assert("]"@ =~= seq![']']);
}

/// Each further target stands behind a comma.
pub proof fn titles_list_every_target(addrs: Seq<SocketAddr>, next: SocketAddr)
    requires
        addrs.len() > 0,
    ensures
        joined_addrs(addrs.push(next)) == joined_addrs(addrs) + ", "@ + next@.text(),
{
    assert(addrs.push(next).drop_last() =~= addrs);
}

/// Each error says what is wrong and where.
pub proof fn errors_say_what_is_wrong(place: Seq<char>, reason: Seq<char>)
    ensures
        ConfigErrorView::Read(place, reason).text() == "failed to read config file "@ + place
            + ": "@ + reason,
        ConfigErrorView::Parse(place, reason).text() == "failed to parse config file "@ + place
            + ": "@ + reason,
        ConfigErrorView::Empty(place).text() == "config file "@ + place
            + " defines no [[redirect]] entries"@,
        ConfigErrorView::InvalidTargets(place, reason).text() == "redirect "@ + place
            + " has invalid targets: "@ + reason,
{
}

} // verus!
