//! Installing the program as a service: what is done, in which order.

use vstd::prelude::*;

verus! {

pub const BIN_NAME: &'static str = "redir-rust";

pub const INSTALL_BIN: &'static str = "/usr/local/bin/redir-rust";

/// Where a new binary is put before it takes the place of the old one. A
/// binary that is running cannot be written over, but it can be replaced.
pub const INSTALL_BIN_NEW: &'static str = "/usr/local/bin/redir-rust.new";

pub const CONFIG_DIR: &'static str = "/etc/redir-rust";

pub const CONFIG_FILE: &'static str = "/etc/redir-rust/config.toml";

pub const UNIT_FILE: &'static str = "/etc/systemd/system/redir-rust.service";

pub const UNIT_TEMPLATE: &'static str = "[Unit]
Description=redir-rust port redirector
After=network-online.target
Wants=network-online.target

[Service]
Type=notify
NotifyAccess=main
ExecStart=/usr/local/bin/redir-rust --config /etc/redir-rust/config.toml
Restart=on-failure
RestartSec=2
Environment=RUST_LOG=info
RuntimeDirectory=redir-rust

StandardOutput=journal
StandardError=journal

[Install]
WantedBy=multi-user.target
";

/// One step of an installation.
#[derive(Debug, Clone, Copy, PartialEq, Eq, Structural)]
pub enum InstallStep {
    /// Make the directory of the binary.
    MakeBinDir,
    /// Put the binary in its place.
    InstallBinary,
    /// Make the directory of the settings file.
    MakeConfigDir,
    /// Write the default settings, unless there are some.
    WriteConfigIfMissing,
    /// Write the unit file.
    WriteUnitFile,
    /// Make the service manager read its unit files again.
    DaemonReload,
    /// Have the unit started with the system.
    Enable,
    /// Start the unit, or start it anew.
    Restart,
    /// Show the status of the unit, whatever comes of it.
    ShowStatus,
}

/// The steps of an installation. The unit is started anew, rather than
/// started, so that a running service picks up a new binary.
pub open spec fn installation() -> Seq<InstallStep> {
    seq![
        InstallStep::MakeBinDir,
        InstallStep::InstallBinary,
        InstallStep::MakeConfigDir,
        InstallStep::WriteConfigIfMissing,
        InstallStep::WriteUnitFile,
        InstallStep::DaemonReload,
        InstallStep::Enable,
        InstallStep::Restart,
        InstallStep::ShowStatus,
    ]
}

/// The steps of an update: only the binary is replaced, and the settings and
/// the unit file are left alone.
pub open spec fn update() -> Seq<InstallStep> {
    seq![InstallStep::InstallBinary, InstallStep::Restart, InstallStep::ShowStatus]
}

/// The steps of an installation.
pub fn installation_steps() -> (steps: Vec<InstallStep>)
    ensures
        steps@ == installation(),
{
    let mut steps: Vec<InstallStep> = Vec::new();
    steps.push(InstallStep::MakeBinDir);
    steps.push(InstallStep::InstallBinary);
    steps.push(InstallStep::MakeConfigDir);
    steps.push(InstallStep::WriteConfigIfMissing);
    steps.push(InstallStep::WriteUnitFile);
    steps.push(InstallStep::DaemonReload);
    steps.push(InstallStep::Enable);
    steps.push(InstallStep::Restart);
    steps.push(InstallStep::ShowStatus);
    assert(steps@ =~= installation());
    steps
}

/// The steps of an update.
pub fn update_steps() -> (steps: Vec<InstallStep>)
    ensures
        steps@ == update(),
{
    let mut steps: Vec<InstallStep> = Vec::new();
    steps.push(InstallStep::InstallBinary);
    steps.push(InstallStep::Restart);
    steps.push(InstallStep::ShowStatus);
    assert(steps@ =~= update());
    steps
}

/// An update touches neither the settings nor the unit file.
pub proof fn update_leaves_settings_alone()
    ensures
        !update().contains(InstallStep::WriteConfigIfMissing),
        !update().contains(InstallStep::WriteUnitFile),
{
}

/// Every installation and every update starts the unit anew once the binary is
/// in its place, so that the new binary takes effect.
pub proof fn new_binary_takes_effect(i: int, j: int)
    requires
        0 <= i < installation().len(),
        installation()[i] == InstallStep::InstallBinary,
        0 <= j < update().len(),
        update()[j] == InstallStep::InstallBinary,
    ensures
        exists|k: int|
            i < k < installation().len() && #[trigger] installation()[k] == InstallStep::Restart,
        exists|k: int| j < k < update().len() && #[trigger] update()[k] == InstallStep::Restart,
{
    assert(installation()[7] == InstallStep::Restart);
    assert(update()[1] == InstallStep::Restart);
}

/// What to say of an error in writing to the system: where permission was
/// denied, that the program has to run as root.
pub fn hint_sudo(permission_denied: bool, error: String) -> (text: String)
    ensures
        text@ == if permission_denied {
            "permission denied -- rerun as root (sudo redir-rust --install-systemd)"@
        } else {
            error@
        },
{
    if permission_denied {
        "permission denied -- rerun as root (sudo redir-rust --install-systemd)".to_string()
    } else {
        error
    }
}

/// An installation puts everything in its place before the service manager is
/// told, and starts the unit last: directories before what goes in them, the
/// unit file before it is read, and that before the unit is enabled and
/// started.
pub proof fn installation_is_in_order(step: InstallStep)
    ensures
        installation().contains(step),
        installation().no_duplicates(),
        comes_first(installation(), InstallStep::MakeBinDir, InstallStep::InstallBinary),
        comes_first(installation(), InstallStep::MakeConfigDir, InstallStep::WriteConfigIfMissing),
        comes_first(installation(), InstallStep::InstallBinary, InstallStep::Restart),
        comes_first(installation(), InstallStep::WriteConfigIfMissing, InstallStep::Restart),
        comes_first(installation(), InstallStep::WriteUnitFile, InstallStep::DaemonReload),
        comes_first(installation(), InstallStep::DaemonReload, InstallStep::Enable),
        comes_first(installation(), InstallStep::Enable, InstallStep::Restart),
        comes_first(installation(), InstallStep::Restart, InstallStep::ShowStatus),
{
    let all = installation();
    assert(all[0] == InstallStep::MakeBinDir && all[1] == InstallStep::InstallBinary && all[2]
        == InstallStep::MakeConfigDir && all[3] == InstallStep::WriteConfigIfMissing && all[4]
        == InstallStep::WriteUnitFile && all[5] == InstallStep::DaemonReload && all[6]
        == InstallStep::Enable && all[7] == InstallStep::Restart && all[8]
        == InstallStep::ShowStatus);
}

/// Whether one step comes before another.
pub open spec fn comes_first(steps: Seq<InstallStep>, a: InstallStep, b: InstallStep) -> bool {
    exists|i: int, j: int|
        0 <= i < j < steps.len() && #[trigger] steps[i] == a && #[trigger] steps[j] == b
}

/// An update replaces the binary, starts the unit anew and shows its status,
/// in this order, and does nothing else.
pub proof fn update_replaces_the_binary(step: InstallStep)
    ensures
        comes_first(update(), InstallStep::InstallBinary, InstallStep::Restart),
        comes_first(update(), InstallStep::Restart, InstallStep::ShowStatus),
        update().contains(step) ==> step == InstallStep::InstallBinary || step
            == InstallStep::Restart || step == InstallStep::ShowStatus,
{
    let all = update();
    assert(all[0] == InstallStep::InstallBinary && all[1] == InstallStep::Restart && all[2]
        == InstallStep::ShowStatus);
}

} // verus!
