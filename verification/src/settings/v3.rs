//! The third settings layout: the communication method becomes a
//! choice between the message bus and the Unix socket, and the socket
//! path becomes optional.

use vstd::prelude::*;

verus! {

#[derive(Debug, Clone, PartialEq)]
pub struct ClientSettings {
    pub disable_window_controls: bool,
}

impl Default for ClientSettings {
    fn default() -> (r: Self)
        ensures
            !r.disable_window_controls,
    {
        ClientSettings { disable_window_controls: false }
    }
}

/// How the controller reaches the daemon.
#[derive(Debug, Clone, Copy, PartialEq, Eq, Structural)]
pub enum Methods {
    DBus,
    UnixSocket,
}

#[derive(Debug, Clone, PartialEq)]
pub struct GeneralSettings {
    pub communication_method: Methods,
    pub socket_path: Option<String>,
}

impl Default for GeneralSettings {
    fn default() -> (r: Self)
        ensures
            r.communication_method == Methods::DBus,
            r.socket_path matches Some(p) && p@ == "/run/user/$id/autoclicker.socket"@,
    {
        GeneralSettings {
            communication_method: Methods::DBus,
            socket_path: Some(String::from_str("/run/user/$id/autoclicker.socket")),
        }
    }
}

#[derive(Debug, Clone, PartialEq)]
pub struct KeyboardSettings {
    pub disabled: bool,
    pub added_delay: u64,
}

impl Default for KeyboardSettings {
    fn default() -> (r: Self)
        ensures
            !r.disabled,
            r.added_delay == 0,
    {
        KeyboardSettings { disabled: false, added_delay: 0 }
    }
}

#[derive(Debug, Clone, PartialEq)]
pub struct MouseSettings {
    pub disabled: bool,
    pub added_delay: u64,
}

impl Default for MouseSettings {
    fn default() -> (r: Self)
        ensures
            !r.disabled,
            r.added_delay == 0,
    {
        MouseSettings { disabled: false, added_delay: 0 }
    }
}

#[derive(Debug, Clone, PartialEq)]
pub struct DaemonSettings {
    pub hyprland_ipc: bool,
    pub dry_run: bool,
    pub mouse: MouseSettings,
    pub keyboard: KeyboardSettings,
}

impl Default for DaemonSettings {
    fn default() -> (r: Self)
        ensures
            r.hyprland_ipc,
            !r.dry_run,
            !r.mouse.disabled,
            r.mouse.added_delay == 0,
            !r.keyboard.disabled,
            r.keyboard.added_delay == 0,
    {
        DaemonSettings {
            hyprland_ipc: true,
            dry_run: false,
            mouse: MouseSettings::default(),
            keyboard: KeyboardSettings::default(),
        }
    }
}

#[derive(Debug, Clone, PartialEq)]
pub struct Settings {
    pub general: GeneralSettings,
    pub client: ClientSettings,
    pub daemon: DaemonSettings,
}

impl Default for Settings {
    fn default() -> (r: Self)
        ensures
            r.general.communication_method == Methods::DBus,
            r.general.socket_path matches Some(p) && p@ == "/run/user/$id/autoclicker.socket"@,
            !r.client.disable_window_controls,
            r.daemon.hyprland_ipc,
            !r.daemon.dry_run,
            !r.daemon.mouse.disabled,
            r.daemon.mouse.added_delay == 0,
            !r.daemon.keyboard.disabled,
            r.daemon.keyboard.added_delay == 0,
    {
        Settings {
            general: GeneralSettings::default(),
            client: ClientSettings::default(),
            daemon: DaemonSettings::default(),
        }
    }
}

} // verus!
