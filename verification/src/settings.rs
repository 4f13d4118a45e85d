//! Settings and their migration across layout versions.
//!
//! Loading and storing the configuration file is the host's business;
//! what lives here is the data and the migrations: each older layout is
//! lifted into the current one, field by field, with nothing invented
//! and nothing dropped but what the newer layout no longer has.

pub mod v1;
pub mod v2;
pub mod v3;
pub mod v4;

use vstd::prelude::*;

verus! {

impl v4::Settings {
    /// Lifts the first layout: only the window-controls switch carries
    /// over; everything else takes its default.
    pub fn v1(old: v1::Settings) -> (r: Self)
        ensures
            r.client.disable_window_controls == old.disable_window_controls,
            !r.client.notification,
            r.general.communication_method == v4::Methods::DBus,
            r.general.socket_path matches Some(p)
                && p@ == "/run/user/$id/autoclicker.socket"@,
            r.daemon.hyprland_ipc,
            !r.daemon.dry_run,
            !r.daemon.mouse.disabled,
            r.daemon.mouse.added_delay == 0,
            !r.daemon.keyboard.disabled,
            r.daemon.keyboard.added_delay == 0,
    {
        v4::Settings {
            general: v4::GeneralSettings::default(),
            client: v4::ClientSettings {
                disable_window_controls: old.disable_window_controls,
                notification: false,
            },
            daemon: v4::DaemonSettings::default(),
        }
    }

    /// Lifts the second layout: its mandatory socket path becomes the
    /// optional one, and the communication method it implied — the Unix
    /// socket — is made explicit.
    pub fn v2(old: v2::Settings) -> (r: Self)
        ensures
            r.general.communication_method == v4::Methods::UnixSocket,
            r.general.socket_path matches Some(p) && p@ == old.general.socket_path@,
            r.client.disable_window_controls == old.client.disable_window_controls,
            !r.client.notification,
            r.daemon.hyprland_ipc == old.daemon.hyprland_ipc,
            r.daemon.dry_run == old.daemon.dry_run,
            r.daemon.mouse.disabled == old.daemon.mouse.disabled,
            r.daemon.mouse.added_delay == old.daemon.mouse.added_delay,
            r.daemon.keyboard.disabled == old.daemon.keyboard.disabled,
            r.daemon.keyboard.added_delay == old.daemon.keyboard.added_delay,
    {
        v4::Settings {
            general: v4::GeneralSettings {
                communication_method: v4::Methods::UnixSocket,
                socket_path: Some(old.general.socket_path),
            },
            client: v4::ClientSettings {
                disable_window_controls: old.client.disable_window_controls,
                notification: false,
            },
            daemon: v4::DaemonSettings {
                hyprland_ipc: old.daemon.hyprland_ipc,
                dry_run: old.daemon.dry_run,
                mouse: v4::MouseSettings {
                    disabled: old.daemon.mouse.disabled,
                    added_delay: old.daemon.mouse.added_delay,
                },
                keyboard: v4::KeyboardSettings {
                    disabled: old.daemon.keyboard.disabled,
                    added_delay: old.daemon.keyboard.added_delay,
                },
            },
        }
    }

    /// Lifts the third layout, which already has the current shape but
    /// for the client's notification switch.
    pub fn v3(old: v3::Settings) -> (r: Self)
        ensures
            r.general.communication_method == (match old.general.communication_method {
                v3::Methods::DBus => v4::Methods::DBus,
                v3::Methods::UnixSocket => v4::Methods::UnixSocket,
            }),
            (match (r.general.socket_path, old.general.socket_path) {
                (Some(p), Some(q)) => p@ == q@,
                (None, None) => true,
                _ => false,
            }),
            r.client.disable_window_controls == old.client.disable_window_controls,
            !r.client.notification,
            r.daemon.hyprland_ipc == old.daemon.hyprland_ipc,
            r.daemon.dry_run == old.daemon.dry_run,
            r.daemon.mouse.disabled == old.daemon.mouse.disabled,
            r.daemon.mouse.added_delay == old.daemon.mouse.added_delay,
            r.daemon.keyboard.disabled == old.daemon.keyboard.disabled,
            r.daemon.keyboard.added_delay == old.daemon.keyboard.added_delay,
    {
        let method = match old.general.communication_method {
            v3::Methods::DBus => v4::Methods::DBus,
            v3::Methods::UnixSocket => v4::Methods::UnixSocket,
        };
        v4::Settings {
            general: v4::GeneralSettings {
                communication_method: method,
                socket_path: old.general.socket_path,
            },
            client: v4::ClientSettings {
                disable_window_controls: old.client.disable_window_controls,
                notification: false,
            },
            daemon: v4::DaemonSettings {
                hyprland_ipc: old.daemon.hyprland_ipc,
                dry_run: old.daemon.dry_run,
                mouse: v4::MouseSettings {
                    disabled: old.daemon.mouse.disabled,
                    added_delay: old.daemon.mouse.added_delay,
                },
                keyboard: v4::KeyboardSettings {
                    disabled: old.daemon.keyboard.disabled,
                    added_delay: old.daemon.keyboard.added_delay,
                },
            },
        }
    }
}

} // verus!
