//! The request seam and the settings migrations, exercised from outside.

use autoclicker::protocol::{Message, RepeatingMouseClick, StopClicking};
use autoclicker::service::{handle_msg, encode_response, send_message, interpret_response, socket_file};
use autoclicker::settings::{v1, v2, v3, v4};
use autoclicker::keycodes::key_exists;
use autoclicker::hypr::{parse_cursor_pos, mouse_correction};
use autoclicker::service::{build_mouse_request, build_keyboard_request, ClickType};
use autoclicker::engine::MouseButton;
use autoclicker::actions::Actions;

fn daemon_defaults() -> v4::DaemonSettings {
    v4::DaemonSettings::default()
}

#[test]
fn handle_msg_accepts_valid_requests() {
    let raw = Message::encode(&Message::StopClicking(StopClicking {}));
    assert!(handle_msg(&raw, &daemon_defaults()).is_ok());

    let raw = Message::encode(&Message::RepeatingMouseClick(RepeatingMouseClick {
        button: "left".into(),
        typ: "single".into(),
        amount: 1,
        position: (None, None),
        interval: 10,
    }));
    assert!(handle_msg(&raw, &daemon_defaults()).is_ok());
}

#[test]
fn handle_msg_rejects_bad_requests() {
    assert!(handle_msg("not json", &daemon_defaults()).is_err());

    let raw = Message::encode(&Message::RepeatingMouseClick(RepeatingMouseClick {
        button: "fourth".into(),
        typ: "single".into(),
        amount: 1,
        position: (None, None),
        interval: 10,
    }));
    let err = handle_msg(&raw, &daemon_defaults()).unwrap_err();
    assert_eq!(err, "invalid mouse button");

    let raw = Message::encode(&Message::RepeatingMouseClick(RepeatingMouseClick {
        button: "left".into(),
        typ: "triple".into(),
        amount: 1,
        position: (None, None),
        interval: 10,
    }));
    assert_eq!(handle_msg(&raw, &daemon_defaults()).unwrap_err(), "invalid click type");

    // responses are not requests
    let raw = Message::encode(&Message::ConfirmResponse(
        autoclicker::protocol::ConfirmResponse {},
    ));
    assert_eq!(handle_msg(&raw, &daemon_defaults()).unwrap_err(), "invalid request");
}

#[test]
fn handle_msg_honours_disabled_subsystems() {
    let mut daemon = daemon_defaults();
    daemon.mouse.disabled = true;
    let raw = Message::encode(&Message::RepeatingMouseClick(RepeatingMouseClick {
        button: "left".into(),
        typ: "single".into(),
        amount: 1,
        position: (None, None),
        interval: 10,
    }));
    assert_eq!(
        handle_msg(&raw, &daemon).unwrap_err(),
        "mouse virtualization has been disabled in the configs"
    );
}

#[test]
fn responses_round_trip_through_interpretation() {
    let ok = encode_response(&Ok(Message::StopClicking(StopClicking {})));
    assert_eq!(interpret_response(&ok), Ok(()));

    let err = encode_response(&Err("broken".to_string()));
    assert_eq!(interpret_response(&err), Err("broken".to_string()));

    assert!(interpret_response("garbage").is_err());
}

#[test]
fn send_message_yields_the_wire_text() {
    let m = Message::StopClicking(StopClicking {});
    assert_eq!(send_message(&m), Message::encode(&m));
}

#[test]
fn socket_file_substitutes_the_user_id() {
    assert_eq!(
        socket_file("/run/user/$id/autoclicker.socket", 1000),
        "/run/user/1000/autoclicker.socket"
    );
    assert_eq!(socket_file("no placeholder", 7), "no placeholder");
    assert_eq!(socket_file("$id$id", 42), "4242");
}

#[test]
fn settings_migrate_forward() {
    let old = v1::Settings { disable_window_controls: true };
    let new = v4::Settings::v1(old);
    assert!(new.client.disable_window_controls);
    assert_eq!(new.general.communication_method, v4::Methods::DBus);

    let mut second = v2::Settings::default();
    second.general.socket_path = "/tmp/x.sock".to_string();
    second.daemon.keyboard.added_delay = 9;
    let new = v4::Settings::v2(second);
    assert_eq!(new.general.communication_method, v4::Methods::UnixSocket);
    assert_eq!(new.general.socket_path, Some("/tmp/x.sock".to_string()));
    assert_eq!(new.daemon.keyboard.added_delay, 9);

    let mut third = v3::Settings::default();
    third.general.communication_method = v3::Methods::UnixSocket;
    third.client.disable_window_controls = true;
    let new = v4::Settings::v3(third);
    assert_eq!(new.general.communication_method, v4::Methods::UnixSocket);
    assert!(new.client.disable_window_controls);
    assert!(!new.client.notification);
}

#[test]
fn keycode_table_answers_by_name() {
    assert!(key_exists("Space"));
    assert!(key_exists("space"));
    assert!(key_exists("TAB"));
    assert!(key_exists("a"));
    assert!(key_exists("7"));
    assert!(key_exists("move"));
    assert!(key_exists("LeftShift"));
    assert!(!key_exists("dely"));
    assert!(!key_exists(""));
    assert!(!key_exists("not a key"));
}

#[test]
fn cursor_answers_parse_exactly() {
    assert_eq!(parse_cursor_pos("12, -7"), Some((12, -7)));
    assert_eq!(parse_cursor_pos("0, 0"), Some((0, 0)));
    assert_eq!(parse_cursor_pos("12,-7"), None);
    assert_eq!(parse_cursor_pos("1, 2, 3"), None);
    assert_eq!(parse_cursor_pos("a, 2"), None);
    assert_eq!(parse_cursor_pos(""), None);

    assert_eq!(mouse_correction(Some(10), None, 4, 9), Some((Some(6), None)));
    assert_eq!(mouse_correction(Some(4), Some(9), 4, 9), None);
    assert_eq!(
        mouse_correction(Some(i32::MIN), Some(3), i32::MAX, 3),
        Some((Some(i32::MIN as i64 - i32::MAX as i64), Some(0)))
    );
}

#[test]
fn responses_encode_exactly() {
    let ok = encode_response(&Ok(Message::StopClicking(StopClicking {})));
    assert_eq!(ok, "{\"type\":\"ConfirmResponse\"}");
    let err = encode_response(&Err("boom".to_string()));
    assert_eq!(err, "{\"type\":\"Error\",\"msg\":\"boom\"}");
}

#[test]
fn defaults_match_the_documented_values() {
    let s = v4::Settings::default();
    assert_eq!(s.general.communication_method, v4::Methods::DBus);
    assert_eq!(
        s.general.socket_path,
        Some("/run/user/$id/autoclicker.socket".to_string())
    );
    assert!(s.daemon.hyprland_ipc);
    assert!(!s.daemon.dry_run);
    assert_eq!(s.daemon.mouse.added_delay, 0);
}

#[test]
fn built_requests_pass_validation() {
    let m = build_mouse_request(MouseButton::Middle, ClickType::Double, 2, 30, (7, 9), (true, false));
    match &m {
        Message::RepeatingMouseClick(c) => {
            assert_eq!(c.button, "middle");
            assert_eq!(c.typ, "double");
            assert_eq!(c.position, (Some(7), None));
        }
        _ => panic!("wrong variant"),
    }
    let raw = Message::encode(&m);
    assert!(handle_msg(&raw, &daemon_defaults()).is_ok());

    let k = build_keyboard_request(vec![Actions::Delay(5)], true, 1, 2, 3, 4);
    match &k {
        Message::RepeatingKeyboardClick(c) => {
            assert_eq!(
                c.buttons,
                vec![
                    Actions::Delay(5),
                    Actions::Press("KEY_ENTER".to_string()),
                    Actions::Release("KEY_ENTER".to_string()),
                ]
            );
        }
        _ => panic!("wrong variant"),
    }
}
