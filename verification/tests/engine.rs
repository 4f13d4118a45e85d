//! The action execution engine, driven tick by tick.

use autoclicker::actions::Actions;
use autoclicker::engine::{Engine, DeviceOp, MouseButton};
use autoclicker::protocol::{
    Message, RepeatingMouseClick, RepeatingKeyboardClick, StopClicking,
};

fn mouse_spec(amount: u64, interval: u64) -> Message {
    Message::RepeatingMouseClick(RepeatingMouseClick {
        button: "left".into(),
        typ: "single".into(),
        amount,
        position: (None, None),
        interval,
    })
}

#[test]
fn bounded_mouse_spec_clicks_exactly_amount_times() {
    let mut e = Engine::new(0, 0, 0);
    e.apply_message(mouse_spec(3, 10), 0);
    let mut clicks = 0;
    let mut now = 0u64;
    for _ in 0..100 {
        now += 7;
        let ops = e.tick(now);
        clicks += ops
            .iter()
            .filter(|o| matches!(o, DeviceOp::ClickButton(_)))
            .count();
    }
    assert_eq!(clicks, 3);
    assert_eq!(e.cycles_completed(), 3);
    // long after, still idle
    let ops = e.tick(1_000_000);
    assert!(ops.is_empty());
}

#[test]
fn unbounded_mouse_spec_keeps_clicking() {
    let mut e = Engine::new(0, 0, 0);
    e.apply_message(mouse_spec(0, 10), 0);
    let mut clicks = 0;
    let mut now = 0u64;
    for _ in 0..10 {
        now += 10;
        clicks += e
            .tick(now)
            .iter()
            .filter(|o| matches!(o, DeviceOp::ClickButton(_)))
            .count();
    }
    assert_eq!(clicks, 10);
}

#[test]
fn double_click_emits_two_clicks_with_a_pause() {
    let mut e = Engine::new(0, 0, 0);
    e.apply_message(
        Message::RepeatingMouseClick(RepeatingMouseClick {
            button: "right".into(),
            typ: "double".into(),
            amount: 1,
            position: (Some(5), Some(6)),
            interval: 0,
        }),
        0,
    );
    let ops = e.tick(1);
    assert_eq!(
        ops,
        vec![
            DeviceOp::MoveMouse(Some(5), Some(6)),
            DeviceOp::ClickButton(MouseButton::Right),
            DeviceOp::SleepMs(50),
            DeviceOp::ClickButton(MouseButton::Right),
        ]
    );
}

#[test]
fn mouse_interval_gates_clicks() {
    let mut e = Engine::new(0, 0, 0);
    e.apply_message(mouse_spec(0, 100), 0);
    assert!(e.tick(50).is_empty());
    assert!(!e.tick(100).is_empty());
    assert!(e.tick(150).is_empty());
    assert!(!e.tick(200).is_empty());
}

#[test]
fn press_delay_release_respects_the_delay() {
    let mut e = Engine::new(0, 0, 0);
    e.apply_message(
        Message::RepeatingKeyboardClick(RepeatingKeyboardClick {
            buttons: vec![
                Actions::Press("KEY_A".into()),
                Actions::Delay(50),
                Actions::Release("KEY_A".into()),
            ],
            amount: 1,
            interval: 0,
            delay_before_repeat: 0,
            hold_duration: 0,
        }),
        0,
    );
    // the press step
    let ops = e.tick(1);
    assert_eq!(ops, vec![DeviceOp::PressKey("KEY_A".to_string())]);
    assert_eq!(e.held_keys(), vec!["KEY_A".to_string()]);
    // the delay step arms the pending delay; no device work
    assert!(e.tick(2).is_empty());
    // the delay has not elapsed: nothing happens, the key stays held
    assert!(e.tick(30).is_empty());
    assert_eq!(e.held_keys(), vec!["KEY_A".to_string()]);
    assert!(e.tick(52).is_empty()); // clears the pending delay only
    assert_eq!(e.held_keys(), vec!["KEY_A".to_string()]);
    // the release step finally runs, at least 50 ms after the delay step
    let ops = e.tick(53);
    assert_eq!(ops, vec![DeviceOp::ReleaseKey("KEY_A".to_string())]);
    assert!(e.held_keys().is_empty());
}

#[test]
fn stop_releases_every_held_key_once() {
    let mut e = Engine::new(0, 0, 0);
    e.apply_message(
        Message::RepeatingKeyboardClick(RepeatingKeyboardClick {
            buttons: vec![Actions::Press("KEY_A".into()), Actions::Press("KEY_B".into())],
            amount: 1,
            interval: 0,
            delay_before_repeat: 0,
            hold_duration: 0,
        }),
        0,
    );
    assert_eq!(e.tick(1), vec![DeviceOp::PressKey("KEY_A".to_string())]);
    assert_eq!(e.tick(2), vec![DeviceOp::PressKey("KEY_B".to_string())]);
    assert_eq!(
        e.held_keys(),
        vec!["KEY_A".to_string(), "KEY_B".to_string()]
    );
    e.apply_message(Message::StopClicking(StopClicking {}), 3);
    let ops = e.tick(3);
    assert_eq!(
        ops,
        vec![
            DeviceOp::ReleaseKey("KEY_A".to_string()),
            DeviceOp::ReleaseKey("KEY_B".to_string()),
        ]
    );
    assert!(e.held_keys().is_empty());
    // a second stop tick has nothing left to release
    assert!(e.tick(4).is_empty());
}

#[test]
fn hold_duration_defers_the_release_of_press_and_release() {
    let mut e = Engine::new(0, 0, 0);
    e.apply_message(
        Message::RepeatingKeyboardClick(RepeatingKeyboardClick {
            buttons: vec![Actions::PressAndRelease("KEY_X".into())],
            amount: 1,
            interval: 0,
            delay_before_repeat: 0,
            hold_duration: 40,
        }),
        0,
    );
    assert_eq!(e.tick(5), vec![DeviceOp::PressKey("KEY_X".to_string())]);
    assert_eq!(e.held_keys(), vec!["KEY_X".to_string()]);
    // held until the hold duration has elapsed since the press itself
    assert!(e.tick(44).is_empty());
    let ops = e.tick(45);
    assert_eq!(ops, vec![DeviceOp::ReleaseKey("KEY_X".to_string())]);
    assert!(e.held_keys().is_empty());
    assert_eq!(e.cycles_completed(), 1);
}

#[test]
fn delay_before_repeat_gates_each_cycle() {
    let mut e = Engine::new(0, 0, 0);
    e.apply_message(
        Message::RepeatingKeyboardClick(RepeatingKeyboardClick {
            buttons: vec![Actions::Press("KEY_C".into()), Actions::Release("KEY_C".into())],
            amount: 0,
            interval: 0,
            delay_before_repeat: 100,
            hold_duration: 0,
        }),
        0,
    );
    // the first cycle waits out the pre-cycle delay
    assert!(e.tick(10).is_empty());
    assert_eq!(e.tick(100), vec![DeviceOp::PressKey("KEY_C".to_string())]);
    assert_eq!(e.tick(101), vec![DeviceOp::ReleaseKey("KEY_C".to_string())]);
    assert_eq!(e.cycles_completed(), 1);
    // and the second again
    assert!(e.tick(150).is_empty());
    assert_eq!(e.tick(201), vec![DeviceOp::PressKey("KEY_C".to_string())]);
}

#[test]
fn invalid_key_names_are_skipped_defensively() {
    let mut e = Engine::new(0, 0, 0);
    e.apply_message(
        Message::RepeatingKeyboardClick(RepeatingKeyboardClick {
            buttons: vec![Actions::Press("not a key".into())],
            amount: 1,
            interval: 0,
            delay_before_repeat: 0,
            hold_duration: 0,
        }),
        0,
    );
    assert!(e.tick(10).is_empty());
    assert!(e.held_keys().is_empty());
}

#[test]
fn extra_delay_setting_stretches_the_interval() {
    let mut e = Engine::new(40, 0, 0);
    e.apply_message(mouse_spec(0, 10), 0);
    assert!(e.tick(30).is_empty());
    assert!(!e.tick(50).is_empty());
}

#[test]
fn hold_runs_from_the_press_not_the_previous_action() {
    let mut e = Engine::new(0, 0, 0);
    e.apply_message(
        Message::RepeatingKeyboardClick(RepeatingKeyboardClick {
            buttons: vec![Actions::PressAndRelease("KEY_Z".into())],
            amount: 1,
            interval: 0,
            delay_before_repeat: 100,
            hold_duration: 40,
        }),
        0,
    );
    // the pre-cycle delay postpones the press until t=100
    assert!(e.tick(99).is_empty());
    assert_eq!(e.tick(100), vec![DeviceOp::PressKey("KEY_Z".to_string())]);
    // one millisecond after the press the hold has not elapsed
    assert!(e.tick(101).is_empty());
    assert!(e.tick(139).is_empty());
    assert_eq!(e.tick(140), vec![DeviceOp::ReleaseKey("KEY_Z".to_string())]);
}
