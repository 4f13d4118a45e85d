//! The wire format, exercised from outside.

use autoclicker::actions::Actions;
use autoclicker::protocol::{
    Message, MouseClick, RepeatingMouseClick, RepeatingKeyboardClick, StopClicking,
    ConfirmResponse, Error,
};

fn round_trips(m: Message) {
    let text = Message::encode(&m);
    let back = Message::decode(&text).unwrap();
    assert_eq!(back, m);
}

#[test]
fn stop_and_confirm_round_trip() {
    round_trips(Message::StopClicking(StopClicking {}));
    round_trips(Message::ConfirmResponse(ConfirmResponse {}));
}

#[test]
fn stop_encodes_exactly() {
    let text = Message::encode(&Message::StopClicking(StopClicking {}));
    assert_eq!(text, "{\"type\":\"StopClicking\"}");
}

#[test]
fn mouse_click_round_trips() {
    round_trips(Message::MouseClick(MouseClick { button: "left".into() }));
}

#[test]
fn repeating_mouse_click_encodes_and_round_trips() {
    let m = Message::RepeatingMouseClick(RepeatingMouseClick {
        button: "left".into(),
        typ: "single".into(),
        amount: 3,
        position: (Some(10), None),
        interval: 25,
    });
    let text = Message::encode(&m);
    assert_eq!(
        text,
        "{\"type\":\"RepeatingMouseClick\",\"button\":\"left\",\"typ\":\"single\",\"amount\":3,\"position\":[10,null],\"interval\":25}"
    );
    assert_eq!(Message::decode(&text).unwrap(), m);

    round_trips(Message::RepeatingMouseClick(RepeatingMouseClick {
        button: "middle".into(),
        typ: "double".into(),
        amount: 0,
        position: (None, Some(-7)),
        interval: u64::MAX,
    }));
    round_trips(Message::RepeatingMouseClick(RepeatingMouseClick {
        button: "right".into(),
        typ: "double".into(),
        amount: u64::MAX,
        position: (Some(i32::MIN), Some(i32::MAX)),
        interval: 0,
    }));
}

#[test]
fn repeating_keyboard_click_encodes_and_round_trips() {
    let m = Message::RepeatingKeyboardClick(RepeatingKeyboardClick {
        buttons: vec![
            Actions::Press("KEY_A".into()),
            Actions::Delay(-50),
            Actions::Release("KEY_A".into()),
            Actions::PressAndRelease("KEY_ENTER".into()),
        ],
        amount: 2,
        interval: 25,
        delay_before_repeat: 100,
        hold_duration: 5,
    });
    let text = Message::encode(&m);
    assert_eq!(
        text,
        "{\"type\":\"RepeatingKeyboardClick\",\"buttons\":[{\"Press\":\"KEY_A\"},{\"Delay\":-50},{\"Release\":\"KEY_A\"},{\"PressAndRelease\":\"KEY_ENTER\"}],\"amount\":2,\"interval\":25,\"delay_before_repeat\":100,\"hold_duration\":5}"
    );
    assert_eq!(Message::decode(&text).unwrap(), m);

    round_trips(Message::RepeatingKeyboardClick(RepeatingKeyboardClick {
        buttons: vec![],
        amount: 0,
        interval: 0,
        delay_before_repeat: 0,
        hold_duration: 0,
    }));
    round_trips(Message::RepeatingKeyboardClick(RepeatingKeyboardClick {
        buttons: vec![Actions::Delay(i64::MIN), Actions::Delay(i64::MAX)],
        amount: 1,
        interval: 1,
        delay_before_repeat: 1,
        hold_duration: 1,
    }));
}

#[test]
fn error_message_escapes_round_trip() {
    round_trips(Message::Error(Error { msg: "plain".into() }));
    round_trips(Message::Error(Error {
        msg: "quotes \" and \\ and\nnewlines\tand \u{1} controls and \u{1F602}".into(),
    }));
    round_trips(Message::Error(Error { msg: "".into() }));
}

#[test]
fn decode_tolerates_insignificant_whitespace() {
    assert_eq!(
        Message::decode("{\"type\":\"StopClicking\"} ").unwrap(),
        Message::StopClicking(StopClicking {})
    );
    assert_eq!(
        Message::decode("  {\n  \"type\" : \"StopClicking\"\n}\t").unwrap(),
        Message::StopClicking(StopClicking {})
    );
    let m = Message::decode(
        "{ \"type\": \"RepeatingMouseClick\", \"button\": \"left\", \"typ\": \"single\", \"amount\": 3, \"position\": [ 10 , null ], \"interval\": 25 }"
    ).unwrap();
    assert_eq!(
        m,
        Message::RepeatingMouseClick(RepeatingMouseClick {
            button: "left".into(),
            typ: "single".into(),
            amount: 3,
            position: (Some(10), None),
            interval: 25,
        })
    );
    let m = Message::decode(
        "{\"type\":\"RepeatingKeyboardClick\",\"buttons\":[ {\"Press\": \"KEY_A\"} , {\"Delay\": -5} ],\"amount\":1,\"interval\":2,\"delay_before_repeat\":3,\"hold_duration\":4}"
    ).unwrap();
    assert_eq!(
        m,
        Message::RepeatingKeyboardClick(RepeatingKeyboardClick {
            buttons: vec![Actions::Press("KEY_A".into()), Actions::Delay(-5)],
            amount: 1,
            interval: 2,
            delay_before_repeat: 3,
            hold_duration: 4,
        })
    );
}

#[test]
fn decode_rejects_malformed_text() {
    assert!(Message::decode("").is_err());
    assert!(Message::decode("garbage").is_err());
    assert!(Message::decode("{\"type\":\"NoSuchThing\"}").is_err());
    assert!(Message::decode("{\"type\":\"StopClicking\"} trailing").is_err());
    assert!(Message::decode("{\"type\":\"Error\",\"msg\":\"unclosed}").is_err());
    assert!(Message::decode(
        "{\"type\":\"RepeatingMouseClick\",\"button\":\"left\",\"typ\":\"single\",\"amount\":99999999999999999999,\"position\":[null,null],\"interval\":1}"
    ).is_err());
}
