//! The command protocol: the tagged message variants the controller and
//! the engine exchange, with their mathematical views.
//!
//! The wire form lives in [`crate::codec`], which proves the round-trip
//! law `decode(encode(m)) == m`.

use vstd::prelude::*;
use crate::actions::{Actions, ActionV, wf_action};

verus! {

/// Request: clear the active specification and release held keys.
#[derive(Debug, Clone, PartialEq)]
pub struct StopClicking {}

/// Request: repeat a mouse click.
///
/// `button` is one of `left`, `right`, `middle`; `typ` one of `single`,
/// `double`; `amount == 0` means "repeat until superseded"; `position`
/// holds the optional absolute target of each axis; `interval` is the
/// pause between clicks in milliseconds.
#[derive(Debug, PartialEq)]
pub struct RepeatingMouseClick {
    pub button: String,
    pub typ: String,
    pub amount: u64,
    pub position: (Option<i32>, Option<i32>),
    pub interval: u64,
}

/// Request: repeat a compiled key sequence.
///
/// `amount == 0` means "repeat until superseded"; `interval` is the pause
/// between steps, `delay_before_repeat` the pause before each new cycle,
/// `hold_duration` how long a pressed-and-released key stays down; all in
/// milliseconds.
#[derive(Debug, Clone, PartialEq)]
pub struct RepeatingKeyboardClick {
    pub buttons: Vec<Actions>,
    pub amount: u64,
    pub interval: u64,
    pub delay_before_repeat: u64,
    pub hold_duration: u64,
}

/// Request: a single mouse click (accepted on the wire, not scheduled).
#[derive(Debug, Clone, PartialEq)]
pub struct MouseClick {
    pub button: String,
}

/// Response: the request was accepted.
#[derive(Debug, Clone, PartialEq)]
pub struct ConfirmResponse {}

/// Response: the request was rejected, with the reason.
#[derive(Debug, Clone, PartialEq)]
pub struct Error {
    pub msg: String,
}

/// The tagged union that crosses the process boundary.
#[derive(Debug, PartialEq)]
pub enum Message {
    MouseClick(MouseClick),
    RepeatingMouseClick(RepeatingMouseClick),
    RepeatingKeyboardClick(RepeatingKeyboardClick),
    StopClicking(StopClicking),
    ConfirmResponse(ConfirmResponse),
    Error(Error),
}

/// The mathematical shape of a message.
pub enum MessageV {
    MouseClick { button: Seq<char> },
    RepeatingMouseClick {
        button: Seq<char>,
        typ: Seq<char>,
        amount: int,
        position: (Option<int>, Option<int>),
        interval: int,
    },
    RepeatingKeyboardClick {
        buttons: Seq<ActionV>,
        amount: int,
        interval: int,
        delay_before_repeat: int,
        hold_duration: int,
    },
    StopClicking,
    ConfirmResponse,
    Error { msg: Seq<char> },
}

pub open spec fn opt_i32_view(o: Option<i32>) -> Option<int> {
    match o {
        Some(n) => Some(n as int),
        None => None,
    }
}

impl View for Message {
    type V = MessageV;

    open spec fn view(&self) -> MessageV {
        match self {
            Message::MouseClick(c) => MessageV::MouseClick { button: c.button@ },
            Message::RepeatingMouseClick(c) => MessageV::RepeatingMouseClick {
                button: c.button@,
                typ: c.typ@,
                amount: c.amount as int,
                position: (opt_i32_view(c.position.0), opt_i32_view(c.position.1)),
                interval: c.interval as int,
            },
            Message::RepeatingKeyboardClick(c) => MessageV::RepeatingKeyboardClick {
                buttons: c.buttons@.map_values(|a: Actions| a@),
                amount: c.amount as int,
                interval: c.interval as int,
                delay_before_repeat: c.delay_before_repeat as int,
                hold_duration: c.hold_duration as int,
            },
            Message::StopClicking(_) => MessageV::StopClicking,
            Message::ConfirmResponse(_) => MessageV::ConfirmResponse,
            Message::Error(e) => MessageV::Error { msg: e.msg@ },
        }
    }
}

/// The shapes a `Message` value can actually take: every numeric field
/// within its machine range. The view of every `Message` satisfies it.
pub open spec fn wf_msg(m: MessageV) -> bool {
    match m {
        MessageV::MouseClick { .. } => true,
        MessageV::RepeatingMouseClick { amount, position, interval, .. } => {
            &&& 0 <= amount <= u64::MAX
            &&& 0 <= interval <= u64::MAX
            &&& match position.0 {
                Some(x) => i32::MIN <= x <= i32::MAX,
                None => true,
            }
            &&& match position.1 {
                Some(y) => i32::MIN <= y <= i32::MAX,
                None => true,
            }
        },
        MessageV::RepeatingKeyboardClick {
            buttons,
            amount,
            interval,
            delay_before_repeat,
            hold_duration,
        } => {
            &&& 0 <= amount <= u64::MAX
            &&& 0 <= interval <= u64::MAX
            &&& 0 <= delay_before_repeat <= u64::MAX
            &&& 0 <= hold_duration <= u64::MAX
            &&& forall|i: int| 0 <= i < buttons.len() ==> wf_action(#[trigger] buttons[i])
        },
        MessageV::StopClicking => true,
        MessageV::ConfirmResponse => true,
        MessageV::Error { .. } => true,
    }
}

/// The view of any message value is well-formed.
pub proof fn lemma_message_view_wf(m: &Message)
    ensures
        wf_msg(m@),
{
    match m {
        Message::RepeatingKeyboardClick(c) => {
            let bs = c.buttons@.map_values(|a: Actions| a@);
            assert forall|i: int| 0 <= i < bs.len() implies wf_action(#[trigger] bs[i]) by {
                assert(bs[i] == c.buttons@[i]@);
            };
        },
        _ => {},
    }
}

} // verus!
