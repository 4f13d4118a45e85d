//! The request/response seam between the transports and the engine.
//!
//! A transport listener hands raw request text in and sends raw
//! response text back; everything in between — decoding, semantic
//! validation against the daemon settings, response encoding, and the
//! client's reading of a response — is decided here, over plain values.

use vstd::prelude::*;
use crate::protocol::{Message, MessageV, ConfirmResponse, Error};
use crate::codec::{dec_msg, enc_msg};
use crate::settings::v4::DaemonSettings;
use crate::digits::nat_digits;

verus! {

/// The requests the daemon accepts: a stop; a mouse repetition with a
/// known button and click type while the mouse is enabled; a keyboard
/// repetition while the keyboard is enabled. Responses are never
/// accepted as requests.
pub open spec fn valid_request(m: MessageV, mouse_disabled: bool, keyboard_disabled: bool) -> bool {
    match m {
        MessageV::StopClicking => true,
        MessageV::RepeatingMouseClick { button, typ, .. } => {
            &&& !mouse_disabled
            &&& (button == "left"@ || button == "right"@ || button == "middle"@)
            &&& (typ == "single"@ || typ == "double"@)
        },
        MessageV::RepeatingKeyboardClick { .. } => !keyboard_disabled,
        _ => false,
    }
}

/// Every accepted request is one the engine can make active.
pub proof fn lemma_valid_request_is_request(m: MessageV, md: bool, kd: bool)
    requires
        valid_request(m, md, kd),
    ensures
        crate::engine::is_request(m),
{
}

/// Decodes one inbound request and validates it against the daemon
/// settings. `Ok` exactly when the text decodes and the decoded request
/// is acceptable; the error carries the reason for the caller's
/// response.
pub fn handle_msg(raw: &str, daemon: &DaemonSettings) -> (r: Result<Message, String>)
    ensures
        match r {
            Ok(m) => dec_msg(raw@) == Some(m@)
                && valid_request(m@, daemon.mouse.disabled, daemon.keyboard.disabled),
            Err(_) => match dec_msg(raw@) {
                Some(m) => !valid_request(m, daemon.mouse.disabled, daemon.keyboard.disabled),
                None => true,
            },
        },
{
    let req = match Message::decode(raw) {
        Ok(m) => m,
        Err(_) => {
            return Err(String::from_str("could not decode the request"));
        },
    };
    match &req {
        Message::RepeatingMouseClick(event) => {
            if daemon.mouse.disabled {
                return Err(String::from_str(
                    "mouse virtualization has been disabled in the configs",
                ));
            }
            if !(crate::chars::str_eq(event.button.as_str(), "left")
                || crate::chars::str_eq(event.button.as_str(), "right")
                || crate::chars::str_eq(event.button.as_str(), "middle")) {
                return Err(String::from_str("invalid mouse button"));
            }
            if !(crate::chars::str_eq(event.typ.as_str(), "single")
                || crate::chars::str_eq(event.typ.as_str(), "double")) {
                return Err(String::from_str("invalid click type"));
            }
        },
        Message::RepeatingKeyboardClick(_) => {
            if daemon.keyboard.disabled {
                return Err(String::from_str(
                    "keyboard virtualization has been disabled in the configs",
                ));
            }
        },
        Message::StopClicking(_) => {},
        _ => {
            return Err(String::from_str("invalid request"));
        },
    }
    Ok(req)
}

/// The wire text a listener answers with: a confirmation for an
/// accepted request, the error message otherwise.
pub fn encode_response(outcome: &Result<Message, String>) -> (r: String)
    ensures
        match outcome {
            Ok(_) => r@ == enc_msg(MessageV::ConfirmResponse),
            Err(e) => r@ == enc_msg(MessageV::Error { msg: e@ }),
        },
{
    match outcome {
        Ok(_) => Message::encode(&Message::ConfirmResponse(ConfirmResponse {})),
        Err(e) => Message::encode(&Message::Error(Error {
            msg: String::from_str(e.as_str()),
        })),
    }
}

/// The wire text of one outbound request. The host writes it to its
/// transport — bus or socket, the payload is the same — and hands the
/// reply to [`interpret_response`].
pub fn send_message(msg: &Message) -> (r: String)
    ensures
        r@ == enc_msg(msg@),
{
    Message::encode(msg)
}

/// Reads the daemon's reply: success unless the reply does not decode
/// or is an error message, whose text is then handed back.
pub fn interpret_response(raw: &str) -> (r: Result<(), String>)
    ensures
        match r {
            Ok(_) => dec_msg(raw@) matches Some(m) && !(m is Error),
            Err(e) => match dec_msg(raw@) {
                Some(m) => m matches MessageV::Error { msg } && e@ == msg,
                None => true,
            },
        },
{
    match Message::decode(raw) {
        Ok(m) => match m {
            Message::Error(e) => Err(e.msg),
            _ => Ok(()),
        },
        Err(_) => Err(String::from_str("could not decode the response")),
    }
}

/// The socket path template with every `$id` replaced by the user id.
pub open spec fn subst_id(s: Seq<char>, uid: int) -> Seq<char>
    decreases s.len(),
{
    if s.len() == 0 {
        Seq::empty()
    } else if s.len() >= 3 && s.take(3) == "$id"@ {
        nat_digits(uid) + subst_id(s.skip(3), uid)
    } else {
        seq![s[0]] + subst_id(s.skip(1), uid)
    }
}

/// Resolves the configured socket path: every `$id` in the template
/// becomes the user id in decimal.
pub fn socket_file(template: &str, uid: u64) -> (r: String)
    ensures
        r@ == subst_id(template@, uid as int),
{
    let v = crate::chars::str_to_chars(template);
    let mut out: Vec<char> = Vec::new();
    let mut i: usize = 0;
    proof {
        reveal_strlit("$id");
        assert(v@.skip(0) =~= template@);
        assert(Seq::<char>::empty() + subst_id(template@, uid as int)
            =~= subst_id(template@, uid as int));
    }
    while i < v.len()
        invariant
            i <= v@.len(),
            v@ == template@,
            subst_id(template@, uid as int)
                == out@ + subst_id(v@.skip(i as int), uid as int),
        decreases v@.len() - i,
    {
        let ghost suf = v@.skip(i as int);
        let ghost oldout = out@;
        proof {
            reveal_strlit("$id");
            assert(suf[0] == v@[i as int]);
        }
        if v.len() - i > 2 && v[i] == '$' && v[i + 1] == 'i' && v[i + 2] == 'd' {
            proof {
                assert(suf[1] == v@[i + 1] && suf[2] == v@[i + 2]);
                assert(suf.take(3) =~= "$id"@);
                assert(suf.skip(3) =~= v@.skip(i + 3));
            }
            crate::digits::push_u64_digits(&mut out, uid);
            i += 3;
            proof {
                assert(oldout + (nat_digits(uid as int) + subst_id(v@.skip(i as int), uid as int))
                    =~= out@ + subst_id(v@.skip(i as int), uid as int));
            }
        } else {
            proof {
                if suf.len() >= 3 && suf.take(3) == "$id"@ {
                    assert(suf.take(3)[0] == suf[0]);
                    assert(suf.take(3)[1] == suf[1]);
                    assert(suf.take(3)[2] == suf[2]);
                    assert(v@[i as int] == '$' && v@[i + 1] == 'i' && v@[i + 2] == 'd');
                }
                assert(suf.skip(1) =~= v@.skip(i + 1));
            }
            out.push(v[i]);
            i += 1;
            proof {
                assert(oldout + (seq![suf[0]] + subst_id(v@.skip(i as int), uid as int))
                    =~= out@ + subst_id(v@.skip(i as int), uid as int));
            }
        }
    }
    proof {
        assert(v@.skip(v@.len() as int).len() == 0);
        assert(out@ + Seq::<char>::empty() =~= out@);
    }
    crate::chars::chars_to_string(&out)
}

} // verus!

// ---------------------------------------------------------------------------
// Building requests on the controller's side.
// ---------------------------------------------------------------------------

verus! {

/// Whether one repetition is a single or a double click.
#[derive(Debug, Clone, Copy, PartialEq, Eq, Structural)]
pub enum ClickType {
    Single,
    Double,
}

/// The wire name of a mouse button.
pub open spec fn button_name(b: crate::engine::MouseButton) -> Seq<char> {
    match b {
        crate::engine::MouseButton::Left => "left"@,
        crate::engine::MouseButton::Right => "right"@,
        crate::engine::MouseButton::Middle => "middle"@,
    }
}

/// The wire name of a click type.
pub open spec fn click_type_name(t: ClickType) -> Seq<char> {
    match t {
        ClickType::Single => "single"@,
        ClickType::Double => "double"@,
    }
}

/// The mouse request the controller issues: the chosen button and
/// click type under their wire names, and each position axis only when
/// it is enabled.
pub fn build_mouse_request(
    button: crate::engine::MouseButton,
    typ: ClickType,
    amount: u64,
    interval: u64,
    position: (i32, i32),
    enabled_axis: (bool, bool),
) -> (r: Message)
    ensures
        r@ == (MessageV::RepeatingMouseClick {
            button: button_name(button),
            typ: click_type_name(typ),
            amount: amount as int,
            position: (
                if enabled_axis.0 { Some(position.0 as int) } else { None },
                if enabled_axis.1 { Some(position.1 as int) } else { None },
            ),
            interval: interval as int,
        }),
{
    let button_str = match button {
        crate::engine::MouseButton::Left => String::from_str("left"),
        crate::engine::MouseButton::Right => String::from_str("right"),
        crate::engine::MouseButton::Middle => String::from_str("middle"),
    };
    let typ_str = match typ {
        ClickType::Single => String::from_str("single"),
        ClickType::Double => String::from_str("double"),
    };
    Message::RepeatingMouseClick(crate::protocol::RepeatingMouseClick {
        button: button_str,
        typ: typ_str,
        amount,
        position: (
            if enabled_axis.0 {
                Some(position.0)
            } else {
                None
            },
            if enabled_axis.1 {
                Some(position.1)
            } else {
                None
            },
        ),
        interval,
    })
}

/// The keyboard request the controller issues: the compiled sequence,
/// with a press and release of the enter key appended when asked for.
pub fn build_keyboard_request(
    sequence: Vec<crate::actions::Actions>,
    enter_after: bool,
    amount: u64,
    interval: u64,
    delay_before_repeat: u64,
    hold_duration: u64,
) -> (r: Message)
    ensures
        r@ == (MessageV::RepeatingKeyboardClick {
            buttons: sequence@.map_values(|a: crate::actions::Actions| a@) + (if enter_after {
                seq![
                    crate::actions::ActionV::Press("KEY_ENTER"@),
                    crate::actions::ActionV::Release("KEY_ENTER"@),
                ]
            } else {
                Seq::empty()
            }),
            amount: amount as int,
            interval: interval as int,
            delay_before_repeat: delay_before_repeat as int,
            hold_duration: hold_duration as int,
        }),
{
    let ghost base = sequence@.map_values(|a: crate::actions::Actions| a@);
    let mut seq_mut = sequence;
    if enter_after {
        seq_mut.push(crate::actions::Actions::Press(String::from_str("KEY_ENTER")));
        seq_mut.push(crate::actions::Actions::Release(String::from_str("KEY_ENTER")));
        proof {
            assert(base.len() == seq_mut@.len() - 2);
            assert(seq_mut@.map_values(|a: crate::actions::Actions| a@) =~= base + seq![
                crate::actions::ActionV::Press("KEY_ENTER"@),
                crate::actions::ActionV::Release("KEY_ENTER"@),
            ]);
        }
    } else {
        proof {
            assert(seq_mut@.map_values(|a: crate::actions::Actions| a@) =~= base
                + Seq::<crate::actions::ActionV>::empty());
        }
    }
    Message::RepeatingKeyboardClick(crate::protocol::RepeatingKeyboardClick {
        buttons: seq_mut,
        amount,
        interval,
        delay_before_repeat,
        hold_duration,
    })
}

} // verus!
