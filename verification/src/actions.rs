//! The atomic steps of a compiled key sequence.

use vstd::prelude::*;

verus! {

/// One atomic macro step. The compiler produces these; the engine
/// consumes them in order. A key is carried as its stored identifier
/// (`KEY_` followed by the upper-cased table name).
#[derive(Debug, Clone, PartialEq)]
pub enum Actions {
    /// Press the key, hold it for the configured hold duration, release it.
    PressAndRelease(String),
    /// Press the key and leave it held.
    Press(String),
    /// Release the key.
    Release(String),
    /// Let the given number of milliseconds pass before the next step.
    Delay(i64),
}

/// The mathematical shape of one action.
pub enum ActionV {
    PressAndRelease(Seq<char>),
    Press(Seq<char>),
    Release(Seq<char>),
    Delay(int),
}

impl View for Actions {
    type V = ActionV;

    open spec fn view(&self) -> ActionV {
        match self {
            Actions::PressAndRelease(k) => ActionV::PressAndRelease(k@),
            Actions::Press(k) => ActionV::Press(k@),
            Actions::Release(k) => ActionV::Release(k@),
            Actions::Delay(n) => ActionV::Delay(*n as int),
        }
    }
}

/// A delay value an action may carry: anything `i64` holds.
pub open spec fn wf_action(a: ActionV) -> bool {
    match a {
        ActionV::Delay(n) => i64::MIN <= n <= i64::MAX,
        _ => true,
    }
}

} // verus!
