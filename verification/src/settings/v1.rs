//! The first settings layout: one switch for the window controls.

use vstd::prelude::*;

verus! {

#[derive(Debug, Clone, PartialEq)]
pub struct Settings {
    pub disable_window_controls: bool,
}

impl Default for Settings {
    fn default() -> (r: Self)
        ensures
            !r.disable_window_controls,
    {
        Settings { disable_window_controls: false }
    }
}

} // verus!
