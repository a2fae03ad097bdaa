//! Which part of the window has the input.

use vstd::prelude::*;

verus! {

/// The part of the window that has the input.
#[derive(Clone, Copy, Debug, PartialEq, Eq, Structural)]
pub enum InputFocus {
    Terminal,
    Sidebar,
    Picker,
    Dialog,
}

impl Default for InputFocus {
    fn default() -> (out: Self)
        ensures
            out == InputFocus::Terminal,
    {
        InputFocus::Terminal
    }
}

impl InputFocus {
    /// Whether input goes to the terminal.
    pub fn terminal_owns_input(self) -> (out: bool)
        ensures
            out == (self == InputFocus::Terminal),
    {
        matches!(self, InputFocus::Terminal)
    }
}

}
