//! Hands events to the terminal or to the rest of the window.

use vstd::prelude::*;
use super::focus::InputFocus;

verus! {

/// Events, by who gets them.
#[derive(Clone, Debug, PartialEq, Eq)]
pub struct RoutedInput<E> {
    pub terminal_events: Vec<E>,
    pub ui_events: Vec<E>,
}

/// Hands all events to the part that has the input.
pub fn route_events<E>(focus: InputFocus, events: Vec<E>) -> (out: RoutedInput<E>)
    ensures
        focus == InputFocus::Terminal ==> out.terminal_events == events && out.ui_events@
            == Seq::<E>::empty(),
        focus != InputFocus::Terminal ==> out.ui_events == events && out.terminal_events@
            == Seq::<E>::empty(),
{
    if focus.terminal_owns_input() {
        return RoutedInput { terminal_events: events, ui_events: Vec::new() };
    }
    RoutedInput { terminal_events: Vec::new(), ui_events: events }
}

}
