//! The state of the modifier keys, as the window system reports it.

use vstd::prelude::*;

verus! {

/// The modifier keys that are down, one bit each.
pub type ModifierBits = u32;

/// The modifiers, and an echo that is to be ignored.
///
/// After the focus changed, the window system may report the modifiers once more that were down
/// before. Exactly that report is ignored.
#[derive(Debug)]
pub struct NativeInputState {
    pub modifiers: ModifierBits,
    pub stale_modifiers_after_focus: Option<ModifierBits>,
}

impl Default for NativeInputState {
    fn default() -> (out: Self)
        ensures
            out == (NativeInputState { modifiers: 0, stale_modifiers_after_focus: None }),
    {
        NativeInputState { modifiers: 0, stale_modifiers_after_focus: None }
    }
}

impl NativeInputState {
    /// Whether a report of the modifiers is the echo of those that were down before.
    pub open spec fn is_echo(self, next: ModifierBits) -> bool {
        self.stale_modifiers_after_focus == Some(next) && next != 0
    }

    /// The state after a report of the modifiers.
    pub open spec fn after_report(self, next: ModifierBits) -> NativeInputState {
        NativeInputState {
            modifiers: if self.is_echo(next) {
                self.modifiers
            } else {
                next
            },
            stale_modifiers_after_focus: None,
        }
    }

    /// The state after a change of the focus.
    pub open spec fn after_focus(self) -> NativeInputState {
        NativeInputState {
            modifiers: 0,
            stale_modifiers_after_focus: if self.modifiers != 0 {
                Some(self.modifiers)
            } else {
                self.stale_modifiers_after_focus
            },
        }
    }

    /// The state after a key.
    pub open spec fn after_key(self) -> NativeInputState {
        NativeInputState { stale_modifiers_after_focus: None, ..self }
    }

    /// Takes a report of the modifiers, and says whether it counts.
    pub fn handle_modifiers_changed(&mut self, next: ModifierBits) -> (out: bool)
        ensures
            out == !old(self).is_echo(next),
            *final(self) == old(self).after_report(next),
    {
        let echo = match self.stale_modifiers_after_focus {
            Some(stale) => stale == next && next != 0,
            None => false,
        };
        self.stale_modifiers_after_focus = None;
        if echo {
            return false;
        }
        self.modifiers = next;
        true
    }

    /// Takes a change of the focus: no modifier counts as down.
    pub fn handle_focus_changed(&mut self)
        ensures
            *final(self) == old(self).after_focus(),
    {
        if self.modifiers != 0 {
            self.stale_modifiers_after_focus = Some(self.modifiers);
        }
        self.modifiers = 0;
    }

    /// Takes a key: reports that follow are no echo. The modifiers that are down go with the key.
    pub fn handle_keyboard_input(&mut self) -> (out: ModifierBits)
        ensures
            out == old(self).modifiers,
            *final(self) == old(self).after_key(),
    {
        self.stale_modifiers_after_focus = None;
        self.modifiers
    }
}

/// Whether the shape of the pointer is to be set again.
#[derive(Debug)]
pub struct CursorState {
    pub needs_reapply: bool,
}

impl CursorState {
    /// Notes an event of the window.
    pub fn note(&mut self, pointer_moved: bool)
        ensures
            final(self).needs_reapply == (old(self).needs_reapply || pointer_moved),
    {
        if pointer_moved {
            self.needs_reapply = true;
        }
    }

    /// Whether the shape of the pointer is to be set again. It is asked once for each change.
    pub fn take(&mut self) -> (out: bool)
        ensures
            out == old(self).needs_reapply,
            !final(self).needs_reapply,
    {
        let out = self.needs_reapply;
        self.needs_reapply = false;
        out
    }
}

/// After a change of the focus no modifier counts as down. A report of just those that were down
/// before is ignored once: the same report counts when it comes again, or after a key.
pub proof fn only_the_echo_is_ignored(state: NativeInputState, next: ModifierBits)
    requires
        state.stale_modifiers_after_focus is None,
    ensures
        state.after_focus().modifiers == 0,
        state.after_focus().after_report(next).modifiers == (if next == state.modifiers {
            0
        } else {
            next
        }),
        state.after_focus().after_report(next).after_report(next).modifiers == next,
        state.after_focus().after_key().after_report(next).modifiers == next,
{
}

/// A window that gains the focus forgets which keys were held, and remembers them as the ones whose report
/// is out of date; without any held, it remembers what it did before. Any key or report ends that.
pub proof fn focus_forgets_the_keys(state: NativeInputState, next: ModifierBits)
    ensures
        state.after_focus().modifiers == 0,
        state.modifiers != 0 ==> state.after_focus().stale_modifiers_after_focus == Some(
            state.modifiers,
        ),
        state.modifiers == 0 ==> state.after_focus().stale_modifiers_after_focus
            == state.stale_modifiers_after_focus,
        state.after_key().modifiers == state.modifiers,
        state.after_key().stale_modifiers_after_focus is None,
        state.after_report(next).stale_modifiers_after_focus is None,
        state.after_report(0).modifiers == 0,
        state.stale_modifiers_after_focus != Some(next) ==> state.after_report(next).modifiers
            == next,
        next != 0 && state.stale_modifiers_after_focus == Some(next) ==> state.after_report(
            next,
        ).modifiers == state.modifiers,
{
}

}
