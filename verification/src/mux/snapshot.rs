//! What a multiplexer looks like at one moment.

use vstd::prelude::*;
use crate::text::same_text;

verus! {

/// The sessions of a multiplexer.
#[derive(Clone, Debug, PartialEq, Eq)]
pub struct MuxSnapshot {
    pub sessions: Vec<MuxSession>,
    pub active_session_id: Option<String>,
}

/// A session.
#[derive(Clone, Debug, PartialEq, Eq)]
pub struct MuxSession {
    pub id: String,
    pub name: String,
    pub active: bool,
    pub anchor: MuxPaneAnchor,
    pub active_window_id: Option<String>,
    pub windows: Vec<MuxWindow>,
}

/// A window of a session.
#[derive(Clone, Debug, PartialEq, Eq)]
pub struct MuxWindow {
    pub id: String,
    pub index: u32,
    pub name: String,
    pub active: bool,
    pub anchor: MuxPaneAnchor,
}

/// The pane that stands for a session or a window.
#[derive(Clone, Debug, PartialEq, Eq)]
pub struct MuxPaneAnchor {
    pub session_id: String,
    pub pane_id: Option<String>,
    pub cwd: Option<String>,
    pub process: Option<String>,
}

impl MuxSession {
    /// Whether a session goes by a name: its identifier or its name.
    pub open spec fn answers_to(self, name: Seq<char>) -> bool {
        self.id@ == name || self.name@ == name
    }

    /// Whether a session goes by a name.
    pub fn is_called(&self, name: &str) -> (out: bool)
        ensures
            out == self.answers_to(name@),
    {
        same_text(&self.id, name) || same_text(&self.name, name)
    }
}

/// Position of the first session that goes by a name, or the length where none does.
pub open spec fn session_at(sessions: Seq<MuxSession>, name: Seq<char>) -> int
    decreases sessions.len(),
{
    if sessions.len() == 0 {
        0
    } else if sessions[0].answers_to(name) {
        0
    } else {
        1 + session_at(sessions.drop_first(), name)
    }
}

pub proof fn session_at_is(sessions: Seq<MuxSession>, name: Seq<char>, i: int)
    requires
        0 <= i <= sessions.len(),
        i < sessions.len() ==> sessions[i].answers_to(name),
        forall|j: int| 0 <= j < i ==> !(#[trigger] sessions[j]).answers_to(name),
    ensures
        session_at(sessions, name) == i,
    decreases sessions.len(),
{
    if i > 0 {
        let rest = sessions.drop_first();
        assert(!sessions[0].answers_to(name));
        assert forall|j: int| 0 <= j < i - 1 implies !(#[trigger] rest[j]).answers_to(name) by {
            assert(rest[j] == sessions[j + 1]);
        }
        session_at_is(rest, name, i - 1);
    }
}

/// Position of the first session that goes by a name.
pub fn find_session(sessions: &[MuxSession], name: &str) -> (out: Option<usize>)
    ensures
        match out {
            Some(i) => i < sessions@.len() && i == session_at(sessions@, name@)
                && sessions@[i as int].answers_to(name@),
            None => session_at(sessions@, name@) == sessions@.len(),
        },
{
    let mut i: usize = 0;
    while i < sessions.len()
        invariant
            i <= sessions@.len(),
            forall|j: int| 0 <= j < i ==> !(#[trigger] sessions@[j]).answers_to(name@),
        decreases sessions@.len() - i,
    {
        if sessions[i].is_called(name) {
            proof {
                session_at_is(sessions@, name@, i as int);
            }
            return Some(i);
        }
        i = i + 1;
    }
    proof {
        session_at_is(sessions@, name@, i as int);
    }
    None
}

/// Position of the first window with an identifier, or the length where there is none.
pub open spec fn window_at(windows: Seq<MuxWindow>, id: Seq<char>) -> int
    decreases windows.len(),
{
    if windows.len() == 0 {
        0
    } else if windows[0].id@ == id {
        0
    } else {
        1 + window_at(windows.drop_first(), id)
    }
}

proof fn window_at_is(windows: Seq<MuxWindow>, id: Seq<char>, i: int)
    requires
        0 <= i <= windows.len(),
        i < windows.len() ==> windows[i].id@ == id,
        forall|j: int| 0 <= j < i ==> (#[trigger] windows[j]).id@ != id,
    ensures
        window_at(windows, id) == i,
    decreases windows.len(),
{
    if i > 0 {
        let rest = windows.drop_first();
        assert(windows[0].id@ != id);
        assert forall|j: int| 0 <= j < i - 1 implies (#[trigger] rest[j]).id@ != id by {
            assert(rest[j] == windows[j + 1]);
        }
        window_at_is(rest, id, i - 1);
    }
}

/// Position of the first window with an identifier.
pub fn find_window(windows: &[MuxWindow], id: &str) -> (out: Option<usize>)
    ensures
        match out {
            Some(i) => i < windows@.len() && i == window_at(windows@, id@),
            None => window_at(windows@, id@) == windows@.len(),
        },
{
    let mut i: usize = 0;
    while i < windows.len()
        invariant
            i <= windows@.len(),
            forall|j: int| 0 <= j < i ==> (#[trigger] windows@[j]).id@ != id@,
        decreases windows@.len() - i,
    {
        if same_text(&windows[i].id, id) {
            proof {
                window_at_is(windows@, id@, i as int);
            }
            return Some(i);
        }
        i = i + 1;
    }
    proof {
        window_at_is(windows@, id@, i as int);
    }
    None
}

/// A window is found at the first place that has its id.
pub proof fn windows_are_found_by_id(windows: Seq<MuxWindow>, id: Seq<char>)
    ensures
        0 <= window_at(windows, id) <= windows.len(),
        window_at(windows, id) < windows.len() ==> windows[window_at(windows, id)].id@ == id,
        forall|i: int| 0 <= i < window_at(windows, id) ==> (#[trigger] windows[i]).id@ != id,
    decreases windows.len(),
{
    if windows.len() > 0 && windows[0].id@ != id {
        let rest = windows.drop_first();
        windows_are_found_by_id(rest, id);
        assert forall|i: int| 0 <= i < window_at(windows, id) implies (#[trigger] windows[i]).id@
            != id by {
            if i > 0 {
                assert(windows[i] == rest[i - 1]);
            }
        }
    }
}

/// A session answers to its id and to its name, and to nothing else.
pub proof fn sessions_answer_to_their_names(session: MuxSession, name: Seq<char>)
    ensures
        session.answers_to(session.id@),
        session.answers_to(session.name@),
        name != session.id@ && name != session.name@ ==> !session.answers_to(name),
{
}

}
