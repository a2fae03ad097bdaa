//! What the user interface knows of the multiplexer: its sessions, and what is selected.

use vstd::prelude::*;
use crate::mux::command::{MuxBackendKind, MuxCommand};
use crate::mux::snapshot::{
    find_session, find_window, session_at, session_at_is, window_at, windows_are_found_by_id,
    MuxPaneAnchor, MuxSession, MuxSnapshot, MuxWindow,
};
use crate::text::{same_text, text_opt};

verus! {

/// How long a list of sessions is good for, in milliseconds.
pub const MUX_SESSION_REFRESH_INTERVAL: u64 = 900;

/// How far back the first refresh is dated, in milliseconds.
pub const FIRST_REFRESH_AGE: u64 = 2000;

/// Whether two sessions are one and the same: they share their identifier or their name.
pub open spec fn same_session(a: MuxSession, b: MuxSession) -> bool {
    a.id@ == b.id@ || a.name@ == b.name@
}

/// Position of the first session that is the given one, or the length where none is.
pub open spec fn partner_at(sessions: Seq<MuxSession>, old_session: MuxSession) -> int
    decreases sessions.len(),
{
    if sessions.len() == 0 {
        0
    } else if same_session(sessions[0], old_session) {
        0
    } else {
        1 + partner_at(sessions.drop_first(), old_session)
    }
}

/// Sessions in the order in which they were listed before; new ones follow in their own order.
pub open spec fn stable_order(previous: Seq<MuxSession>, refreshed: Seq<MuxSession>) -> Seq<
    MuxSession,
>
    decreases previous.len(),
{
    if previous.len() == 0 {
        refreshed
    } else {
        let i = partner_at(refreshed, previous[0]);
        if i < refreshed.len() {
            seq![refreshed[i]] + stable_order(previous.drop_first(), refreshed.remove(i))
        } else {
            stable_order(previous.drop_first(), refreshed)
        }
    }
}

proof fn partner_at_is(sessions: Seq<MuxSession>, old_session: MuxSession, i: int)
    requires
        0 <= i <= sessions.len(),
        i < sessions.len() ==> same_session(sessions[i], old_session),
        forall|j: int| 0 <= j < i ==> !same_session(#[trigger] sessions[j], old_session),
    ensures
        partner_at(sessions, old_session) == i,
    decreases sessions.len(),
{
    if i > 0 {
        let rest = sessions.drop_first();
        assert(!same_session(sessions[0], old_session));
        assert forall|j: int| 0 <= j < i - 1 implies !same_session(
            #[trigger] rest[j],
            old_session,
        ) by {
            assert(rest[j] == sessions[j + 1]);
        }
        partner_at_is(rest, old_session, i - 1);
    }
}

proof fn partner_at_bounds(sessions: Seq<MuxSession>, old_session: MuxSession)
    ensures
        0 <= partner_at(sessions, old_session) <= sessions.len(),
        partner_at(sessions, old_session) < sessions.len() ==> same_session(
            sessions[partner_at(sessions, old_session)],
            old_session,
        ),
    decreases sessions.len(),
{
    if sessions.len() > 0 && !same_session(sessions[0], old_session) {
        partner_at_bounds(sessions.drop_first(), old_session);
    }
}

fn find_partner(sessions: &Vec<MuxSession>, old_session: &MuxSession) -> (out: Option<usize>)
    ensures
        match out {
            Some(i) => i < sessions@.len() && i == partner_at(sessions@, *old_session),
            None => partner_at(sessions@, *old_session) == sessions@.len(),
        },
{
    let mut i: usize = 0;
    while i < sessions.len()
        invariant
            i <= sessions@.len(),
            forall|j: int| 0 <= j < i ==> !same_session(#[trigger] sessions@[j], *old_session),
        decreases sessions@.len() - i,
    {
        if same_text(&sessions[i].id, &old_session.id) || same_text(
            &sessions[i].name,
            &old_session.name,
        ) {
            proof {
                partner_at_is(sessions@, *old_session, i as int);
            }
            return Some(i);
        }
        i = i + 1;
    }
    proof {
        partner_at_is(sessions@, *old_session, i as int);
    }
    None
}

/// Keeps sessions in the order in which they were listed before.
pub fn stable_session_order(previous: &[MuxSession], refreshed: Vec<MuxSession>) -> (out: Vec<
    MuxSession,
>)
    ensures
        out@ == stable_order(previous@, refreshed@),
{
    let ghost all = refreshed@;
    let mut left = refreshed;
    let mut ordered: Vec<MuxSession> = Vec::new();
    let mut i: usize = 0;
    assert(previous@.skip(0) =~= previous@);
    assert(ordered@ + stable_order(previous@, all) =~= stable_order(previous@, all));
    while i < previous.len()
        invariant
            i <= previous@.len(),
            stable_order(previous@, all) == ordered@ + stable_order(
                previous@.skip(i as int),
                left@,
            ),
        decreases previous@.len() - i,
    {
        let ghost placed = ordered@;
        let ghost before = left@;
        let found = find_partner(&left, &previous[i]);
        assert(previous@.skip(i as int).drop_first() =~= previous@.skip(i + 1));
        assert(previous@.skip(i as int)[0] == previous@[i as int]);
        match found {
            Some(at) => {
                let session = left.remove(at);
                ordered.push(session);
                proof {
                    let tail = stable_order(previous@.skip(i + 1), left@);
                    assert(left@ =~= before.remove(at as int));
                    assert(placed + (seq![session] + tail) =~= placed.push(session) + tail);
                }
            },
            None => {},
        }
        i = i + 1;
    }
    let ghost placed = ordered@;
    let ghost rest = left@;
    ordered.append(&mut left);
    assert(ordered@ =~= placed + rest);
    ordered
}

/// The window that is selected after a refresh: the one that was, where the selected session still
/// has it, and else the session's active one.
pub open spec fn window_after(
    selected: Option<Seq<char>>,
    current: Option<Seq<char>>,
    sessions: Seq<MuxSession>,
) -> Option<Seq<char>> {
    match selected {
        None => None,
        Some(name) => {
            let i = session_at(sessions, name);
            if i >= sessions.len() {
                None
            } else if current is Some && window_at(sessions[i].windows@, current.unwrap())
                < sessions[i].windows@.len() {
                current
            } else {
                text_opt(sessions[i].active_window_id)
            }
        },
    }
}

/// The window that is selected after a refresh.
pub fn selected_window_after_refresh(
    selected_session: Option<&str>,
    current: Option<String>,
    sessions: &[MuxSession],
) -> (out: Option<String>)
    ensures
        text_opt(out) == window_after(
            match selected_session {
                Some(name) => Some(name@),
                None => None,
            },
            text_opt(current),
            sessions@,
        ),
{
    match selected_session {
        None => None,
        Some(name) => match find_session(sessions, name) {
            None => None,
            Some(i) => {
                let session = &sessions[i];
                match current {
                    Some(window) => {
                        if find_window(session.windows.as_slice(), &window).is_some() {
                            Some(window)
                        } else {
                            session.active_window_id.clone()
                        }
                    },
                    None => session.active_window_id.clone(),
                }
            },
        },
    }
}

/// What came from the worker that looks at the multiplexer.
#[derive(Debug)]
pub enum RefreshReply {
    /// Nothing so far.
    Nothing,
    /// The worker is gone.
    Stopped,
    Done(Result<(MuxBackendKind, MuxSnapshot), String>),
}

/// What came from the worker that runs a command.
#[derive(Debug)]
pub enum CommandReply {
    /// Nothing so far.
    Nothing,
    /// The worker is gone.
    Stopped,
    /// The session to select, or what went wrong.
    Done(Result<Option<String>, String>),
}

/// What is to be done about the list of sessions.
#[derive(Debug)]
pub enum RefreshStep {
    /// Nothing: the list is fresh, or a worker is on its way.
    Wait,
    /// Start a worker that looks at the multiplexer.
    Start,
    /// Choose a session of the snapshot, by preference the given one, and apply the snapshot.
    Choose {
        backend: MuxBackendKind,
        snapshot: MuxSnapshot,
        session: Option<String>,
        window: Option<String>,
    },
    /// The worker failed.
    Failed(String),
}

/// A session to be made.
#[derive(Debug)]
pub struct NewMuxSessionRequest {
    pub session_id: String,
    pub cwd: String,
}

/// A command, and what is to be selected once it ran.
#[derive(Debug)]
pub struct CommandRequest {
    pub command: MuxCommand,
    pub session: Option<String>,
    pub window: Option<String>,
    /// Whether the session is selected as soon as a worker runs the command.
    pub selects: bool,
}

/// The sessions of a multiplexer, and what is selected. Times are milliseconds.
#[derive(Debug)]
pub struct MuxController {
    pub sessions: Vec<MuxSession>,
    pub selected_session: Option<String>,
    pub selected_window: Option<String>,
    pub current_backend: Option<MuxBackendKind>,
    pub last_session_refresh: Option<u64>,
    /// Whether a worker looks at the multiplexer.
    pub refreshing: bool,
    /// Whether a worker runs a command.
    pub commanding: bool,
}

impl Default for MuxController {
    fn default() -> (out: Self)
        ensures
            out.sessions@ == Seq::<MuxSession>::empty(),
            out.selected_session is None,
            out.selected_window is None,
            out.current_backend is None,
            out.last_session_refresh is None,
            !out.refreshing,
            !out.commanding,
    {
        MuxController {
            sessions: Vec::new(),
            selected_session: None,
            selected_window: None,
            current_backend: None,
            last_session_refresh: None,
            refreshing: false,
            commanding: false,
        }
    }
}

/// A time that lies back by an age, or the beginning of time.
pub open spec fn back_by(now: u64, age: u64) -> u64 {
    if now >= age {
        (now - age) as u64
    } else {
        0
    }
}

fn time_back(now: u64, age: u64) -> (out: u64)
    ensures
        out == back_by(now, age),
{
    if now >= age {
        now - age
    } else {
        0
    }
}

impl MuxController {
    /// The session that is selected, where it is listed.
    pub open spec fn chosen(&self) -> Option<MuxSession> {
        match self.selected_session {
            None => None,
            Some(name) => {
                let i = session_at(self.sessions@, name@);
                if i < self.sessions@.len() {
                    Some(self.sessions@[i])
                } else {
                    None
                }
            },
        }
    }

    /// The pane that stands for what is selected: that of the selected window, where the session has
    /// it, and else that of the session.
    pub open spec fn chosen_anchor(&self) -> Option<MuxPaneAnchor> {
        match self.chosen() {
            None => None,
            Some(session) => match self.selected_window {
                Some(id) if window_at(session.windows@, id@) < session.windows@.len() => Some(
                    session.windows@[window_at(session.windows@, id@)].anchor,
                ),
                _ => Some(session.anchor),
            },
        }
    }

    /// Whether a new list of sessions is due: none is on its way, and the last one is not fresh.
    pub open spec fn refresh_is_due(&self, now: u64) -> bool {
        &&& !self.refreshing
        &&& match self.last_session_refresh {
            Some(last) => now >= last && now - last >= MUX_SESSION_REFRESH_INTERVAL,
            None => true,
        }
    }

    /// A controller that has not seen the multiplexer yet.
    pub fn new(now: u64) -> (out: Self)
        ensures
            out.sessions@ == Seq::<MuxSession>::empty(),
            out.selected_session is None,
            out.selected_window is None,
            out.current_backend is None,
            out.last_session_refresh == Some(back_by(now, FIRST_REFRESH_AGE)),
            !out.refreshing,
            !out.commanding,
    {
        let mut out = MuxController::default();
        out.last_session_refresh = Some(time_back(now, FIRST_REFRESH_AGE));
        out
    }

    /// The sessions, in the order in which they are shown.
    pub fn sessions(&self) -> (out: &[MuxSession])
        ensures
            out@ == self.sessions@,
    {
        self.sessions.as_slice()
    }

    /// The selected session.
    pub fn selected_session(&self) -> (out: Option<&str>)
        ensures
            match out {
                Some(name) => text_opt(self.selected_session) == Some(name@),
                None => self.selected_session is None,
            },
    {
        match &self.selected_session {
            Some(name) => Some(name.as_str()),
            None => None,
        }
    }

    /// The selected window.
    pub fn selected_window(&self) -> (out: Option<&str>)
        ensures
            match out {
                Some(name) => text_opt(self.selected_window) == Some(name@),
                None => self.selected_window is None,
            },
    {
        match &self.selected_window {
            Some(name) => Some(name.as_str()),
            None => None,
        }
    }

    /// The pane that stands for what is selected.
    pub fn selected_session_anchor(&self) -> (out: Option<&MuxPaneAnchor>)
        ensures
            match out {
                Some(anchor) => self.chosen_anchor() == Some(*anchor),
                None => self.chosen_anchor() is None,
            },
    {
        match &self.selected_session {
            None => None,
            Some(name) => match find_session(self.sessions.as_slice(), name) {
                None => None,
                Some(i) => {
                    let session = &self.sessions[i];
                    match &self.selected_window {
                        Some(id) => match find_window(session.windows.as_slice(), id) {
                            Some(k) => Some(&session.windows[k].anchor),
                            None => Some(&session.anchor),
                        },
                        None => Some(&session.anchor),
                    }
                },
            },
        }
    }

    /// The windows of the selected session; none where no listed session is selected.
    pub fn selected_session_windows(&self) -> (out: &[MuxWindow])
        ensures
            match self.chosen() {
                Some(session) => out@ == session.windows@,
                None => out@ == Seq::<MuxWindow>::empty(),
            },
    {
        match &self.selected_session {
            None => &[],
            Some(name) => match find_session(self.sessions.as_slice(), name) {
                None => &[],
                Some(i) => self.sessions[i].windows.as_slice(),
            },
        }
    }

    /// The snapshot with its sessions in the order in which they are shown. The order is kept only
    /// while the multiplexer stays the same.
    pub fn arrange(&self, backend: MuxBackendKind, snapshot: MuxSnapshot) -> (out: MuxSnapshot)
        ensures
            out.active_session_id == snapshot.active_session_id,
            self.current_backend == Some(backend) ==> out.sessions@ == stable_order(
                self.sessions@,
                snapshot.sessions@,
            ),
            self.current_backend != Some(backend) ==> out == snapshot,
    {
        let same = match self.current_backend {
            Some(kind) => kind == backend,
            None => false,
        };
        if same {
            let MuxSnapshot { sessions, active_session_id } = snapshot;
            MuxSnapshot {
                sessions: stable_session_order(self.sessions.as_slice(), sessions),
                active_session_id,
            }
        } else {
            snapshot
        }
    }

    /// Takes over an arranged snapshot, with the session that was chosen from it and the window that
    /// was selected before.
    pub fn apply_snapshot(
        &mut self,
        backend: MuxBackendKind,
        snapshot: MuxSnapshot,
        selected: Option<String>,
        preferred_window: Option<String>,
    )
        ensures
            *final(self) == (MuxController {
                sessions: snapshot.sessions,
                selected_session: selected,
                selected_window: final(self).selected_window,
                current_backend: Some(backend),
                ..*old(self)
            }),
            text_opt(final(self).selected_window) == window_after(
                text_opt(selected),
                text_opt(preferred_window),
                snapshot.sessions@,
            ),
    {
        self.selected_window =
        match &selected {
            Some(name) => selected_window_after_refresh(
                Some(name.as_str()),
                preferred_window,
                snapshot.sessions.as_slice(),
            ),
            None => None,
        };
        self.selected_session = selected;
        self.current_backend = Some(backend);
        self.sessions = snapshot.sessions;
    }

    /// What the worker that looks at the multiplexer has brought. What it brought is taken once.
    pub fn poll_session_refresh(&mut self, reply: RefreshReply) -> (out: Option<
        Result<(MuxBackendKind, MuxSnapshot), String>,
    >)
        ensures
            match reply {
                RefreshReply::Done(result) if old(self).refreshing => out == Some(result),
                RefreshReply::Stopped if old(self).refreshing => out matches Some(Err(error))
                    && error@ == "mux session refresh worker stopped"@,
                _ => out is None,
            },
            *final(self) == (MuxController {
                refreshing: old(self).refreshing && out is None,
                ..*old(self)
            }),
    {
        if !self.refreshing {
            return None;
        }
        match reply {
            RefreshReply::Nothing => None,
            RefreshReply::Stopped => {
                self.refreshing = false;
                Some(Err("mux session refresh worker stopped".to_owned()))
            },
            RefreshReply::Done(result) => {
                self.refreshing = false;
                Some(result)
            },
        }
    }

    /// Says whether a worker is to look at the multiplexer, and notes that it does.
    pub fn start_refresh(&mut self, now: u64) -> (out: bool)
        ensures
            out == old(self).refresh_is_due(now),
            *final(self) == (if out {
                MuxController { last_session_refresh: Some(now), refreshing: true, ..*old(self) }
            } else {
                *old(self)
            }),
    {
        let fresh = match self.last_session_refresh {
            Some(last) => now < last || now - last < MUX_SESSION_REFRESH_INTERVAL,
            None => false,
        };
        if fresh || self.refreshing {
            return false;
        }
        self.last_session_refresh = Some(now);
        self.refreshing = true;
        true
    }

    /// Keeps the list of sessions up to date. The selection counts as a preference only while the
    /// multiplexer stays the same.
    pub fn refresh_sessions(&mut self, reply: RefreshReply, now: u64) -> (out: RefreshStep)
        ensures
            match reply {
                RefreshReply::Stopped if old(self).refreshing => {
                    &&& out matches RefreshStep::Failed(error)
                        && error@ == "mux session refresh worker stopped"@
                    &&& *final(self) == (MuxController { refreshing: false, ..*old(self) })
                },
                RefreshReply::Done(Err(error)) if old(self).refreshing => {
                    &&& out == RefreshStep::Failed(error)
                    &&& *final(self) == (MuxController { refreshing: false, ..*old(self) })
                },
                RefreshReply::Done(Ok((kind, seen))) if old(self).refreshing => {
                    let same = old(self).current_backend == Some(kind);
                    &&& out matches RefreshStep::Choose { backend, snapshot, session, window } && {
                        &&& backend == kind
                        &&& snapshot.active_session_id == seen.active_session_id
                        &&& snapshot.sessions@ == (if same {
                            stable_order(old(self).sessions@, seen.sessions@)
                        } else {
                            seen.sessions@
                        })
                        &&& session == (if same {
                            old(self).selected_session
                        } else {
                            None
                        })
                        &&& window == (if same {
                            old(self).selected_window
                        } else {
                            None
                        })
                    }
                    &&& *final(self) == (if same {
                        MuxController {
                            refreshing: false,
                            selected_session: None,
                            selected_window: None,
                            ..*old(self)
                        }
                    } else {
                        MuxController { refreshing: false, ..*old(self) }
                    })
                },
                _ => {
                    &&& out == (if old(self).refresh_is_due(now) {
                        RefreshStep::Start
                    } else {
                        RefreshStep::Wait
                    })
                    &&& *final(self) == (if old(self).refresh_is_due(now) {
                        MuxController {
                            last_session_refresh: Some(now),
                            refreshing: true,
                            ..*old(self)
                        }
                    } else {
                        *old(self)
                    })
                },
            },
    {
        match self.poll_session_refresh(reply) {
            Some(Ok((backend, snapshot))) => {
                let snapshot = self.arrange(backend, snapshot);
                let same = match self.current_backend {
                    Some(kind) => kind == backend,
                    None => false,
                };
                if same {
                    let session = self.selected_session.take();
                    let window = self.selected_window.take();
                    RefreshStep::Choose { backend, snapshot, session, window }
                } else {
                    RefreshStep::Choose { backend, snapshot, session: None, window: None }
                }
            },
            Some(Err(error)) => RefreshStep::Failed(error),
            None => {
                if self.start_refresh(now) {
                    RefreshStep::Start
                } else {
                    RefreshStep::Wait
                }
            },
        }
    }

    /// What the worker that runs a command has brought. A command that went through selects its
    /// session and makes the list of sessions stale.
    pub fn poll_command(&mut self, reply: CommandReply, now: u64) -> (out: Option<
        Result<(), String>,
    >)
        ensures
            match reply {
                CommandReply::Done(Ok(session)) if old(self).commanding => {
                    &&& out matches Some(Ok(_))
                    &&& *final(self) == (MuxController {
                        selected_session: if session is Some {
                            session
                        } else {
                            old(self).selected_session
                        },
                        last_session_refresh: Some(back_by(now, MUX_SESSION_REFRESH_INTERVAL)),
                        commanding: false,
                        ..*old(self)
                    })
                },
                CommandReply::Done(Err(error)) if old(self).commanding => {
                    &&& out matches Some(Err(e)) && e == error
                    &&& *final(self) == (MuxController { commanding: false, ..*old(self) })
                },
                CommandReply::Stopped if old(self).commanding => {
                    &&& out matches Some(Err(e)) && e@ == "mux command worker stopped"@
                    &&& *final(self) == (MuxController { commanding: false, ..*old(self) })
                },
                _ => out is None && *final(self) == *old(self),
            },
    {
        if !self.commanding {
            return None;
        }
        match reply {
            CommandReply::Nothing => None,
            CommandReply::Stopped => {
                self.commanding = false;
                Some(Err("mux command worker stopped".to_owned()))
            },
            CommandReply::Done(Err(error)) => {
                self.commanding = false;
                Some(Err(error))
            },
            CommandReply::Done(Ok(session)) => {
                self.commanding = false;
                if session.is_some() {
                    self.selected_session = session;
                }
                self.last_session_refresh = Some(time_back(now, MUX_SESSION_REFRESH_INTERVAL));
                Some(Ok(()))
            },
        }
    }

    /// Selects a session, and asks the multiplexer to activate it.
    pub fn activate_session(&mut self, session_id: &str) -> (out: CommandRequest)
        ensures
            out.command matches MuxCommand::ActivateSession { session_id: id } && id@
                == session_id@,
            text_opt(out.session) == Some(session_id@),
            out.window is None,
            !out.selects,
            text_opt(final(self).selected_session) == Some(session_id@),
            *final(self) == (MuxController {
                selected_session: final(self).selected_session,
                selected_window: None,
                ..*old(self)
            }),
    {
        self.selected_session = Some(session_id.to_owned());
        self.selected_window = None;
        CommandRequest {
            command: MuxCommand::ActivateSession { session_id: session_id.to_owned() },
            session: Some(session_id.to_owned()),
            window: None,
            selects: false,
        }
    }

    /// Selects a window, and asks the multiplexer to activate it.
    pub fn activate_window(&mut self, session_id: &str, window_id: &str) -> (out: CommandRequest)
        ensures
            out.command matches MuxCommand::ActivateWindow { session_id: id, window_id: w } && id@
                == session_id@ && w@ == window_id@,
            text_opt(out.session) == Some(session_id@),
            text_opt(out.window) == Some(window_id@),
            !out.selects,
            text_opt(final(self).selected_session) == Some(session_id@),
            text_opt(final(self).selected_window) == Some(window_id@),
            *final(self) == (MuxController {
                selected_session: final(self).selected_session,
                selected_window: final(self).selected_window,
                ..*old(self)
            }),
    {
        self.selected_session = Some(session_id.to_owned());
        self.selected_window = Some(window_id.to_owned());
        CommandRequest {
            command: MuxCommand::ActivateWindow {
                session_id: session_id.to_owned(),
                window_id: window_id.to_owned(),
            },
            session: Some(session_id.to_owned()),
            window: Some(window_id.to_owned()),
            selects: false,
        }
    }

    /// Asks the multiplexer for a session in a directory. The session is selected when a worker
    /// takes the command, or by the snapshot that follows it.
    pub fn create_project_session(&self, request: NewMuxSessionRequest) -> (out: CommandRequest)
        ensures
            out.command == (MuxCommand::CreateProjectSession {
                session_id: request.session_id,
                cwd: request.cwd,
            }),
            out.session == Some(request.session_id),
            out.window is None,
            out.selects,
    {
        let NewMuxSessionRequest { session_id, cwd } = request;
        CommandRequest {
            command: MuxCommand::CreateProjectSession { session_id: session_id.clone(), cwd },
            session: Some(session_id),
            window: None,
            selects: true,
        }
    }

    /// Asks the multiplexer to do something that selects nothing.
    pub fn execute_command(&self, command: MuxCommand) -> (out: CommandRequest)
        ensures
            out == (CommandRequest { command, session: None, window: None, selects: false }),
    {
        CommandRequest { command, session: None, window: None, selects: false }
    }

    /// Whether a multiplexer runs its commands at once, without a worker.
    pub fn runs_at_once(backend: MuxBackendKind) -> (out: bool)
        ensures
            out == (backend == MuxBackendKind::Native),
    {
        backend == MuxBackendKind::Native
    }

    /// Takes over what the multiplexer looks like after a command that ran at once.
    pub fn command_ran(
        &mut self,
        snapshot: MuxSnapshot,
        selected: Option<String>,
        window: Option<String>,
        now: u64,
    )
        ensures
            *final(self) == (MuxController {
                sessions: snapshot.sessions,
                selected_session: selected,
                selected_window: final(self).selected_window,
                current_backend: Some(MuxBackendKind::Native),
                last_session_refresh: Some(back_by(now, MUX_SESSION_REFRESH_INTERVAL)),
                ..*old(self)
            }),
            text_opt(final(self).selected_window) == window_after(
                text_opt(selected),
                text_opt(window),
                snapshot.sessions@,
            ),
    {
        self.apply_snapshot(MuxBackendKind::Native, snapshot, selected, window);
        self.last_session_refresh = Some(time_back(now, MUX_SESSION_REFRESH_INTERVAL));
    }

    /// Hands a command to a worker, where none is at work. A command that comes while another runs is
    /// dropped.
    pub fn start_command(&mut self, request: CommandRequest) -> (out: Option<
        (MuxCommand, Option<String>),
    >)
        ensures
            old(self).commanding ==> out is None && *final(self) == *old(self),
            !old(self).commanding ==> {
                &&& out == Some((request.command, request.session))
                &&& *final(self) == (if request.selects {
                    MuxController {
                        selected_session: request.session,
                        selected_window: None,
                        commanding: true,
                        ..*old(self)
                    }
                } else {
                    MuxController { commanding: true, ..*old(self) }
                })
            },
    {
        if self.commanding {
            return None;
        }
        let CommandRequest { command, session, window: _, selects } = request;
        if selects {
            self.selected_session = session.clone();
            self.selected_window = None;
        }
        self.commanding = true;
        Some((command, session))
    }
}

/// Arranging sessions only changes their order.
pub proof fn order_loses_nothing(previous: Seq<MuxSession>, refreshed: Seq<MuxSession>)
    ensures
        stable_order(previous, refreshed).to_multiset() == refreshed.to_multiset(),
    decreases previous.len(),
{
    broadcast use vstd::multiset::group_multiset_axioms;

    if previous.len() > 0 {
        let i = partner_at(refreshed, previous[0]);
        partner_at_bounds(refreshed, previous[0]);
        if i < refreshed.len() {
            let rest = refreshed.remove(i);
            order_loses_nothing(previous.drop_first(), rest);
            let tail = stable_order(previous.drop_first(), rest);
            let out = stable_order(previous, refreshed);
            vstd::seq_lib::to_multiset_remove(refreshed, i);
            vstd::seq_lib::to_multiset_remove(out, 0);
            vstd::seq_lib::to_multiset_contains(refreshed, refreshed[i]);
            vstd::seq_lib::to_multiset_contains(out, out[0]);
            assert(out.remove(0) =~= tail);
            assert(out[0] == refreshed[i]);
            assert(out.contains(out[0]) && refreshed.contains(refreshed[i]));
            assert forall|x: MuxSession|
                #[trigger] out.to_multiset().count(x) == refreshed.to_multiset().count(x) by {
                let one = refreshed[i];
                assert(out.to_multiset().remove(one).count(x) == refreshed.to_multiset().remove(
                    one,
                ).count(x));
            }
            assert(out.to_multiset() =~= refreshed.to_multiset());
        } else {
            order_loses_nothing(previous.drop_first(), refreshed);
        }
    }
}

/// Sessions that are told apart by identifier and by name are shown in the order in which they were
/// shown before, whatever the order in which the multiplexer lists them now.
pub proof fn order_is_stable(previous: Seq<MuxSession>, refreshed: Seq<MuxSession>)
    requires
        previous.to_multiset() == refreshed.to_multiset(),
        forall|i: int, j: int|
            0 <= i < j < previous.len() ==> !same_session(
                #[trigger] previous[i],
                #[trigger] previous[j],
            ),
    ensures
        stable_order(previous, refreshed) == previous,
    decreases previous.len(),
{
    broadcast use vstd::multiset::group_multiset_axioms;

    if previous.len() == 0 {
        vstd::seq_lib::to_multiset_len(previous);
        vstd::seq_lib::to_multiset_len(refreshed);
        assert(refreshed =~= previous);
    } else {
        let first = previous[0];
        vstd::seq_lib::to_multiset_contains(previous, first);
        vstd::seq_lib::to_multiset_contains(refreshed, first);
        let k = choose|k: int| 0 <= k < refreshed.len() && refreshed[k] == first;
        let i = partner_at(refreshed, first);
        partner_at_bounds(refreshed, first);
        if i >= refreshed.len() {
            partner_is_first(refreshed, first, k);
        }
        let found = refreshed[i];
        vstd::seq_lib::to_multiset_contains(refreshed, found);
        vstd::seq_lib::to_multiset_contains(previous, found);
        let m = choose|m: int| 0 <= m < previous.len() && previous[m] == found;
        if m > 0 {
            assert(!same_session(previous[0], previous[m]));
        }
        assert(found == first);
        let before = previous.drop_first();
        let rest = refreshed.remove(i);
        vstd::seq_lib::to_multiset_remove(refreshed, i);
        vstd::seq_lib::to_multiset_remove(previous, 0);
        assert(previous.remove(0) =~= before);
        assert forall|a: int, b: int| 0 <= a < b < before.len() implies !same_session(
            #[trigger] before[a],
            #[trigger] before[b],
        ) by {
            assert(!same_session(previous[a + 1], previous[b + 1]));
        }
        order_is_stable(before, rest);
        assert(seq![first] + before =~= previous);
    }
}

proof fn partner_is_first(sessions: Seq<MuxSession>, old_session: MuxSession, k: int)
    requires
        0 <= k < sessions.len(),
        same_session(sessions[k], old_session),
    ensures
        partner_at(sessions, old_session) <= k,
    decreases sessions.len(),
{
    if k > 0 && !same_session(sessions[0], old_session) {
        assert(sessions.drop_first()[k - 1] == sessions[k]);
        partner_is_first(sessions.drop_first(), old_session, k - 1);
    }
}

/// After a refresh the window that was shown stays where its session still has it; otherwise it is the
/// session's active one. Without a session there is none.
pub proof fn shown_window_stays(
    sessions: Seq<MuxSession>,
    name: Seq<char>,
    current: Option<Seq<char>>,
    i: int,
)
    ensures
        window_after(None, current, sessions) is None,
        (forall|j: int| 0 <= j < sessions.len() ==> !(#[trigger] sessions[j]).answers_to(name))
            ==> window_after(Some(name), current, sessions) is None,
        0 <= i < sessions.len() && sessions[i].answers_to(name) && (forall|j: int|
            0 <= j < i ==> !(#[trigger] sessions[j]).answers_to(name)) ==> {
            let windows = sessions[i].windows@;
            let there = current is Some && exists|k: int|
                0 <= k < windows.len() && (#[trigger] windows[k]).id@ == current->Some_0;
            let active = match sessions[i].active_window_id {
                Some(id) => Some(id@),
                None => None,
            };
            window_after(Some(name), current, sessions) == if there {
                current
            } else {
                active
            }
        },
{
    if forall|j: int| 0 <= j < sessions.len() ==> !(#[trigger] sessions[j]).answers_to(name) {
        session_at_is(sessions, name, sessions.len() as int);
    }
    if 0 <= i < sessions.len() && sessions[i].answers_to(name) && (forall|j: int|
        0 <= j < i ==> !(#[trigger] sessions[j]).answers_to(name)) {
        session_at_is(sessions, name, i);
        let windows = sessions[i].windows@;
        if current is Some {
            let id = current->Some_0;
            windows_are_found_by_id(windows, id);
            if exists|k: int| 0 <= k < windows.len() && (#[trigger] windows[k]).id@ == id {
                let k = choose|k: int| 0 <= k < windows.len() && (#[trigger] windows[k]).id@ == id;
                if window_at(windows, id) >= windows.len() {
                    assert(windows[k].id@ != id);
                }
            } else if window_at(windows, id) < windows.len() {
                assert(windows[window_at(windows, id)].id@ == id);
            }
        }
    }
}

/// A time before another by an age is that much earlier, and never before the beginning.
pub proof fn ages_go_back(now: u64, age: u64)
    ensures
        now >= age ==> back_by(now, age) + age == now,
        now < age ==> back_by(now, age) == 0,
{
}

/// The sessions are asked for again where that is not under way already and they were last asked for at
/// least 900 milliseconds ago, or never.
pub proof fn refresh_comes_in_time(controller: MuxController, now: u64)
    ensures
        controller.refreshing ==> !controller.refresh_is_due(now),
        !controller.refreshing && controller.last_session_refresh is None
            ==> controller.refresh_is_due(now),
        !controller.refreshing ==> (controller.last_session_refresh matches Some(last) ==> (
        controller.refresh_is_due(now) <==> now >= last + 900)),
{
}

/// The session that is shown is the first that goes by the selected name; its anchor is that of the
/// selected window where it has that window, and its own otherwise.
pub proof fn selected_session_is_shown(controller: MuxController, i: int, k: int)
    ensures
        controller.selected_session is None ==> controller.chosen() is None
            && controller.chosen_anchor() is None,
        controller.selected_session matches Some(name) ==> {
            let sessions = controller.sessions@;
            &&& 0 <= i < sessions.len() && sessions[i].answers_to(name@) && (forall|j: int|
                0 <= j < i ==> !(#[trigger] sessions[j]).answers_to(name@)) ==> {
                let windows = sessions[i].windows@;
                &&& controller.chosen() == Some(sessions[i])
                &&& controller.selected_window is None ==> controller.chosen_anchor() == Some(
                    sessions[i].anchor,
                )
                &&& controller.selected_window matches Some(id) ==> {
                    &&& 0 <= k < windows.len() && windows[k].id@ == id@ && (forall|j: int|
                        0 <= j < k ==> (#[trigger] windows[j]).id@ != id@)
                        ==> controller.chosen_anchor() == Some(windows[k].anchor)
                    &&& (forall|j: int| 0 <= j < windows.len() ==> (#[trigger] windows[j]).id@ != id@)
                        ==> controller.chosen_anchor() == Some(sessions[i].anchor)
                }
            }
            &&& (forall|j: int|
                0 <= j < sessions.len() ==> !(#[trigger] sessions[j]).answers_to(name@))
                ==> controller.chosen() is None && controller.chosen_anchor() is None
        },
{
    if controller.selected_session is Some {
        let sessions = controller.sessions@;
        let name = controller.selected_session->Some_0@;
        if forall|j: int| 0 <= j < sessions.len() ==> !(#[trigger] sessions[j]).answers_to(name) {
            session_at_is(sessions, name, sessions.len() as int);
        }
        if 0 <= i < sessions.len() && sessions[i].answers_to(name) && (forall|j: int|
            0 <= j < i ==> !(#[trigger] sessions[j]).answers_to(name)) {
            session_at_is(sessions, name, i);
            if controller.selected_window is Some {
                let windows = sessions[i].windows@;
                let id = controller.selected_window->Some_0@;
                windows_are_found_by_id(windows, id);
                let at = window_at(windows, id);
                if 0 <= k < windows.len() && windows[k].id@ == id && (forall|j: int|
                    0 <= j < k ==> (#[trigger] windows[j]).id@ != id) {
                    if at > k {
                        assert(windows[k].id@ != id);
                    } else if at < k {
                        assert(windows[at].id@ != id);
                    }
                }
            }
        }
    }
}

/// Two lists tell of the same session where its id or its name is the same.
pub proof fn sessions_are_known_again(a: MuxSession, b: MuxSession)
    ensures
        a.id@ == b.id@ ==> same_session(a, b),
        a.name@ == b.name@ ==> same_session(a, b),
        a.id@ != b.id@ && a.name@ != b.name@ ==> !same_session(a, b),
{
}

}
