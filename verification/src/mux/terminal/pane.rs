//! Which pane a terminal shows, and how it is attached to.

use vstd::prelude::*;
use crate::mux::command::MuxBackendKind;
use crate::mux::snapshot::MuxPaneAnchor;
use crate::text::{chars_of, join, number, parse_number, same_text, text_of, text_opt, texts};

verus! {

/// What a terminal is attached to: a pane, or the pane that is current in a session.
#[derive(Debug)]
pub enum MuxPaneTarget {
    Session { session_id: String, cwd: Option<String> },
    Pane { session_id: String, pane_id: String, cwd: Option<String> },
}

impl MuxPaneTarget {
    /// The session.
    pub open spec fn session(self) -> Seq<char> {
        match self {
            MuxPaneTarget::Session { session_id, cwd } => session_id@,
            MuxPaneTarget::Pane { session_id, pane_id, cwd } => session_id@,
        }
    }

    /// What input is addressed to: the pane, or else the session.
    pub open spec fn selector(self) -> Seq<char> {
        match self {
            MuxPaneTarget::Session { session_id, cwd } => session_id@,
            MuxPaneTarget::Pane { session_id, pane_id, cwd } => pane_id@,
        }
    }

    /// The directory.
    pub open spec fn directory(self) -> Option<Seq<char>> {
        match self {
            MuxPaneTarget::Session { session_id, cwd } => text_opt(cwd),
            MuxPaneTarget::Pane { session_id, pane_id, cwd } => text_opt(cwd),
        }
    }

    /// Whether two targets are attached to the same: the directory does not count.
    pub open spec fn same_place(self, other: Self) -> bool {
        self.session() == other.session() && self.selector() == other.selector()
    }

    /// The session.
    pub fn session_id(&self) -> (out: &str)
        ensures
            out@ == self.session(),
    {
        match self {
            MuxPaneTarget::Session { session_id, .. } => session_id.as_str(),
            MuxPaneTarget::Pane { session_id, .. } => session_id.as_str(),
        }
    }

    /// What input is addressed to.
    pub fn input_selector(&self) -> (out: &str)
        ensures
            out@ == self.selector(),
    {
        match self {
            MuxPaneTarget::Pane { pane_id, .. } => pane_id.as_str(),
            MuxPaneTarget::Session { session_id, .. } => session_id.as_str(),
        }
    }

    /// The directory.
    pub fn cwd(&self) -> (out: Option<&str>)
        ensures
            match out {
                Some(s) => self.directory() == Some(s@),
                None => self.directory() is None,
            },
    {
        match self {
            MuxPaneTarget::Session { cwd, .. } => match cwd {
                Some(s) => Some(s.as_str()),
                None => None,
            },
            MuxPaneTarget::Pane { cwd, .. } => match cwd {
                Some(s) => Some(s.as_str()),
                None => None,
            },
        }
    }

    /// The number in a pane's identifier `%N`.
    pub fn tmux_pane_number(&self) -> (out: Option<usize>)
        ensures
            match *self {
                MuxPaneTarget::Pane { session_id, pane_id, cwd } => {
                    let id = pane_id@;
                    if id.len() > 0 && id[0] == '%' {
                        match number(id.drop_first(), usize::MAX as nat) {
                            Some(n) => out == Some(n as usize),
                            None => out is None,
                        }
                    } else {
                        out is None
                    }
                },
                MuxPaneTarget::Session { session_id, cwd } => out is None,
            },
    {
        match self {
            MuxPaneTarget::Session { .. } => None,
            MuxPaneTarget::Pane { pane_id, .. } => {
                let chars = chars_of(pane_id);
                if chars.len() == 0 || chars[0] != '%' {
                    return None;
                }
                let rest = text_of(&chars, 1, chars.len());
                assert(rest@ =~= pane_id@.drop_first());
                match parse_number(&rest, usize::MAX as u64) {
                    Some(n) => Some(n as usize),
                    None => None,
                }
            },
        }
    }

    /// The target of an anchor.
    pub fn from(anchor: MuxPaneAnchor) -> (out: Self)
        ensures
            out.session() == anchor.session_id@,
            out.selector() == anchor_selector(anchor),
            out.directory() == text_opt(anchor.cwd),
            out is Pane <==> anchor.pane_id is Some,
    {
        match anchor.pane_id {
            Some(pane_id) => MuxPaneTarget::Pane {
                session_id: anchor.session_id,
                pane_id,
                cwd: anchor.cwd,
            },
            None => MuxPaneTarget::Session { session_id: anchor.session_id, cwd: anchor.cwd },
        }
    }

    /// A copy of this target.
    pub fn copy(&self) -> (out: Self)
        ensures
            out == *self,
    {
        match self {
            MuxPaneTarget::Session { session_id, cwd } => MuxPaneTarget::Session {
                session_id: session_id.clone(),
                cwd: match cwd {
                    Some(s) => Some(s.clone()),
                    None => None,
                },
            },
            MuxPaneTarget::Pane { session_id, pane_id, cwd } => MuxPaneTarget::Pane {
                session_id: session_id.clone(),
                pane_id: pane_id.clone(),
                cwd: match cwd {
                    Some(s) => Some(s.clone()),
                    None => None,
                },
            },
        }
    }
}

impl PartialEq for MuxPaneTarget {
    fn eq(&self, other: &Self) -> (out: bool) {
        same_text(self.session_id(), other.session_id()) && same_text(
            self.input_selector(),
            other.input_selector(),
        )
    }
}

impl vstd::std_specs::cmp::PartialEqSpecImpl for MuxPaneTarget {
    open spec fn obeys_eq_spec() -> bool {
        true
    }

    open spec fn eq_spec(&self, other: &Self) -> bool {
        self.same_place(*other)
    }
}

/// What input to an anchor's pane is addressed to.
pub open spec fn anchor_selector(anchor: MuxPaneAnchor) -> Seq<char> {
    match anchor.pane_id {
        Some(pane) => pane@,
        None => anchor.session_id@,
    }
}

/// What input to a target is addressed to.
pub fn target_input_selector(target: &MuxPaneTarget) -> (out: &str)
    ensures
        out@ == target.selector(),
{
    target.input_selector()
}

/// Whether a terminal shows what an anchor names.
pub open spec fn shows_anchor(target: Option<MuxPaneTarget>, anchor: Option<MuxPaneAnchor>) -> bool {
    match (target, anchor) {
        (None, None) => true,
        (Some(t), Some(a)) => t.session() == a.session_id@ && t.selector() == anchor_selector(a),
        _ => false,
    }
}

/// Whether a terminal shows what an anchor names.
pub fn target_matches_anchor(target: Option<&MuxPaneTarget>, anchor: Option<&MuxPaneAnchor>) -> (out:
    bool)
    ensures
        out == (match (target, anchor) {
            (None, None) => true,
            (Some(t), Some(a)) => t.session() == a.session_id@ && t.selector() == anchor_selector(
                *a,
            ),
            _ => false,
        }),
{
    match (target, anchor) {
        (None, None) => true,
        (Some(target), Some(anchor)) => {
            let selector = match &anchor.pane_id {
                Some(pane) => pane.as_str(),
                None => anchor.session_id.as_str(),
            };
            same_text(target.session_id(), &anchor.session_id) && same_text(
                target.input_selector(),
                selector,
            )
        },
        _ => false,
    }
}

/// The program and the arguments that attach a terminal to a session. Panes of the other multiplexers
/// are drawn by the host itself.
pub fn backend_attach_launch(backend: MuxBackendKind, target: &MuxPaneTarget) -> (out: (
    String,
    Vec<String>,
))
    requires
        backend is Tmux || backend is Zellij,
    ensures
        backend is Tmux ==> out.0@ == "tmux"@ && texts(out.1@) == seq![
            "attach-session"@,
            "-t"@,
            target.session(),
        ],
        backend is Zellij ==> out.0@ == "zellij"@ && texts(out.1@) == seq![
            "attach"@,
            "--create"@,
            target.session(),
        ],
{
    let session = target.session_id().to_owned();
    match backend {
        MuxBackendKind::Tmux => {
            let args = vec!["attach-session".to_owned(), "-t".to_owned(), session];
            assert(texts(args@) =~= seq!["attach-session"@, "-t"@, target.session()]);
            ("tmux".to_owned(), args)
        },
        _ => {
            let args = vec!["attach".to_owned(), "--create".to_owned(), session];
            assert(texts(args@) =~= seq!["attach"@, "--create"@, target.session()]);
            ("zellij".to_owned(), args)
        },
    }
}

/// The variables that would make the multiplexer believe that it runs inside itself.
pub fn backend_attach_env_remove(backend: MuxBackendKind) -> (out: Vec<String>)
    requires
        backend is Tmux || backend is Zellij,
    ensures
        backend is Tmux ==> texts(out@) == seq!["TMUX"@],
        backend is Zellij ==> texts(out@) == seq!["ZELLIJ"@],
{
    match backend {
        MuxBackendKind::Tmux => {
            let names = vec!["TMUX".to_owned()];
            assert(texts(names@) =~= seq!["TMUX"@]);
            names
        },
        _ => {
            let names = vec!["ZELLIJ".to_owned()];
            assert(texts(names@) =~= seq!["ZELLIJ"@]);
            names
        },
    }
}

/// How a terminal's program is started.
#[derive(Debug)]
pub struct SessionLaunchConfig {
    pub shell: Option<String>,
    pub args: Vec<String>,
    pub env_remove: Vec<String>,
    pub term: String,
    pub working_directory: Option<String>,
}

/// How a terminal that is attached to a session is started; `program` is where the multiplexer's
/// program was found, or the error of not finding it.
pub fn backend_attach_session_config(
    config: SessionLaunchConfig,
    backend: MuxBackendKind,
    target: &MuxPaneTarget,
    program: Result<String, String>,
) -> (out: Result<SessionLaunchConfig, String>)
    requires
        backend is Tmux || backend is Zellij,
    ensures
        match program {
            Err(message) => out == Err::<SessionLaunchConfig, String>(message),
            Ok(path) => out matches Ok(launch) && {
                &&& launch.shell == Some(path)
                &&& launch.term@ == "xterm-256color"@
                &&& launch.working_directory == config.working_directory
                &&& backend is Tmux ==> texts(launch.args@) == seq![
                    "attach-session"@,
                    "-t"@,
                    target.session(),
                ] && texts(launch.env_remove@) == seq!["TMUX"@]
                &&& backend is Zellij ==> texts(launch.args@) == seq![
                    "attach"@,
                    "--create"@,
                    target.session(),
                ] && texts(launch.env_remove@) == seq!["ZELLIJ"@]
            },
        },
{
    match program {
        Err(message) => Err(message),
        Ok(path) => {
            let (_, args) = backend_attach_launch(backend, target);
            Ok(
                SessionLaunchConfig {
                    shell: Some(path),
                    args,
                    env_remove: backend_attach_env_remove(backend),
                    term: "xterm-256color".to_owned(),
                    working_directory: config.working_directory,
                },
            )
        },
    }
}

/// A place where a program was looked for, and whether it is there.
#[derive(Debug)]
pub struct ProgramCandidate {
    pub path: String,
    pub is_file: bool,
}

/// Where a program is found: the first candidate that is a file. A path that starts at the root
/// stands for itself.
pub open spec fn found_program(program: Seq<char>, candidates: Seq<ProgramCandidate>) -> Option<
    Seq<char>,
>
    decreases candidates.len(),
{
    if program.len() > 0 && program[0] == '/' {
        Some(program)
    } else if candidates.len() == 0 {
        None
    } else if candidates[0].is_file {
        Some(candidates[0].path@)
    } else {
        found_program(program, candidates.drop_first())
    }
}

/// Where a program is found; `candidates` are the places along the search path, in its order.
pub fn resolve_launch_program_with_path(program: &str, candidates: &[ProgramCandidate]) -> (out: Result<
    String,
    String,
>)
    ensures
        match found_program(program@, candidates@) {
            Some(path) => out matches Ok(found) && found@ == path,
            None => out matches Err(message) && message@ == "backend attach program \""@ + program@
                + "\" not found in PATH"@,
        },
{
    let chars = chars_of(program);
    if chars.len() > 0 && chars[0] == '/' {
        return Ok(program.to_owned());
    }
    let mut i: usize = 0;
    assert(candidates@.skip(0) =~= candidates@);
    while i < candidates.len()
        invariant
            i <= candidates@.len(),
            !(program@.len() > 0 && program@[0] == '/'),
            found_program(program@, candidates@.skip(i as int)) == found_program(
                program@,
                candidates@,
            ),
        decreases candidates@.len() - i,
    {
        if candidates[i].is_file {
            return Ok(candidates[i].path.clone());
        }
        assert(candidates@.skip(i as int).drop_first() =~= candidates@.skip(i + 1));
        i = i + 1;
    }
    let head = join("backend attach program \"", program);
    Err(join(&head, "\" not found in PATH"))
}

/// How the terminal of a target is provided.
#[derive(Clone, Copy, Debug, PartialEq, Eq, Structural)]
pub enum TerminalStart {
    /// Nothing is shown.
    Idle,
    /// A terminal that was put aside is taken up again: the one with the given number.
    Resume(u64),
    /// A new terminal of the host itself.
    Native,
    /// A new terminal that runs the multiplexer's own program.
    Attach,
    /// A terminal drawn from rmux.
    Rmux,
}

/// A terminal that was put aside: what it is attached to, and the number that the caller keeps it
/// under.
#[derive(Debug)]
pub struct ParkedTerminal {
    pub target: MuxPaneTarget,
    pub terminal: u64,
}

/// The terminal that shows a multiplexer's pane. The caller keeps the terminals themselves; here they
/// are numbers, and 0 stands for none.
#[derive(Debug)]
pub struct BackendPaneTerminal {
    pub backend: MuxBackendKind,
    pub active_target: Option<MuxPaneTarget>,
    pub terminal: u64,
    pub parked: Vec<ParkedTerminal>,
}

/// Position of the terminal that was put aside for a target, or the length where there is none.
pub open spec fn parked_at(parked: Seq<ParkedTerminal>, target: MuxPaneTarget) -> int
    decreases parked.len(),
{
    if parked.len() == 0 {
        0
    } else if parked[0].target.same_place(target) {
        0
    } else {
        1 + parked_at(parked.drop_first(), target)
    }
}

/// Terminals that were put aside, with one more: instead of any other for the same target.
pub open spec fn with_parked(
    parked: Seq<ParkedTerminal>,
    target: MuxPaneTarget,
    terminal: u64,
) -> Seq<ParkedTerminal> {
    let i = parked_at(parked, target);
    let rest = if i < parked.len() { parked.remove(i) } else { parked };
    rest.push(ParkedTerminal { target, terminal })
}

proof fn parked_at_is(parked: Seq<ParkedTerminal>, target: MuxPaneTarget, i: int)
    requires
        0 <= i <= parked.len(),
        i < parked.len() ==> parked[i].target.same_place(target),
        forall|j: int| 0 <= j < i ==> !(#[trigger] parked[j]).target.same_place(target),
    ensures
        parked_at(parked, target) == i,
    decreases parked.len(),
{
    if i > 0 {
        let rest = parked.drop_first();
        assert(!parked[0].target.same_place(target));
        assert forall|j: int| 0 <= j < i - 1 implies !(#[trigger] rest[j]).target.same_place(
            target,
        ) by {
            assert(rest[j] == parked[j + 1]);
        }
        parked_at_is(rest, target, i - 1);
    }
}

/// What to do about a terminal when another pane is to be shown.
#[derive(Debug)]
pub enum SyncStep {
    /// The pane is shown already.
    Nothing,
    /// A terminal is to be provided for the target.
    Start { start: TerminalStart, target: Option<MuxPaneTarget> },
}

impl BackendPaneTerminal {
    /// A terminal that shows nothing yet.
    pub fn new(backend: MuxBackendKind) -> (out: Self)
        ensures
            out.backend == backend,
            out.active_target is None,
            out.terminal == 0,
            out.parked@.len() == 0,
    {
        BackendPaneTerminal { backend, active_target: None, terminal: 0, parked: Vec::new() }
    }

    fn find_parked(&self, target: &MuxPaneTarget) -> (out: Option<usize>)
        ensures
            match out {
                Some(i) => i < self.parked@.len() && i == parked_at(self.parked@, *target),
                None => parked_at(self.parked@, *target) == self.parked@.len(),
            },
    {
        let mut i: usize = 0;
        while i < self.parked.len()
            invariant
                i <= self.parked@.len(),
                forall|j: int| 0 <= j < i ==> !(#[trigger] self.parked@[j]).target.same_place(*target),
            decreases self.parked@.len() - i,
        {
            if self.parked[i].target == *target {
                proof {
                    parked_at_is(self.parked@, *target, i as int);
                }
                return Some(i);
            }
            i = i + 1;
        }
        proof {
            parked_at_is(self.parked@, *target, i as int);
        }
        None
    }

    /// The terminals put aside once the current one was, where the host itself draws it.
    pub open spec fn parked_now(self) -> Seq<ParkedTerminal> {
        if self.backend is Native && self.active_target is Some {
            with_parked(self.parked@, self.active_target->Some_0, self.terminal)
        } else {
            self.parked@
        }
    }

    /// Puts the current terminal aside, where the host itself draws it.
    fn park_native_terminal(&mut self)
        ensures
            final(self).parked@ == old(self).parked_now(),
            final(self).backend == old(self).backend,
            final(self).active_target == old(self).active_target,
            final(self).terminal == (if old(self).backend is Native && old(self).active_target
                is Some {
                0
            } else {
                old(self).terminal
            }),
    {
        if self.backend != MuxBackendKind::Native {
            return;
        }
        let target = match &self.active_target {
            Some(target) => target.copy(),
            None => {
                return;
            },
        };
        match self.find_parked(&target) {
            Some(i) => {
                let _ = self.parked.remove(i);
            },
            None => {},
        }
        let terminal = self.terminal;
        self.terminal = 0;
        self.parked.push(ParkedTerminal { target, terminal });
    }

    /// How a terminal for a target is provided, once the current one was put aside.
    pub open spec fn start_for(
        backend: MuxBackendKind,
        parked: Seq<ParkedTerminal>,
        target: Option<MuxPaneTarget>,
    ) -> TerminalStart {
        match target {
            None => TerminalStart::Idle,
            Some(target) => match backend {
                MuxBackendKind::Native => {
                    let i = parked_at(parked, target);
                    if i < parked.len() {
                        TerminalStart::Resume(parked[i].terminal)
                    } else {
                        TerminalStart::Native
                    }
                },
                MuxBackendKind::Tmux | MuxBackendKind::Zellij => TerminalStart::Attach,
                MuxBackendKind::Rmux => TerminalStart::Rmux,
            },
        }
    }

    /// Begins to show what an anchor names. Where that is shown already, nothing changes; else the
    /// current terminal is put aside, and the caller provides another: one that was put aside for the
    /// same pane before, or a new one.
    pub fn sync_mux_anchor(&mut self, backend: MuxBackendKind, anchor: Option<MuxPaneAnchor>) -> (out:
        SyncStep)
        ensures
            old(self).backend == backend && shows_anchor(old(self).active_target, anchor) ==> out
                is Nothing && *final(self) == *old(self),
            !(old(self).backend == backend && shows_anchor(old(self).active_target, anchor)) ==> (out
                matches SyncStep::Start { start, target } && {
                let parked = old(self).parked_now();
                &&& shows_anchor(target, anchor)
                &&& anchor matches Some(a) ==> (target matches Some(t) && t.directory() == text_opt(
                    a.cwd,
                ))
                &&& start == Self::start_for(backend, parked, target)
                &&& final(self).parked@ == (if start is Resume {
                    parked.remove(parked_at(parked, target->Some_0))
                } else {
                    parked
                })
                &&& final(self).backend == old(self).backend
                &&& final(self).active_target == old(self).active_target
                &&& final(self).terminal == (if old(self).backend is Native && old(
                    self,
                ).active_target is Some {
                    0
                } else {
                    old(self).terminal
                })
            }),
    {
        let shown = match (&self.active_target, &anchor) {
            (None, None) => true,
            (Some(target), Some(anchor)) => target_matches_anchor(Some(target), Some(anchor)),
            _ => false,
        };
        if self.backend == backend && shown {
            return SyncStep::Nothing;
        }
        self.park_native_terminal();
        match anchor {
            None => SyncStep::Start { start: TerminalStart::Idle, target: None },
            Some(anchor) => {
                let target = MuxPaneTarget::from(anchor);
                let start = match backend {
                    MuxBackendKind::Native => match self.find_parked(&target) {
                        Some(i) => {
                            let parked = self.parked.remove(i);
                            TerminalStart::Resume(parked.terminal)
                        },
                        None => TerminalStart::Native,
                    },
                    MuxBackendKind::Tmux => TerminalStart::Attach,
                    MuxBackendKind::Zellij => TerminalStart::Attach,
                    MuxBackendKind::Rmux => TerminalStart::Rmux,
                };
                SyncStep::Start { start, target: Some(target) }
            },
        }
    }

    /// Ends what [`sync_mux_anchor`](Self::sync_mux_anchor) began: with the terminal that the caller
    /// provided, or without one where it could not.
    pub fn started(
        &mut self,
        backend: MuxBackendKind,
        target: Option<MuxPaneTarget>,
        terminal: Option<u64>,
    )
        ensures
            final(self).backend == backend,
            match terminal {
                Some(number) => final(self).active_target == target && final(self).terminal == number,
                None => final(self).active_target is None && final(self).terminal == 0,
            },
            final(self).parked == old(self).parked,
    {
        self.backend = backend;
        match terminal {
            None => {
                self.active_target = None;
                self.terminal = 0;
            },
            Some(number) => {
                self.active_target = target;
                self.terminal = number;
            },
        }
    }
}

/// A terminal that the host itself draws is not lost when another pane is shown: it is put aside, and
/// taken up again when its pane is shown next.
pub proof fn parked_terminal_is_resumed(
    terminal: BackendPaneTerminal,
    target: MuxPaneTarget,
    again: MuxPaneTarget,
)
    requires
        terminal.backend is Native,
        terminal.active_target == Some(target),
        again.same_place(target),
        forall|i: int, j: int|
            0 <= i < j < terminal.parked@.len() ==> !(#[trigger] terminal.parked@[i]).target.same_place(
                (#[trigger] terminal.parked@[j]).target,
            ),
    ensures
        BackendPaneTerminal::start_for(
            MuxBackendKind::Native,
            terminal.parked_now(),
            Some(again),
        ) == TerminalStart::Resume(terminal.terminal),
{
    let parked = terminal.parked@;
    let now = terminal.parked_now();
    parked_found(parked, target);
    let i = parked_at(parked, target);
    let n = now.len() - 1;
    assert(now[n].target == target && now[n].terminal == terminal.terminal);
    assert forall|j: int| 0 <= j < n implies !(#[trigger] now[j]).target.same_place(again) by {
        let k = if i < parked.len() && j >= i { j + 1 } else { j };
        assert(now[j] == parked[k]);
        if parked[k].target.same_place(target) {
            if k < i {
                assert(!parked[k].target.same_place(target));
            } else {
                assert(parked[i].target.same_place(parked[k].target));
            }
        }
    }
    parked_at_is(now, again, n);
}

proof fn parked_found(parked: Seq<ParkedTerminal>, target: MuxPaneTarget)
    ensures
        0 <= parked_at(parked, target) <= parked.len(),
        parked_at(parked, target) < parked.len() ==> parked[parked_at(
            parked,
            target,
        )].target.same_place(target),
        forall|j: int|
            0 <= j < parked_at(parked, target) ==> !(#[trigger] parked[j]).target.same_place(target),
    decreases parked.len(),
{
    if parked.len() > 0 && !parked[0].target.same_place(target) {
        let rest = parked.drop_first();
        parked_found(rest, target);
        assert forall|j: int| 0 <= j < parked_at(parked, target) implies !(
        #[trigger] parked[j]).target.same_place(target) by {
            if j > 0 {
                assert(parked[j] == rest[j - 1]);
            }
        }
    }
}

/// A program that is named by its path is that path; any other is the first candidate that is a file.
pub proof fn first_file_is_the_program(
    program: Seq<char>,
    candidates: Seq<ProgramCandidate>,
    i: int,
)
    ensures
        program.len() > 0 && program[0] == '/' ==> found_program(program, candidates) == Some(
            program,
        ),
        !(program.len() > 0 && program[0] == '/') ==> {
            &&& 0 <= i < candidates.len() && candidates[i].is_file && (forall|j: int|
                0 <= j < i ==> !(#[trigger] candidates[j]).is_file) ==> found_program(
                program,
                candidates,
            ) == Some(candidates[i].path@)
            &&& (forall|j: int| 0 <= j < candidates.len() ==> !(#[trigger] candidates[j]).is_file)
                ==> found_program(program, candidates) is None
        },
    decreases candidates.len(),
{
    if candidates.len() > 0 {
        let rest = candidates.drop_first();
        first_file_is_the_program(program, rest, i - 1);
        assert forall|j: int| 0 <= j < rest.len() implies #[trigger] rest[j] == candidates[j
            + 1] by {}
        if 0 < i < candidates.len() && (forall|j: int|
            0 <= j < i ==> !(#[trigger] candidates[j]).is_file) {
            assert(!candidates[0].is_file);
            assert(rest[i - 1] == candidates[i]);
        }
        if forall|j: int| 0 <= j < candidates.len() ==> !(#[trigger] candidates[j]).is_file {
            assert(!candidates[0].is_file);
        }
    }
}

/// A pane is chosen by its own name, and a session by that of the session.
pub proof fn panes_are_chosen_by_name(session_id: String, pane_id: String, cwd: Option<String>)
    ensures
        ({
            let whole = MuxPaneTarget::Session { session_id, cwd };
            let pane = MuxPaneTarget::Pane { session_id, pane_id, cwd };
            &&& whole.session() == session_id@
            &&& whole.selector() == session_id@
            &&& pane.session() == session_id@
            &&& pane.selector() == pane_id@
            &&& cwd matches Some(directory) ==> whole.directory() == Some(directory@)
                && pane.directory() == Some(directory@)
            &&& cwd is None ==> whole.directory() is None && pane.directory() is None
        }),
{
}

/// An anchor shows a pane exactly where both name the same pane of the same session.
pub proof fn anchors_show_their_pane(target: MuxPaneTarget, anchor: MuxPaneAnchor)
    ensures
        anchor.pane_id matches Some(pane) ==> (shows_anchor(Some(target), Some(anchor)) <==> (
        target.session() == anchor.session_id@ && target.selector() == pane@)),
        anchor.pane_id is None ==> (shows_anchor(Some(target), Some(anchor)) <==> (
        target.session() == anchor.session_id@ && target.selector() == anchor.session_id@)),
        !shows_anchor(Some(target), None),
        !shows_anchor(None, Some(anchor)),
{
}

/// Without a target nothing is started. With one, each kind of multiplexer starts in its own way, and only
/// the native one goes on with a terminal that waits.
pub proof fn terminals_start_by_kind(
    backend: MuxBackendKind,
    parked: Seq<ParkedTerminal>,
    target: MuxPaneTarget,
)
    ensures
        BackendPaneTerminal::start_for(backend, parked, None) is Idle,
        backend is Tmux || backend is Zellij ==> BackendPaneTerminal::start_for(
            backend,
            parked,
            Some(target),
        ) is Attach,
        backend is Rmux ==> BackendPaneTerminal::start_for(backend, parked, Some(target)) is Rmux,
        backend is Native ==> match BackendPaneTerminal::start_for(backend, parked, Some(target)) {
            TerminalStart::Resume(terminal) => exists|i: int|
                0 <= i < parked.len() && (#[trigger] parked[i]).terminal == terminal
                    && parked[i].target.session() == target.session()
                    && parked[i].target.selector() == target.selector(),
            TerminalStart::Native => forall|i: int|
                0 <= i < parked.len() ==> !((#[trigger] parked[i]).target.session()
                    == target.session() && parked[i].target.selector() == target.selector()),
            _ => false,
        },
{
    first_of_its_place(parked, target);
    let at = parked_at(parked, target);
    if at < parked.len() {
        assert(parked[at].target.same_place(target));
    }
}

proof fn first_of_its_place(parked: Seq<ParkedTerminal>, target: MuxPaneTarget)
    ensures
        0 <= parked_at(parked, target) <= parked.len(),
        parked_at(parked, target) < parked.len() ==> parked[parked_at(
            parked,
            target,
        )].target.same_place(target),
        forall|i: int|
            0 <= i < parked_at(parked, target) ==> !(#[trigger] parked[i]).target.same_place(target),
    decreases parked.len(),
{
    if parked.len() > 0 && !parked[0].target.same_place(target) {
        let rest = parked.drop_first();
        first_of_its_place(rest, target);
        let at = parked_at(parked, target);
        assert forall|i: int| 0 <= i < at implies !(#[trigger] parked[i]).target.same_place(
            target,
        ) by {
            if i > 0 {
                assert(parked[i] == rest[i - 1]);
            }
        }
    }
}

}
