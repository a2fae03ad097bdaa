//! Spaces on another host: which spaces a host offers, and which commands they take.
//!
//! A space is a name under which a host keeps sessions. A session carries the space that it belongs
//! to, and no second list of ownership is kept.

use vstd::prelude::*;
use crate::mux::command::MuxCommand;
use crate::mux::snapshot::MuxSession;
use crate::outside::{json_bool_reading, json_text_reading, read_json_bool, read_json_text};
use crate::text::{decimal, decimal_text, join, same_text, text_opt, texts};

verus! {

/// The version of the list of spaces that hosts exchange.
pub const REMOTE_SPACE_CATALOG_VERSION: u32 = 3;

/// The multiplexer that a space uses.
#[derive(Clone, Copy, Debug, PartialEq, Eq, Structural)]
pub enum MultiplexerBackendConfig {
    Herdr,
    Native,
    Rmux,
    Tmux,
}

/// The name of a multiplexer.
pub open spec fn name_of_backend(backend: MultiplexerBackendConfig) -> Seq<char> {
    match backend {
        MultiplexerBackendConfig::Herdr => "herdr"@,
        MultiplexerBackendConfig::Native => "native"@,
        MultiplexerBackendConfig::Rmux => "rmux"@,
        MultiplexerBackendConfig::Tmux => "tmux"@,
    }
}

/// The name of a multiplexer.
pub fn backend_name(backend: MultiplexerBackendConfig) -> (out: &'static str)
    ensures
        out@ == name_of_backend(backend),
{
    match backend {
        MultiplexerBackendConfig::Herdr => "herdr",
        MultiplexerBackendConfig::Native => "native",
        MultiplexerBackendConfig::Rmux => "rmux",
        MultiplexerBackendConfig::Tmux => "tmux",
    }
}

impl MultiplexerBackendConfig {
    /// Whether a multiplexer can be used from another host.
    pub open spec fn works_remotely(self) -> bool {
        self == MultiplexerBackendConfig::Rmux || self == MultiplexerBackendConfig::Tmux
    }

    /// Whether a multiplexer can be used from another host.
    pub fn supports_remote(self) -> (out: bool)
        ensures
            out == self.works_remotely(),
    {
        self == MultiplexerBackendConfig::Rmux || self == MultiplexerBackendConfig::Tmux
    }
}

/// Where the sessions of a space are.
#[derive(Clone, Copy, Debug, PartialEq, Eq, Structural)]
pub enum SpaceRemoteOverride {
    /// Where the configuration says.
    Inherit,
    /// On this host.
    Local,
    /// On a host that the configuration describes.
    Profile,
    /// On a host that the space describes.
    Inline,
}

/// A space of this host.
#[derive(Debug)]
pub struct Space {
    pub remote_id: String,
    pub name: String,
    pub remote: SpaceRemoteOverride,
    pub backend: Option<MultiplexerBackendConfig>,
}

/// What the configuration of this host says of multiplexers.
#[derive(Clone, Copy, Debug)]
pub struct MultiplexerDefaults {
    pub backend: MultiplexerBackendConfig,
    /// Whether sessions are on another host unless a space says otherwise.
    pub has_remote: bool,
}

/// A space, as hosts tell each other of it.
#[derive(Clone, Debug, PartialEq, Eq)]
pub struct RemoteSpaceSummary {
    pub catalog_version: u32,
    pub id: String,
    pub name: String,
    pub backend: MultiplexerBackendConfig,
}

/// Why a request about a space is refused.
#[derive(Debug)]
pub enum RemoteSpaceError {
    /// The multiplexer cannot be used from another host.
    BackendUnsupported,
    /// A space needs a name.
    NameEmpty,
    /// There is no such space.
    Unavailable(String),
    /// The sessions of the space are on yet another host.
    PointsToAnotherHost(String),
    /// The space uses another multiplexer than the caller thinks.
    BackendChanged { actual: &'static str, expected: &'static str },
    /// There is no such session.
    SessionUnavailable,
    /// The session is not one of the space.
    SessionDoesNotBelong(String),
    /// The host lists its spaces in another version.
    CatalogVersionUnsupported(String),
}

/// Whether the sessions of a space are on this host.
pub open spec fn is_local(remote: SpaceRemoteOverride, defaults: MultiplexerDefaults) -> bool {
    match remote {
        SpaceRemoteOverride::Local => true,
        SpaceRemoteOverride::Inherit => !defaults.has_remote,
        SpaceRemoteOverride::Profile => false,
        SpaceRemoteOverride::Inline => false,
    }
}

/// Whether the sessions of a space are on this host.
pub fn binding_is_local(remote: SpaceRemoteOverride, defaults: MultiplexerDefaults) -> (out: bool)
    ensures
        out == is_local(remote, defaults),
{
    match remote {
        SpaceRemoteOverride::Local => true,
        SpaceRemoteOverride::Inherit => !defaults.has_remote,
        SpaceRemoteOverride::Profile => false,
        SpaceRemoteOverride::Inline => false,
    }
}

/// The multiplexer of a space.
pub open spec fn backend_of(space: Space, defaults: MultiplexerDefaults) -> MultiplexerBackendConfig {
    match space.backend {
        Some(backend) => backend,
        None => defaults.backend,
    }
}

fn space_backend(space: &Space, defaults: MultiplexerDefaults) -> (out: MultiplexerBackendConfig)
    ensures
        out == backend_of(*space, defaults),
{
    match space.backend {
        Some(backend) => backend,
        None => defaults.backend,
    }
}

/// Whether other hosts are told of a space.
pub open spec fn is_offered(space: Space, defaults: MultiplexerDefaults) -> bool {
    is_local(space.remote, defaults) && backend_of(space, defaults).works_remotely()
}

/// What other hosts are told of a space.
pub open spec fn is_summary_of(
    summary: RemoteSpaceSummary,
    space: Space,
    defaults: MultiplexerDefaults,
) -> bool {
    &&& summary.catalog_version == REMOTE_SPACE_CATALOG_VERSION
    &&& summary.id == space.remote_id
    &&& summary.name == space.name
    &&& summary.backend == backend_of(space, defaults)
}

/// The spaces that other hosts are told of.
pub open spec fn offered(spaces: Seq<Space>, defaults: MultiplexerDefaults) -> Seq<Space> {
    spaces.filter(|space: Space| is_offered(space, defaults))
}

/// The spaces that other hosts can use: those on this host, with a multiplexer that can be used from
/// another.
pub fn list(spaces: &[Space], defaults: MultiplexerDefaults) -> (out: Vec<RemoteSpaceSummary>)
    ensures
        out@.len() == offered(spaces@, defaults).len(),
        forall|i: int|
            0 <= i < out@.len() ==> is_summary_of(
                #[trigger] out@[i],
                offered(spaces@, defaults)[i],
                defaults,
            ),
{
    let ghost keep = |space: Space| is_offered(space, defaults);
    let mut out: Vec<RemoteSpaceSummary> = Vec::new();
    let mut i: usize = 0;
    proof {
        reveal(Seq::filter);
        assert(spaces@.take(0).filter(keep) =~= Seq::<Space>::empty());
    }
    while i < spaces.len()
        invariant
            i <= spaces@.len(),
            keep == (|space: Space| is_offered(space, defaults)),
            out@.len() == spaces@.take(i as int).filter(keep).len(),
            forall|k: int|
                0 <= k < out@.len() ==> is_summary_of(
                    #[trigger] out@[k],
                    spaces@.take(i as int).filter(keep)[k],
                    defaults,
                ),
        decreases spaces@.len() - i,
    {
        proof {
            reveal(Seq::filter);
            assert(spaces@.take(i + 1).drop_last() =~= spaces@.take(i as int));
            assert(spaces@.take(i + 1).last() == spaces@[i as int]);
        }
        let space = &spaces[i];
        let backend = space_backend(space, defaults);
        if binding_is_local(space.remote, defaults) && backend.supports_remote() {
            out.push(
                RemoteSpaceSummary {
                    catalog_version: REMOTE_SPACE_CATALOG_VERSION,
                    id: space.remote_id.clone(),
                    name: space.name.clone(),
                    backend,
                },
            );
        }
        i = i + 1;
    }
    assert(spaces@.take(i as int) =~= spaces@);
    out
}

/// Whether a space can be made for other hosts.
pub fn check_create(backend: MultiplexerBackendConfig) -> (out: Result<(), RemoteSpaceError>)
    ensures
        out is Ok <==> backend.works_remotely(),
        out matches Err(error) ==> error == RemoteSpaceError::BackendUnsupported,
{
    if backend.supports_remote() {
        Ok(())
    } else {
        Err(RemoteSpaceError::BackendUnsupported)
    }
}

/// A space that was made, as other hosts are told of it. None was made where the name is empty.
pub fn create(space: Option<Space>, backend: MultiplexerBackendConfig) -> (out: Result<
    RemoteSpaceSummary,
    RemoteSpaceError,
>)
    ensures
        match space {
            _ if !backend.works_remotely() => out matches Err(error) && error
                == RemoteSpaceError::BackendUnsupported,
            None => out matches Err(error) && error == RemoteSpaceError::NameEmpty,
            Some(made) => out matches Ok(summary) && summary == (RemoteSpaceSummary {
                catalog_version: REMOTE_SPACE_CATALOG_VERSION,
                id: made.remote_id,
                name: made.name,
                backend,
            }),
        },
{
    if !backend.supports_remote() {
        return Err(RemoteSpaceError::BackendUnsupported);
    }
    match space {
        None => Err(RemoteSpaceError::NameEmpty),
        Some(made) => Ok(
            RemoteSpaceSummary {
                catalog_version: REMOTE_SPACE_CATALOG_VERSION,
                id: made.remote_id,
                name: made.name,
                backend,
            },
        ),
    }
}

/// A session, and the space that it carries.
#[derive(Debug)]
pub struct TaggedSession {
    pub session: MuxSession,
    pub space: Option<String>,
}

/// The sessions of a multiplexer, with their spaces.
#[derive(Debug)]
pub struct TaggedSnapshot {
    pub sessions: Vec<TaggedSession>,
    pub active_session_id: Option<String>,
}

/// Whether a session carries a space.
pub open spec fn carries(session: TaggedSession, space_id: Seq<char>) -> bool {
    text_opt(session.space) == Some(space_id)
}

/// The sessions that carry a space.
pub open spec fn sessions_of(sessions: Seq<TaggedSession>, space_id: Seq<char>) -> Seq<
    TaggedSession,
> {
    sessions.filter(|s: TaggedSession| carries(s, space_id))
}

/// Whether a session is listed.
pub open spec fn has_session(sessions: Seq<TaggedSession>, id: Seq<char>) -> bool {
    exists|i: int| 0 <= i < sessions.len() && (#[trigger] sessions[i]).session.id@ == id
}

fn carries_space(session: &TaggedSession, space_id: &str) -> (out: bool)
    ensures
        out == carries(*session, space_id@),
{
    match &session.space {
        Some(space) => same_text(space, space_id),
        None => false,
    }
}

fn lists_session(sessions: &Vec<TaggedSession>, id: &str) -> (out: bool)
    ensures
        out == has_session(sessions@, id@),
{
    let mut i: usize = 0;
    while i < sessions.len()
        invariant
            i <= sessions@.len(),
            forall|j: int| 0 <= j < i ==> (#[trigger] sessions@[j]).session.id@ != id@,
        decreases sessions@.len() - i,
    {
        if same_text(&sessions[i].session.id, id) {
            return true;
        }
        i = i + 1;
    }
    false
}

/// What a space shows of a multiplexer: its own sessions, and the active one where it is among them.
pub fn filter_snapshot_for_space(snapshot: TaggedSnapshot, space_id: &str) -> (out: TaggedSnapshot)
    ensures
        out.sessions@ == sessions_of(snapshot.sessions@, space_id@),
        out.active_session_id == (match snapshot.active_session_id {
            Some(id) if has_session(out.sessions@, id@) => Some(id),
            _ => None,
        }),
{
    let TaggedSnapshot { mut sessions, active_session_id } = snapshot;
    let ghost all = sessions@;
    let ghost keep = |s: TaggedSession| carries(s, space_id@);
    let mut kept: Vec<TaggedSession> = Vec::new();
    let ghost mut done: int = 0;
    proof {
        reveal(Seq::filter);
        assert(all.take(0).filter(keep) =~= Seq::<TaggedSession>::empty());
        assert(all.skip(0) =~= all);
    }
    while sessions.len() > 0
        invariant
            0 <= done <= all.len(),
            keep == (|s: TaggedSession| carries(s, space_id@)),
            sessions@ == all.skip(done),
            kept@ == all.take(done).filter(keep),
        decreases sessions@.len(),
    {
        proof {
            reveal(Seq::filter);
            assert(all.take(done + 1).drop_last() =~= all.take(done));
            assert(all.take(done + 1).last() == all[done]);
        }
        let session = sessions.remove(0);
        assert(session == all[done]);
        if carries_space(&session, space_id) {
            kept.push(session);
        }
        proof {
            done = done + 1;
            assert(sessions@ =~= all.skip(done));
        }
    }
    assert(all.take(done) =~= all);
    let active = match active_session_id {
        Some(id) => {
            if lists_session(&kept, &id) {
                Some(id)
            } else {
                None
            }
        },
        None => None,
    };
    TaggedSnapshot { sessions: kept, active_session_id: active }
}

/// Position of the space with an identifier, or the length where there is none.
pub open spec fn space_at(spaces: Seq<Space>, id: Seq<char>) -> int
    decreases spaces.len(),
{
    if spaces.len() == 0 {
        0
    } else if spaces[0].remote_id@ == id {
        0
    } else {
        1 + space_at(spaces.drop_first(), id)
    }
}

fn find_space(spaces: &[Space], id: &str) -> (out: Option<usize>)
    ensures
        match out {
            Some(i) => i < spaces@.len() && i == space_at(spaces@, id@),
            None => space_at(spaces@, id@) >= spaces@.len(),
        },
{
    let mut i: usize = 0;
    assert(spaces@.skip(0) =~= spaces@);
    while i < spaces.len()
        invariant
            i <= spaces@.len(),
            space_at(spaces@, id@) == i + space_at(spaces@.skip(i as int), id@),
        decreases spaces@.len() - i,
    {
        assert(spaces@.skip(i as int).drop_first() =~= spaces@.skip(i + 1));
        assert(spaces@.skip(i as int)[0] == spaces@[i as int]);
        if same_text(&spaces[i].remote_id, id) {
            return Some(i);
        }
        i = i + 1;
    }
    None
}

/// The multiplexer that a request for a space goes to. The space has to be there, with its sessions on
/// this host, and with the multiplexer that the caller expects.
pub fn remote_space_runtime(
    spaces: &[Space],
    defaults: MultiplexerDefaults,
    space_id: &str,
    expected: MultiplexerBackendConfig,
) -> (out: Result<MultiplexerBackendConfig, RemoteSpaceError>)
    ensures
        ({
            let at = space_at(spaces@, space_id@);
            if at >= spaces@.len() {
                out matches Err(RemoteSpaceError::Unavailable(text)) && text@ == "remote Space "@
                    + space_id@ + " is unavailable"@
            } else if !is_local(spaces@[at].remote, defaults) {
                out matches Err(RemoteSpaceError::PointsToAnotherHost(text)) && text@
                    == "remote Space "@ + space_id@ + " points to another SSH host"@
            } else if backend_of(spaces@[at], defaults) != expected {
                out matches Err(RemoteSpaceError::BackendChanged { actual, expected: wanted })
                    && actual@ == name_of_backend(backend_of(spaces@[at], defaults)) && wanted@
                    == name_of_backend(expected)
            } else {
                out matches Ok(backend) && backend == expected
            }
        }),
{
    match find_space(spaces, space_id) {
        None => {
            let start = join("remote Space ", space_id);
            Err(RemoteSpaceError::Unavailable(join(&start, " is unavailable")))
        },
        Some(at) => {
            let space = &spaces[at];
            if !binding_is_local(space.remote, defaults) {
                let start = join("remote Space ", space_id);
                return Err(
                    RemoteSpaceError::PointsToAnotherHost(
                        join(&start, " points to another SSH host"),
                    ),
                );
            }
            let backend = space_backend(space, defaults);
            if backend != expected {
                return Err(
                    RemoteSpaceError::BackendChanged {
                        actual: backend_name(backend),
                        expected: backend_name(expected),
                    },
                );
            }
            Ok(backend)
        },
    }
}

/// The session that a command is about. A command that makes a session is about none.
pub open spec fn session_of(command: MuxCommand) -> Option<String> {
    match command {
        MuxCommand::CreateProjectSession { session_id: _, cwd: _ } => None,
        MuxCommand::CreateWorktreeSession { session_id: _, cwd: _ } => None,
        MuxCommand::ActivateSession { session_id } => Some(session_id),
        MuxCommand::ActivateWindow { session_id, window_id: _ } => Some(session_id),
        MuxCommand::NewWindow { session_id } => Some(session_id),
        MuxCommand::RenameWindow { session_id, window_id: _, name: _ } => Some(session_id),
        MuxCommand::ActivateNextWindow { session_id } => Some(session_id),
        MuxCommand::ActivatePreviousWindow { session_id } => Some(session_id),
        MuxCommand::ActivateLastWindow { session_id } => Some(session_id),
        MuxCommand::ActivateWindowIndex { session_id, index: _ } => Some(session_id),
        MuxCommand::MoveWindow { session_id, window_id: _, delta: _ } => Some(session_id),
        MuxCommand::MoveWindowPreservingSelection { session_id, window_id: _, delta: _ } => Some(
            session_id,
        ),
        MuxCommand::SplitPane { session_id, pane_id: _, direction: _ } => Some(session_id),
        MuxCommand::SelectPane { session_id, pane_id: _ } => Some(session_id),
        MuxCommand::SelectNextPane { session_id } => Some(session_id),
        MuxCommand::SelectPreviousPane { session_id } => Some(session_id),
        MuxCommand::KillPane { session_id, pane_id: _ } => Some(session_id),
        MuxCommand::ClosePane { session_id, pane_id: _ } => Some(session_id),
        MuxCommand::TogglePaneZoom { session_id, pane_id: _ } => Some(session_id),
        MuxCommand::RenameSession { session_id, name: _ } => Some(session_id),
        MuxCommand::DitchSession { session_id } => Some(session_id),
        MuxCommand::StampSession { session_id, space: _ } => Some(session_id),
    }
}

/// The session that a command is about.
pub fn command_session_id(command: &MuxCommand) -> (out: Option<&str>)
    ensures
        match out {
            Some(id) => text_opt(session_of(*command)) == Some(id@),
            None => session_of(*command) is None,
        },
{
    match command {
        MuxCommand::CreateProjectSession { .. } => None,
        MuxCommand::CreateWorktreeSession { .. } => None,
        MuxCommand::ActivateSession { session_id } => Some(session_id.as_str()),
        MuxCommand::ActivateWindow { session_id, .. } => Some(session_id.as_str()),
        MuxCommand::NewWindow { session_id } => Some(session_id.as_str()),
        MuxCommand::RenameWindow { session_id, .. } => Some(session_id.as_str()),
        MuxCommand::ActivateNextWindow { session_id } => Some(session_id.as_str()),
        MuxCommand::ActivatePreviousWindow { session_id } => Some(session_id.as_str()),
        MuxCommand::ActivateLastWindow { session_id } => Some(session_id.as_str()),
        MuxCommand::ActivateWindowIndex { session_id, .. } => Some(session_id.as_str()),
        MuxCommand::MoveWindow { session_id, .. } => Some(session_id.as_str()),
        MuxCommand::MoveWindowPreservingSelection { session_id, .. } => Some(session_id.as_str()),
        MuxCommand::SplitPane { session_id, .. } => Some(session_id.as_str()),
        MuxCommand::SelectPane { session_id, .. } => Some(session_id.as_str()),
        MuxCommand::SelectNextPane { session_id } => Some(session_id.as_str()),
        MuxCommand::SelectPreviousPane { session_id } => Some(session_id.as_str()),
        MuxCommand::KillPane { session_id, .. } => Some(session_id.as_str()),
        MuxCommand::ClosePane { session_id, .. } => Some(session_id.as_str()),
        MuxCommand::TogglePaneZoom { session_id, .. } => Some(session_id.as_str()),
        MuxCommand::RenameSession { session_id, .. } => Some(session_id.as_str()),
        MuxCommand::DitchSession { session_id } => Some(session_id.as_str()),
        MuxCommand::StampSession { session_id, .. } => Some(session_id.as_str()),
    }
}

/// Whether a space takes a command: a command about a session needs the session to be there and to
/// carry the space. The session itself is asked, so the answer cannot be out of date.
pub fn execute(command: &MuxCommand, found: Option<&TaggedSession>, space_id: &str) -> (out: Result<
    (),
    RemoteSpaceError,
>)
    ensures
        match found {
            _ if session_of(*command) is None => out is Ok,
            None => out matches Err(error) && error == RemoteSpaceError::SessionUnavailable,
            Some(session) => if carries(*session, space_id@) {
                out is Ok
            } else {
                out matches Err(RemoteSpaceError::SessionDoesNotBelong(text)) && text@
                    == "session does not belong to remote Space "@ + space_id@
            },
        },
{
    if command_session_id(command).is_none() {
        return Ok(());
    }
    match found {
        None => Err(RemoteSpaceError::SessionUnavailable),
        Some(session) => {
            if carries_space(session, space_id) {
                Ok(())
            } else {
                Err(
                    RemoteSpaceError::SessionDoesNotBelong(
                        join("session does not belong to remote Space ", space_id),
                    ),
                )
            }
        },
    }
}

/// Position of the first space of another version, or the length where there is none.
pub open spec fn foreign_at(spaces: Seq<RemoteSpaceSummary>) -> int
    decreases spaces.len(),
{
    if spaces.len() == 0 {
        0
    } else if spaces[0].catalog_version != REMOTE_SPACE_CATALOG_VERSION {
        0
    } else {
        1 + foreign_at(spaces.drop_first())
    }
}

/// Checks that another host lists its spaces in the version that this one knows.
pub fn validate_versions(spaces: &[RemoteSpaceSummary]) -> (out: Result<(), RemoteSpaceError>)
    ensures
        ({
            let at = foreign_at(spaces@);
            if at >= spaces@.len() {
                out is Ok
            } else {
                out matches Err(RemoteSpaceError::CatalogVersionUnsupported(text)) && text@
                    == "remote Space catalog version "@ + decimal(
                    spaces@[at].catalog_version as nat,
                ) + " is not supported"@
            }
        }),
{
    let mut i: usize = 0;
    assert(spaces@.skip(0) =~= spaces@);
    while i < spaces.len()
        invariant
            i <= spaces@.len(),
            foreign_at(spaces@) == i + foreign_at(spaces@.skip(i as int)),
        decreases spaces@.len() - i,
    {
        assert(spaces@.skip(i as int).drop_first() =~= spaces@.skip(i + 1));
        assert(spaces@.skip(i as int)[0] == spaces@[i as int]);
        let version = spaces[i].catalog_version;
        if version != REMOTE_SPACE_CATALOG_VERSION {
            let number = decimal_text(version as u64);
            let start = join("remote Space catalog version ", &number);
            return Err(
                RemoteSpaceError::CatalogVersionUnsupported(join(&start, " is not supported")),
            );
        }
        i = i + 1;
    }
    Ok(())
}

/// Asks another host for its spaces.
pub fn list_remote() -> (out: Vec<String>)
    ensures
        texts(out@) == seq!["remote-space"@, "list"@],
{
    let out = vec!["remote-space".to_owned(), "list".to_owned()];
    assert(texts(out@) =~= seq!["remote-space"@, "list"@]);
    out
}

/// Asks another host to make a space.
pub fn create_remote(name: &str, backend: MultiplexerBackendConfig) -> (out: Result<
    Vec<String>,
    RemoteSpaceError,
>)
    ensures
        match out {
            Ok(args) => backend.works_remotely() && texts(args@) == seq![
                "remote-space"@,
                "create"@,
                "--name"@,
                name@,
                "--backend"@,
                name_of_backend(backend),
            ],
            Err(error) => !backend.works_remotely() && error
                == RemoteSpaceError::BackendUnsupported,
        },
{
    if !backend.supports_remote() {
        return Err(RemoteSpaceError::BackendUnsupported);
    }
    let shown = backend_name(backend);
    let out = vec![
        "remote-space".to_owned(),
        "create".to_owned(),
        "--name".to_owned(),
        name.to_owned(),
        "--backend".to_owned(),
        shown.to_owned(),
    ];
    assert(texts(out@) =~= seq![
        "remote-space"@,
        "create"@,
        "--name"@,
        name@,
        "--backend"@,
        name_of_backend(backend),
    ]);
    Ok(out)
}

/// Asks another host for its projects.
pub fn list_remote_projects() -> (out: Vec<String>)
    ensures
        texts(out@) == seq!["remote-project"@, "list"@],
{
    let out = vec!["remote-project".to_owned(), "list".to_owned()];
    assert(texts(out@) =~= seq!["remote-project"@, "list"@]);
    out
}

/// Asks another host to make a project a favourite, or no longer one.
pub fn toggle_remote_project_favorite(path: &str) -> (out: Vec<String>)
    ensures
        texts(out@) == seq!["remote-project"@, "favorite"@, "--path"@, path@],
{
    let out = vec![
        "remote-project".to_owned(),
        "favorite".to_owned(),
        "--path".to_owned(),
        path.to_owned(),
    ];
    assert(texts(out@) =~= seq!["remote-project"@, "favorite"@, "--path"@, path@]);
    out
}

/// Whether the project is a favourite now, as the other host answers.
pub fn favorite_answer(output: &str) -> (out: Result<bool, String>)
    ensures
        match out {
            Ok(favorite) => json_bool_reading(output@) == Ok::<bool, Seq<char>>(favorite),
            Err(error) => json_bool_reading(output@) == Err::<bool, Seq<char>>(error@),
        },
{
    read_json_bool(output)
}

/// An option and its value, for every value.
pub open spec fn repeated(option: Seq<char>, values: Seq<Seq<char>>) -> Seq<Seq<char>>
    decreases values.len(),
{
    if values.len() == 0 {
        Seq::empty()
    } else {
        repeated(option, values.drop_last()).push(option).push(values.last())
    }
}

/// Asks another host for the worktrees of a project. It is told which directories are open.
pub fn list_remote_worktrees(project: &str, open_cwds: &[String]) -> (out: Vec<String>)
    ensures
        texts(out@) == seq!["remote-worktree"@, "list"@, "--project"@, project@] + repeated(
            "--open-cwd"@,
            texts(open_cwds@),
        ),
{
    let mut out = vec![
        "remote-worktree".to_owned(),
        "list".to_owned(),
        "--project".to_owned(),
        project.to_owned(),
    ];
    let ghost head = seq!["remote-worktree"@, "list"@, "--project"@, project@];
    let ghost all = texts(open_cwds@);
    let mut i: usize = 0;
    proof {
        assert(all.take(0) =~= Seq::<Seq<char>>::empty());
        assert(texts(out@) =~= head + repeated("--open-cwd"@, all.take(0)));
    }
    while i < open_cwds.len()
        invariant
            i <= open_cwds@.len(),
            all == texts(open_cwds@),
            texts(out@) == head + repeated("--open-cwd"@, all.take(i as int)),
        decreases open_cwds@.len() - i,
    {
        let ghost before = out@;
        proof {
            assert(all.take(i + 1).drop_last() =~= all.take(i as int));
            assert(all.take(i + 1).last() == open_cwds@[i as int]@);
        }
        out.push("--open-cwd".to_owned());
        out.push(open_cwds[i].clone());
        proof {
            assert(texts(out@) =~= texts(before).push("--open-cwd"@).push(open_cwds@[i as int]@));
            assert(texts(out@) =~= head + repeated("--open-cwd"@, all.take(i + 1)));
        }
        i = i + 1;
    }
    assert(all.take(i as int) =~= all);
    out
}

/// Asks another host for a worktree of a project, on a new branch.
pub fn create_remote_worktree(project: &str, branch: &str) -> (out: Vec<String>)
    ensures
        texts(out@) == seq![
            "remote-worktree"@,
            "create"@,
            "--project"@,
            project@,
            "--branch"@,
            branch@,
        ],
{
    let out = vec![
        "remote-worktree".to_owned(),
        "create".to_owned(),
        "--project".to_owned(),
        project.to_owned(),
        "--branch".to_owned(),
        branch.to_owned(),
    ];
    assert(texts(out@) =~= seq![
        "remote-worktree"@,
        "create"@,
        "--project"@,
        project@,
        "--branch"@,
        branch@,
    ]);
    out
}

/// Where the worktree is, as the other host answers.
pub fn worktree_answer(output: &str) -> (out: Result<String, String>)
    ensures
        match out {
            Ok(path) => json_text_reading(output@) == Ok::<Seq<char>, Seq<char>>(path@),
            Err(error) => json_text_reading(output@) == Err::<Seq<char>, Seq<char>>(error@),
        },
{
    read_json_text(output)
}

/// What a worker found out about the spaces of another host.
#[derive(Debug)]
pub enum RemoteCatalogResult {
    Listed(Vec<RemoteSpaceSummary>),
    /// A space was made; the list was asked for again.
    Created {
        selected: RemoteSpaceSummary,
        refreshed: Result<Vec<RemoteSpaceSummary>, String>,
    },
}

/// Puts together what a worker found out. Where a space was to be made, `created` is what came of it;
/// a list that could not be had afterwards does not undo that.
pub fn catalog_result(
    created: Option<Result<RemoteSpaceSummary, String>>,
    listed: Result<Vec<RemoteSpaceSummary>, String>,
) -> (out: Result<RemoteCatalogResult, String>)
    ensures
        match created {
            Some(Err(message)) => out matches Err(e) && e == message,
            Some(Ok(space)) => out matches Ok(RemoteCatalogResult::Created { selected, refreshed })
                && selected == space && refreshed == listed,
            None => match listed {
                Ok(spaces) => out matches Ok(RemoteCatalogResult::Listed(list)) && list == spaces,
                Err(message) => out matches Err(e) && e == message,
            },
        },
{
    match created {
        Some(Err(message)) => Err(message),
        Some(Ok(selected)) => Ok(RemoteCatalogResult::Created { selected, refreshed: listed }),
        None => match listed {
            Ok(spaces) => Ok(RemoteCatalogResult::Listed(spaces)),
            Err(message) => Err(message),
        },
    }
}

/// What came from a worker that asks another host.
#[derive(Debug)]
pub enum CatalogReply {
    /// Nothing so far.
    Nothing,
    /// The worker is gone.
    Stopped,
    Done(Result<RemoteCatalogResult, String>),
}

/// Why there is no answer.
#[derive(Debug)]
pub enum CatalogTaskError {
    /// The worker is gone.
    TaskStopped,
    Failed(String),
}

/// The answer of a worker, once it is there.
pub fn catalog_answer(reply: CatalogReply) -> (out: Option<Result<RemoteCatalogResult, CatalogTaskError>>)
    ensures
        match reply {
            CatalogReply::Nothing => out is None,
            CatalogReply::Stopped => out matches Some(Err(error)) && error
                == CatalogTaskError::TaskStopped,
            CatalogReply::Done(Ok(result)) => out matches Some(Ok(r)) && r == result,
            CatalogReply::Done(Err(message)) => out matches Some(Err(error)) && error
                == CatalogTaskError::Failed(message),
        },
{
    match reply {
        CatalogReply::Nothing => None,
        CatalogReply::Stopped => Some(Err(CatalogTaskError::TaskStopped)),
        CatalogReply::Done(Ok(result)) => Some(Ok(result)),
        CatalogReply::Done(Err(message)) => Some(Err(CatalogTaskError::Failed(message))),
    }
}

/// A space sees its own sessions only, and all of them.
pub proof fn spaces_are_apart(sessions: Seq<TaggedSession>, space_id: Seq<char>)
    ensures
        forall|s: TaggedSession|
            sessions_of(sessions, space_id).contains(s) <==> sessions.contains(s) && carries(
                s,
                space_id,
            ),
{
    let keep = |s: TaggedSession| carries(s, space_id);
    assert forall|s: TaggedSession|
        sessions_of(sessions, space_id).contains(s) <==> sessions.contains(s) && carries(
            s,
            space_id,
        ) by {
        filtered_sessions(sessions, keep, s);
    }
}

proof fn filtered_sessions(
    sessions: Seq<TaggedSession>,
    keep: spec_fn(TaggedSession) -> bool,
    s: TaggedSession,
)
    ensures
        sessions.filter(keep).contains(s) <==> sessions.contains(s) && keep(s),
    decreases sessions.len(),
{
    reveal(Seq::filter);
    if sessions.len() > 0 {
        let before = sessions.drop_last();
        let last = sessions.last();
        filtered_sessions(before, keep, s);
        let kept = before.filter(keep);
        assert(sessions[sessions.len() - 1] == last);
        if before.contains(s) {
            let i = choose|i: int| 0 <= i < before.len() && before[i] == s;
            assert(sessions[i] == s);
        }
        if sessions.contains(s) && s != last {
            let i = choose|i: int| 0 <= i < sessions.len() && sessions[i] == s;
            assert(before[i] == s);
        }
        if keep(last) {
            let more = kept.push(last);
            assert(more[kept.len() as int] == last);
            if kept.contains(s) {
                let i = choose|i: int| 0 <= i < kept.len() && kept[i] == s;
                assert(more[i] == s);
            }
            if more.contains(s) && s != last {
                let i = choose|i: int| 0 <= i < more.len() && more[i] == s;
                assert(kept[i] == s);
            }
        }
    }
}

/// Each kind of multiplexer has a name of its own, and two of them can be reached from elsewhere.
pub proof fn backends_have_their_names(backend: MultiplexerBackendConfig)
    ensures
        backend == MultiplexerBackendConfig::Herdr ==> name_of_backend(backend) == "herdr"@,
        backend == MultiplexerBackendConfig::Native ==> name_of_backend(backend) == "native"@,
        backend == MultiplexerBackendConfig::Rmux ==> name_of_backend(backend) == "rmux"@,
        backend == MultiplexerBackendConfig::Tmux ==> name_of_backend(backend) == "tmux"@,
        backend.works_remotely() <==> name_of_backend(backend) == "rmux"@ || name_of_backend(backend)
            == "tmux"@,
{
    reveal_strlit("herdr");
    reveal_strlit("native");
    reveal_strlit("rmux");
    reveal_strlit("tmux");
    assert("herdr"@.len() == 5);
    assert("native"@.len() == 6);
    assert("rmux"@.len() == 4);
    assert("tmux"@.len() == 4);
}

/// A space is offered to other hosts exactly where it is on this one and its multiplexer, its own or else
/// that of the host, can be reached from elsewhere.
pub proof fn local_spaces_are_offered(
    spaces: Seq<Space>,
    defaults: MultiplexerDefaults,
    space: Space,
)
    ensures
        is_local(SpaceRemoteOverride::Local, defaults),
        is_local(SpaceRemoteOverride::Inherit, defaults) <==> !defaults.has_remote,
        !is_local(SpaceRemoteOverride::Profile, defaults),
        !is_local(SpaceRemoteOverride::Inline, defaults),
        space.backend matches Some(own) ==> backend_of(space, defaults) == own,
        space.backend is None ==> backend_of(space, defaults) == defaults.backend,
        offered(spaces, defaults).contains(space) <==> {
            &&& spaces.contains(space)
            &&& is_local(space.remote, defaults)
            &&& backend_of(space, defaults) == MultiplexerBackendConfig::Rmux || backend_of(
                space,
                defaults,
            ) == MultiplexerBackendConfig::Tmux
        },
{
    let keep = |space: Space| is_offered(space, defaults);
    broadcast use {
        Seq::lemma_filter_pred,
        Seq::lemma_filter_contains,
        Seq::lemma_filter_contains_rev,
    };

    let kept = spaces.filter(keep);
    if kept.contains(space) {
        let i = choose|i: int| 0 <= i < kept.len() && kept[i] == space;
        assert(keep(kept[i]));
    }
    if spaces.contains(space) && keep(space) {
        let i = choose|i: int| 0 <= i < spaces.len() && spaces[i] == space;
        assert(keep(spaces[i]));
    }
}

/// What another host is told of a space is its id, its name and the multiplexer that it uses, in the
/// version that both hosts know.
pub proof fn summaries_tell_the_space(
    summary: RemoteSpaceSummary,
    space: Space,
    defaults: MultiplexerDefaults,
)
    requires
        is_summary_of(summary, space, defaults),
    ensures
        summary.catalog_version == 3,
        summary.id == space.remote_id,
        summary.name == space.name,
        space.backend matches Some(own) ==> summary.backend == own,
        space.backend is None ==> summary.backend == defaults.backend,
{
}

/// The sessions of a space are those that carry its id.
pub proof fn sessions_carry_their_space(
    sessions: Seq<TaggedSession>,
    session: TaggedSession,
    space_id: Seq<char>,
)
    ensures
        sessions_of(sessions, space_id).contains(session) <==> sessions.contains(session) && (
        session.space matches Some(id) && id@ == space_id),
{
    let keep = |s: TaggedSession| carries(s, space_id);
    broadcast use {
        Seq::lemma_filter_pred,
        Seq::lemma_filter_contains,
        Seq::lemma_filter_contains_rev,
    };

    let kept = sessions.filter(keep);
    if kept.contains(session) {
        let i = choose|i: int| 0 <= i < kept.len() && kept[i] == session;
        assert(keep(kept[i]));
    }
    if sessions.contains(session) && keep(session) {
        let i = choose|i: int| 0 <= i < sessions.len() && sessions[i] == session;
        assert(keep(sessions[i]));
    }
}

/// A space is found at the first place that has its id.
pub proof fn spaces_are_found_by_id(spaces: Seq<Space>, id: Seq<char>)
    ensures
        0 <= space_at(spaces, id) <= spaces.len(),
        space_at(spaces, id) < spaces.len() ==> spaces[space_at(spaces, id)].remote_id@ == id,
        forall|i: int| 0 <= i < space_at(spaces, id) ==> (#[trigger] spaces[i]).remote_id@ != id,
    decreases spaces.len(),
{
    if spaces.len() > 0 && spaces[0].remote_id@ != id {
        let rest = spaces.drop_first();
        spaces_are_found_by_id(rest, id);
        assert forall|i: int| 0 <= i < space_at(spaces, id) implies (
        #[trigger] spaces[i]).remote_id@ != id by {
            if i > 0 {
                assert(spaces[i] == rest[i - 1]);
            }
        }
    }
}

/// A list of spaces is foreign from its first space of another version on.
pub proof fn other_versions_are_foreign(spaces: Seq<RemoteSpaceSummary>)
    ensures
        0 <= foreign_at(spaces) <= spaces.len(),
        foreign_at(spaces) < spaces.len() ==> spaces[foreign_at(spaces)].catalog_version != 3,
        forall|i: int|
            0 <= i < foreign_at(spaces) ==> (#[trigger] spaces[i]).catalog_version == 3,
    decreases spaces.len(),
{
    if spaces.len() > 0 && spaces[0].catalog_version == REMOTE_SPACE_CATALOG_VERSION {
        let rest = spaces.drop_first();
        other_versions_are_foreign(rest);
        assert forall|i: int| 0 <= i < foreign_at(spaces) implies (
        #[trigger] spaces[i]).catalog_version == 3 by {
            if i > 0 {
                assert(spaces[i] == rest[i - 1]);
            }
        }
    }
}

/// An option that is given for each of several values stands before each of them, in their order.
pub proof fn option_stands_before_each(option: Seq<char>, values: Seq<Seq<char>>, i: int)
    ensures
        repeated(option, values).len() == 2 * values.len(),
        0 <= i < values.len() ==> repeated(option, values)[2 * i] == option && repeated(
            option,
            values,
        )[2 * i + 1] == values[i],
    decreases values.len(),
{
    if values.len() > 0 {
        option_stands_before_each(option, values.drop_last(), i);
    }
}

/// A command is about a session unless it makes one, and it is about the one that it names.
pub proof fn commands_name_their_session(command: MuxCommand)
    ensures
        session_of(command) is None <==> command is CreateProjectSession
            || command is CreateWorktreeSession,
        command matches MuxCommand::ActivateSession { session_id } ==> session_of(
            command,
        ) == Some(session_id),
        command matches MuxCommand::ActivateWindow { session_id, window_id } ==> session_of(
            command,
        ) == Some(session_id),
        command matches MuxCommand::NewWindow { session_id } ==> session_of(
            command,
        ) == Some(session_id),
        command matches MuxCommand::RenameWindow { session_id, window_id, name } ==> session_of(
            command,
        ) == Some(session_id),
        command matches MuxCommand::ActivateNextWindow { session_id } ==> session_of(
            command,
        ) == Some(session_id),
        command matches MuxCommand::ActivatePreviousWindow { session_id } ==> session_of(
            command,
        ) == Some(session_id),
        command matches MuxCommand::ActivateLastWindow { session_id } ==> session_of(
            command,
        ) == Some(session_id),
        command matches MuxCommand::ActivateWindowIndex { session_id, index } ==> session_of(
            command,
        ) == Some(session_id),
        command matches MuxCommand::MoveWindow { session_id, window_id, delta } ==> session_of(
            command,
        ) == Some(session_id),
        command matches MuxCommand::MoveWindowPreservingSelection { session_id, window_id, delta } ==> session_of(
            command,
        ) == Some(session_id),
        command matches MuxCommand::SplitPane { session_id, pane_id, direction } ==> session_of(
            command,
        ) == Some(session_id),
        command matches MuxCommand::SelectPane { session_id, pane_id } ==> session_of(
            command,
        ) == Some(session_id),
        command matches MuxCommand::SelectNextPane { session_id } ==> session_of(
            command,
        ) == Some(session_id),
        command matches MuxCommand::SelectPreviousPane { session_id } ==> session_of(
            command,
        ) == Some(session_id),
        command matches MuxCommand::KillPane { session_id, pane_id } ==> session_of(
            command,
        ) == Some(session_id),
        command matches MuxCommand::ClosePane { session_id, pane_id } ==> session_of(
            command,
        ) == Some(session_id),
        command matches MuxCommand::TogglePaneZoom { session_id, pane_id } ==> session_of(
            command,
        ) == Some(session_id),
        command matches MuxCommand::RenameSession { session_id, name } ==> session_of(
            command,
        ) == Some(session_id),
        command matches MuxCommand::DitchSession { session_id } ==> session_of(
            command,
        ) == Some(session_id),
        command matches MuxCommand::StampSession { session_id, space } ==> session_of(
            command,
        ) == Some(session_id),
{
}

}
