use bootty_app::cli::{
    asks_for_help, command_name, command_response, confirms, dynamic_help, fallback_name,
    parse_dynamic_arguments, response_lines, rpc_failure, transport_failure, ArgumentType,
    CliArgument, CliDescriptor, InvokeOutcome, ParseOutcome, ResponseLine, EXIT_COMMAND_FAILED,
    EXIT_CONFIRMATION, EXIT_DENIED, EXIT_STALE_TARGET, EXIT_TRANSPORT, EXIT_UNAVAILABLE, EXIT_USAGE,
};
use bootty_app::extensions::command::ResourceKind;
use bootty_app::extensions::json::Json;
use bootty_app::mux::command::MuxCommand;
use bootty_app::mux::snapshot::{MuxPaneAnchor, MuxSession};
use bootty_app::new_session::{
    effect_arguments, run_effect, RemoteEffect, RemoteNewSession, RemoteOutcome, RemoteTaskError,
    RemoteWorkers, TaskReply,
};
use bootty_app::program_link::{
    lies_in_bundle, link_action, link_search, needs_line, profile_line, takes_program_link,
    LinkAction, LinkAttempt, LinkPlace, LinkSearch,
};
use bootty_app::remote_catalog::{
    binding_is_local, catalog_answer, catalog_result, check_create, command_session_id, create,
    create_remote, create_remote_worktree, execute, favorite_answer, filter_snapshot_for_space,
    list, list_remote, list_remote_projects, list_remote_worktrees, remote_space_runtime,
    toggle_remote_project_favorite, validate_versions, worktree_answer, CatalogReply,
    CatalogTaskError, MultiplexerBackendConfig, MultiplexerDefaults, RemoteCatalogResult,
    RemoteSpaceError, RemoteSpaceSummary, Space, SpaceRemoteOverride, TaggedSession,
    TaggedSnapshot, REMOTE_SPACE_CATALOG_VERSION,
};

fn space(id: &str, remote: SpaceRemoteOverride, backend: Option<MultiplexerBackendConfig>) -> Space {
    Space { remote_id: id.to_owned(), name: format!("name of {id}"), remote, backend }
}

fn defaults() -> MultiplexerDefaults {
    MultiplexerDefaults { backend: MultiplexerBackendConfig::Native, has_remote: false }
}

fn spaces() -> Vec<Space> {
    vec![
        space("one", SpaceRemoteOverride::Local, Some(MultiplexerBackendConfig::Tmux)),
        space("two", SpaceRemoteOverride::Inherit, None),
        space("three", SpaceRemoteOverride::Profile, Some(MultiplexerBackendConfig::Tmux)),
        space("four", SpaceRemoteOverride::Inherit, Some(MultiplexerBackendConfig::Rmux)),
    ]
}

#[test]
fn spaces_are_offered_where_they_can_be_used() {
    let offered: Vec<String> =
        list(&spaces(), defaults()).into_iter().map(|summary| summary.id).collect();
    assert_eq!(offered, vec!["one", "four"]);
    let remote = MultiplexerDefaults { has_remote: true, ..defaults() };
    let offered: Vec<String> =
        list(&spaces(), remote).into_iter().map(|summary| summary.id).collect();
    assert_eq!(offered, vec!["one"]);
}

#[test]
fn requests_for_spaces_are_checked() {
    let tmux = MultiplexerBackendConfig::Tmux;
    assert_eq!(remote_space_runtime(&spaces(), defaults(), "one", tmux).unwrap(), tmux);
    assert!(matches!(
        remote_space_runtime(&spaces(), defaults(), "none", tmux),
        Err(RemoteSpaceError::Unavailable(text)) if text == "remote Space none is unavailable"
    ));
    assert!(matches!(
        remote_space_runtime(&spaces(), defaults(), "three", tmux),
        Err(RemoteSpaceError::PointsToAnotherHost(text))
            if text == "remote Space three points to another SSH host"
    ));
    assert!(matches!(
        remote_space_runtime(&spaces(), defaults(), "four", tmux),
        Err(RemoteSpaceError::BackendChanged { actual: "rmux", expected: "tmux" })
    ));
}

#[test]
fn spaces_are_made_with_names_and_backends() {
    assert!(check_create(MultiplexerBackendConfig::Native).is_err());
    assert!(matches!(
        create(None, MultiplexerBackendConfig::Tmux),
        Err(RemoteSpaceError::NameEmpty)
    ));
    let made = space("new", SpaceRemoteOverride::Local, None);
    let summary = create(Some(made), MultiplexerBackendConfig::Tmux).unwrap();
    assert_eq!(summary.catalog_version, REMOTE_SPACE_CATALOG_VERSION);
    assert_eq!(
        create_remote("n", MultiplexerBackendConfig::Rmux).unwrap(),
        vec!["remote-space", "create", "--name", "n", "--backend", "rmux"]
    );
    assert!(matches!(
        create_remote("n", MultiplexerBackendConfig::Herdr),
        Err(RemoteSpaceError::BackendUnsupported)
    ));
    let mut other = summary.clone();
    other.catalog_version = 2;
    validate_versions(&[summary.clone()]).unwrap();
    assert!(matches!(
        validate_versions(&[summary, other]),
        Err(RemoteSpaceError::CatalogVersionUnsupported(text))
            if text == "remote Space catalog version 2 is not supported"
    ));
}

fn tagged(id: &str, space: Option<&str>) -> TaggedSession {
    TaggedSession {
        session: MuxSession {
            id: id.to_owned(),
            name: id.to_owned(),
            active: false,
            anchor: MuxPaneAnchor {
                session_id: id.to_owned(),
                pane_id: None,
                cwd: None,
                process: None,
            },
            active_window_id: None,
            windows: Vec::new(),
        },
        space: space.map(str::to_owned),
    }
}

#[test]
fn spaces_see_their_own_sessions() {
    let snapshot = TaggedSnapshot {
        sessions: vec![tagged("a", Some("one")), tagged("b", None), tagged("c", Some("two"))],
        active_session_id: Some("c".to_owned()),
    };
    let seen = filter_snapshot_for_space(snapshot, "one");
    assert_eq!(seen.sessions.len(), 1);
    assert_eq!(seen.sessions[0].session.id, "a");
    assert_eq!(seen.active_session_id, None);
    let command = MuxCommand::DitchSession { session_id: "c".to_owned() };
    assert_eq!(command_session_id(&command), Some("c"));
    assert!(execute(&command, Some(&tagged("c", Some("one"))), "one").is_ok());
    assert!(matches!(
        execute(&command, Some(&tagged("c", Some("two"))), "one"),
        Err(RemoteSpaceError::SessionDoesNotBelong(text))
            if text == "session does not belong to remote Space one"
    ));
    assert!(matches!(
        execute(&command, None, "one"),
        Err(RemoteSpaceError::SessionUnavailable)
    ));
    let made = MuxCommand::CreateProjectSession {
        session_id: "n".to_owned(),
        cwd: "/".to_owned(),
    };
    assert!(execute(&made, None, "one").is_ok());
}

#[test]
fn setups_wait_for_one_answer_at_a_time() {
    let mut workers = RemoteWorkers::new();
    let mut setup = RemoteNewSession::new();
    assert!(!setup.is_busy());
    let plan = setup.start(&mut workers);
    assert!(plan.spawn && !plan.cancel && setup.is_busy());
    assert!(setup.poll(TaskReply::Nothing).is_none());
    let plan = setup.start(&mut workers);
    assert!(!plan.spawn && plan.cancel);
    assert!(matches!(
        setup.poll(TaskReply::Nothing),
        Some(Err(RemoteTaskError::OperationStopping))
    ));
    assert!(!setup.is_busy());
    workers.release();
    assert!(setup.start(&mut workers).spawn);
    assert!(matches!(setup.poll(TaskReply::Stopped), Some(Err(RemoteTaskError::TaskStopped))));
}

#[test]
fn answers_of_other_hosts_are_read() {
    let favorite = RemoteEffect::ToggleFavorite("/p".to_owned());
    assert_eq!(
        effect_arguments(&favorite),
        vec!["remote-project", "favorite", "--path", "/p"]
    );
    let outcome = run_effect(favorite, Ok(" true ".to_owned())).unwrap();
    assert!(matches!(outcome, RemoteOutcome::Favorite { favorite: true, .. }));
    let made = RemoteEffect::CreateWorktree("/p".to_owned(), "b".to_owned());
    let outcome = run_effect(made, Ok("\"/p-b\"".to_owned())).unwrap();
    assert!(matches!(outcome, RemoteOutcome::CreatedWorktree(path) if path == "/p-b"));
    let odd = RemoteEffect::ToggleFavorite("/p".to_owned());
    assert!(run_effect(odd, Ok("\"yes\"".to_owned())).is_err());
    let failed = run_effect(RemoteEffect::ListProjects, Err("refused".to_owned()));
    assert_eq!(failed.unwrap_err(), "refused");
    assert_eq!(
        list_remote_worktrees("/p", &["/a".to_owned(), "/b".to_owned()]),
        vec!["remote-worktree", "list", "--project", "/p", "--open-cwd", "/a", "--open-cwd", "/b"]
    );
}

fn descriptor() -> CliDescriptor {
    CliDescriptor {
        id: "mux.move_window".to_owned(),
        title: "Move window".to_owned(),
        description: "Moves a window.".to_owned(),
        arguments: vec![
            CliArgument {
                name: "window_id".to_owned(),
                value_type: ArgumentType::Text,
                choices: Vec::new(),
            },
            CliArgument {
                name: "delta".to_owned(),
                value_type: ArgumentType::Integer,
                choices: vec!["-1".to_owned(), "1".to_owned()],
            },
        ],
        target: Some(ResourceKind::Session),
        destructive: true,
    }
}

fn words(list: &[&str]) -> Vec<String> {
    list.iter().map(|word| word.to_string()).collect()
}

fn failure(raw: &[&str]) -> String {
    match parse_dynamic_arguments(&descriptor(), &words(raw), &[]) {
        ParseOutcome::Failed(message) => message,
        other => panic!("the arguments are wrong: {other:?}"),
    }
}

#[test]
fn arguments_come_by_name_or_place() {
    let raw = words(&["--window-id", "@1", "1", "--yes", "--target", "a@b@7"]);
    let ParseOutcome::Done(read) = parse_dynamic_arguments(&descriptor(), &raw, &[]) else {
        panic!("the arguments are right");
    };
    assert_eq!(read.arguments, vec!["@1", "1"]);
    assert!(read.confirmed);
    let target = read.target.unwrap();
    assert_eq!((target.handle.as_str(), target.generation), ("a@b", 7));
    assert_eq!(target.kind, ResourceKind::Session);
}

#[test]
fn arguments_come_from_the_standard_input() {
    let raw = words(&["--stdin-json"]);
    assert!(matches!(
        parse_dynamic_arguments(&descriptor(), &raw, &[]),
        ParseOutcome::NeedsInput
    ));
    let ParseOutcome::Done(read) =
        parse_dynamic_arguments(&descriptor(), &raw, &["[\"@1\", 1.50]".to_owned()])
    else {
        panic!("the arguments are right");
    };
    assert_eq!(read.arguments, vec!["@1", "1.5"]);
    assert!(matches!(
        parse_dynamic_arguments(&descriptor(), &raw, &["[true]".to_owned()]),
        ParseOutcome::Failed(message) if message == "command arguments must be strings or numbers"
    ));
    assert!(matches!(
        parse_dynamic_arguments(&descriptor(), &raw, &["{".to_owned()]),
        ParseOutcome::Failed(_)
    ));
}

#[test]
fn wrong_arguments_are_explained() {
    assert_eq!(failure(&["--target"]), "--target requires HANDLE@GENERATION");
    assert_eq!(failure(&["--target", "a"]), "--target requires HANDLE@GENERATION");
    assert_eq!(failure(&["--target", "a@x"]), "invalid target generation");
    assert_eq!(failure(&["--delta", "1"]), "expected --window-id, got --delta");
    assert_eq!(failure(&["--window-id"]), "--window-id requires a value");
    assert_eq!(failure(&["a", "b", "--more", "c"]), "too many command arguments");
    assert_eq!(failure(&["a"]), "command mux.move_window expects 2 argument(s), got 1");
    let mut plain = descriptor();
    plain.target = None;
    assert!(matches!(
        parse_dynamic_arguments(&plain, &words(&["--target", "a@1"]), &[]),
        ParseOutcome::Failed(message) if message == "command does not accept a target"
    ));
}

#[test]
fn commands_are_looked_up_by_name() {
    assert_eq!(command_name("mux.move-window"), "mux.move_window");
    assert_eq!(fallback_name("mux.move_window", Some(-32602)).as_deref(), Some("move_window"));
    assert_eq!(fallback_name("mux.move_window", Some(-32601)), None);
    assert_eq!(fallback_name("move_window", Some(-32602)), None);
    assert!(asks_for_help(&words(&["a", "-h"])));
    assert!(!asks_for_help(&words(&["a"])));
    assert_eq!(
        dynamic_help("mux.move-window", &descriptor()),
        vec![
            "mux.move-window \u{2014} Move window",
            "Moves a window.",
            "  --window-id STRING",
            "  --delta <-1|1>",
            "  --target HANDLE@GENERATION",
            "  --yes",
        ]
    );
}

#[test]
fn failures_have_exit_codes() {
    let message = || "m".to_owned();
    let code = |outcome: InvokeOutcome| command_response(Some(outcome)).unwrap_err().code;
    assert!(command_response(None).is_ok());
    assert!(command_response(Some(InvokeOutcome::Success)).is_ok());
    assert_eq!(code(InvokeOutcome::Unsupported { message: message() }), EXIT_UNAVAILABLE);
    assert_eq!(code(InvokeOutcome::Unavailable { message: message() }), EXIT_UNAVAILABLE);
    assert_eq!(code(InvokeOutcome::Denied { message: message() }), EXIT_DENIED);
    assert_eq!(code(InvokeOutcome::StaleTarget { message: message() }), EXIT_STALE_TARGET);
    assert_eq!(code(InvokeOutcome::ConfirmationRequired), EXIT_CONFIRMATION);
    assert_eq!(code(InvokeOutcome::Failed { message: message() }), EXIT_COMMAND_FAILED);
    let refused = rpc_failure(-32602, "bad");
    assert_eq!((refused.code, refused.message.as_str()), (EXIT_USAGE, "bad (-32602)"));
    assert_eq!(rpc_failure(-32006, "no").code, EXIT_DENIED);
    assert_eq!(rpc_failure(i64::MIN, "x").message, "x (-9223372036854775808)");
    assert_eq!(rpc_failure(7, "x").code, EXIT_TRANSPORT);
    assert_eq!(transport_failure("gone".to_owned()).code, EXIT_TRANSPORT);
    assert!(confirms(true, Some(&InvokeOutcome::ConfirmationRequired)));
    assert!(!confirms(false, Some(&InvokeOutcome::ConfirmationRequired)));
}

#[test]
fn answers_are_printed_by_identifier() {
    let items = Json::Array(vec![
        Json::Object(vec![("id".to_owned(), Json::Text("mux.move_window".to_owned()))]),
        Json::Bool(true),
    ]);
    let lines = response_lines(&items);
    assert!(matches!(&lines[0], ResponseLine::Text(id) if id == "mux.move_window"));
    assert!(matches!(lines[1], ResponseLine::Item(1)));
    assert!(response_lines(&Json::Null).is_empty());
    assert!(matches!(response_lines(&Json::Bool(true))[0], ResponseLine::Whole));
}

#[test]
fn programs_are_linked_where_users_look() {
    assert!(takes_program_link("/home/u/.local/bin/", "/home/u"));
    assert!(takes_program_link("/opt/homebrew/bin", "/home/u"));
    assert!(!takes_program_link("/usr/bin", "/home/u"));
    assert!(lies_in_bundle("/Applications/Bootty.app/Contents/MacOS/bootty"));
    assert!(!lies_in_bundle("/usr/bin/bootty"));
    assert!(matches!(link_action(LinkPlace::Nothing, "/b"), LinkAction::Create));
    assert!(matches!(link_action(LinkPlace::Other, "/b"), LinkAction::Keep));
    assert!(matches!(link_action(LinkPlace::Link("/b".to_owned()), "/b"), LinkAction::Keep));
    assert!(matches!(link_action(LinkPlace::Link("/a".to_owned()), "/b"), LinkAction::Replace));
    assert!(matches!(link_search(LinkAttempt::Denied), LinkSearch::TryNext));
    assert!(matches!(link_search(LinkAttempt::Done), LinkSearch::Linked));
    assert!(needs_line("a\nb\n", "c") && !needs_line("a\nb\n", "b"));
    assert_eq!(profile_line(Some("zsh")).0, ".zprofile");
    assert_eq!(profile_line(Some("fish")).1, "fish_add_path \"$HOME/.local/bin\"");
    assert_eq!(profile_line(None).0, ".profile");
}

#[test]
fn summaries_can_be_compared() {
    let one = RemoteSpaceSummary {
        catalog_version: 3,
        id: "a".to_owned(),
        name: "n".to_owned(),
        backend: MultiplexerBackendConfig::Tmux,
    };
    assert_eq!(one, one.clone());
}

#[test]
fn lists_that_fail_do_not_undo_a_new_space() {
    let made = RemoteSpaceSummary {
        catalog_version: 3,
        id: "a".to_owned(),
        name: "n".to_owned(),
        backend: MultiplexerBackendConfig::Tmux,
    };
    let result = catalog_result(Some(Ok(made)), Err("gone".to_owned())).unwrap();
    assert!(matches!(
        &result,
        RemoteCatalogResult::Created { refreshed: Err(message), .. } if message == "gone"
    ));
    assert!(catalog_result(None, Err("gone".to_owned())).is_err());
    assert!(catalog_answer(CatalogReply::Nothing).is_none());
    assert!(matches!(
        catalog_answer(CatalogReply::Stopped),
        Some(Err(CatalogTaskError::TaskStopped))
    ));
    assert!(matches!(catalog_answer(CatalogReply::Done(Ok(result))), Some(Ok(_))));
}

#[test]
fn plain_answers_of_other_hosts_are_read() {
    assert_eq!(favorite_answer(" false\n"), Ok(false));
    assert!(favorite_answer("maybe").is_err());
    assert_eq!(worktree_answer("\"/p/a\\tb\"").unwrap(), "/p/a\tb");
    assert!(worktree_answer("/p/a").is_err());
    assert_eq!(list_remote(), vec!["remote-space", "list"]);
    assert_eq!(list_remote_projects(), vec!["remote-project", "list"]);
    assert_eq!(
        toggle_remote_project_favorite("/p"),
        vec!["remote-project", "favorite", "--path", "/p"]
    );
    assert_eq!(
        create_remote_worktree("/p", "new"),
        vec!["remote-worktree", "create", "--project", "/p", "--branch", "new"]
    );
}

#[test]
fn spaces_are_local_unless_they_say_otherwise() {
    let remote = MultiplexerDefaults { has_remote: true, ..defaults() };
    assert!(binding_is_local(SpaceRemoteOverride::Inherit, defaults()));
    assert!(!binding_is_local(SpaceRemoteOverride::Inherit, remote));
    assert!(binding_is_local(SpaceRemoteOverride::Local, remote));
    assert!(!binding_is_local(SpaceRemoteOverride::Profile, defaults()));
    assert!(!binding_is_local(SpaceRemoteOverride::Inline, defaults()));
}
