use bootty_app::mux::backend::MuxBackend;
use bootty_app::mux::command::{MuxBackendKind, MuxCommand};
use bootty_app::mux::controller::{
    selected_window_after_refresh, stable_session_order, CommandReply, MuxController,
    NewMuxSessionRequest, RefreshReply, RefreshStep,
};
use bootty_app::mux::order::{
    compute_order, load, load_lines, move_session, session_group, SessionGroup, SessionStore,
};
use bootty_app::mux::sidebar_meta::{
    build_process_info, collect_sidebar_metadata, ct_bin, git_branch, is_agent_asking,
    parse_agent_status, parse_agent_target, parse_git_numstat, parse_tmux_active_pane_process, parse_tmux_session_options, subtree_usage,
    AgentProgram, AgentStyle, DiffStat, ProcessStatus, SessionProcess, SessionReport,
};
use bootty_app::mux::snapshot::{MuxPaneAnchor, MuxSession, MuxSnapshot, MuxWindow};
use bootty_app::text_set::TextSet;

struct FakeBackend {
    sessions: Vec<MuxSession>,
    commands: Vec<MuxCommand>,
}

impl MuxBackend for FakeBackend {
    fn kind(&self) -> MuxBackendKind {
        MuxBackendKind::Native
    }

    fn snapshot(&self) -> Result<MuxSnapshot, String> {
        Ok(MuxSnapshot {
            active_session_id: self
                .sessions
                .iter()
                .find(|session| session.active)
                .map(|session| session.id.clone()),
            sessions: self.sessions.clone(),
        })
    }

    fn execute(&mut self, command: MuxCommand) -> Result<(), String> {
        self.commands.push(command);
        Ok(())
    }
}

fn session(id: &str, name: &str) -> MuxSession {
    MuxSession {
        id: id.to_owned(),
        name: name.to_owned(),
        active: false,
        anchor: MuxPaneAnchor {
            session_id: id.to_owned(),
            pane_id: None,
            cwd: None,
            process: None,
        },
        active_window_id: None,
        windows: Vec::new(),
    }
}

#[test]
fn fake_backend_contract_covers_session_lifecycle_and_anchors() {
    let mut backend = FakeBackend {
        sessions: vec![MuxSession {
            id: "project".to_owned(),
            name: "project".to_owned(),
            active: true,
            anchor: MuxPaneAnchor {
                session_id: "project".to_owned(),
                pane_id: Some("pane-1".to_owned()),
                cwd: Some("/repo".to_owned()),
                process: Some("zsh".to_owned()),
            },
            active_window_id: None,
            windows: Vec::new(),
        }],
        commands: Vec::new(),
    };

    let snapshot = backend.snapshot().unwrap();
    assert_eq!(snapshot.active_session_id.as_deref(), Some("project"));
    assert_eq!(snapshot.sessions[0].anchor.cwd.as_deref(), Some("/repo"));

    let commands = [
        MuxCommand::ActivateSession { session_id: "project".to_owned() },
        MuxCommand::ActivateWindow {
            session_id: "project".to_owned(),
            window_id: "@1".to_owned(),
        },
        MuxCommand::CreateProjectSession {
            session_id: "next".to_owned(),
            cwd: "/next".to_owned(),
        },
        MuxCommand::CreateWorktreeSession {
            session_id: "worktree".to_owned(),
            cwd: "/repo-worktree".to_owned(),
        },
        MuxCommand::RenameSession {
            session_id: "project".to_owned(),
            name: "renamed".to_owned(),
        },
        MuxCommand::DitchSession { session_id: "renamed".to_owned() },
    ];
    for command in commands.clone() {
        backend.execute(command).unwrap();
    }

    assert_eq!(backend.commands, commands);
}

#[test]
fn selected_session_anchor_resolves_by_backend_id_or_session_name() {
    let anchor = MuxPaneAnchor {
        session_id: "$7".to_owned(),
        pane_id: Some("%9".to_owned()),
        cwd: None,
        process: None,
    };
    let mut controller = MuxController {
        sessions: vec![MuxSession {
            id: "$7".to_owned(),
            name: "piu".to_owned(),
            active: false,
            anchor: anchor.clone(),
            active_window_id: Some("@2".to_owned()),
            windows: vec![MuxWindow {
                id: "@2".to_owned(),
                index: 1,
                name: "editor".to_owned(),
                active: true,
                anchor: MuxPaneAnchor {
                    session_id: "$7".to_owned(),
                    pane_id: Some("%11".to_owned()),
                    cwd: None,
                    process: Some("nvim".to_owned()),
                },
            }],
        }],
        selected_session: Some("piu".to_owned()),
        ..Default::default()
    };

    assert_eq!(
        controller
            .selected_session_anchor()
            .map(|anchor| anchor.session_id.as_str()),
        Some("$7")
    );

    controller.selected_session = Some("$7".to_owned());
    assert_eq!(
        controller
            .selected_session_anchor()
            .and_then(|anchor| anchor.pane_id.as_deref()),
        Some("%9")
    );

    controller.selected_window = Some("@2".to_owned());
    assert_eq!(
        controller
            .selected_session_anchor()
            .and_then(|anchor| anchor.pane_id.as_deref()),
        Some("%11")
    );
    assert_eq!(controller.selected_session_windows().len(), 1);
}

#[test]
fn stable_session_order_preserves_existing_order_and_appends_new_sessions() {
    let previous = vec![session("$2", "work"), session("$1", "main"), session("$4", "old")];
    let refreshed = vec![session("$1", "main"), session("$3", "new"), session("$2", "work")];

    let ordered = stable_session_order(&previous, refreshed);

    assert_eq!(
        ordered
            .iter()
            .map(|session| session.id.as_str())
            .collect::<Vec<_>>(),
        vec!["$2", "$1", "$3"]
    );
}

#[test]
fn refreshing_keeps_the_order_and_the_selection() {
    let mut controller = MuxController::new(10_000);
    let step = controller.refresh_sessions(RefreshReply::Nothing, 10_000);
    assert!(matches!(step, RefreshStep::Start));
    assert!(matches!(
        controller.refresh_sessions(RefreshReply::Nothing, 10_500),
        RefreshStep::Wait
    ));
    let snapshot = MuxSnapshot {
        sessions: vec![session("$2", "work"), session("$1", "main")],
        active_session_id: Some("$2".to_owned()),
    };
    let step = controller.refresh_sessions(
        RefreshReply::Done(Ok((MuxBackendKind::Tmux, snapshot))),
        10_600,
    );
    let RefreshStep::Choose { backend, snapshot, session: preferred, window } = step else {
        panic!("a snapshot has to be applied: {step:?}");
    };
    assert_eq!(preferred, None);
    controller.apply_snapshot(backend, snapshot, Some("$1".to_owned()), window);
    assert_eq!(controller.selected_session(), Some("$1"));

    assert!(matches!(
        controller.refresh_sessions(RefreshReply::Nothing, 11_000),
        RefreshStep::Start
    ));
    let snapshot = MuxSnapshot {
        sessions: vec![session("$1", "main"), session("$3", "new"), session("$2", "work")],
        active_session_id: None,
    };
    let step = controller.refresh_sessions(
        RefreshReply::Done(Ok((MuxBackendKind::Tmux, snapshot))),
        11_100,
    );
    let RefreshStep::Choose { snapshot, session: preferred, .. } = step else {
        panic!("a snapshot has to be applied");
    };
    assert_eq!(preferred.as_deref(), Some("$1"));
    let ids: Vec<&str> = snapshot.sessions.iter().map(|s| s.id.as_str()).collect();
    assert_eq!(ids, vec!["$2", "$1", "$3"]);
}

#[test]
fn workers_that_stop_are_reported() {
    let mut controller = MuxController::new(0);
    assert!(controller.poll_command(CommandReply::Stopped, 1).is_none());
    controller.commanding = true;
    let result = controller.poll_command(CommandReply::Stopped, 1).unwrap();
    assert_eq!(result.unwrap_err(), "mux command worker stopped");
    controller.refreshing = true;
    let step = controller.refresh_sessions(RefreshReply::Stopped, 5_000);
    let RefreshStep::Failed(message) = step else {
        panic!("the failure has to be reported");
    };
    assert_eq!(message, "mux session refresh worker stopped");
}

#[test]
fn commands_run_one_at_a_time() {
    let mut controller = MuxController::new(0);
    let request = controller.create_project_session(NewMuxSessionRequest {
        session_id: "next".to_owned(),
        cwd: "/next".to_owned(),
    });
    let (command, selected) = controller.start_command(request).unwrap();
    assert_eq!(
        command,
        MuxCommand::CreateProjectSession {
            session_id: "next".to_owned(),
            cwd: "/next".to_owned()
        }
    );
    assert_eq!(selected.as_deref(), Some("next"));
    assert_eq!(controller.selected_session(), Some("next"));
    let request = controller.activate_session("other");
    assert!(controller.start_command(request).is_none());
    assert_eq!(controller.selected_session(), Some("other"));
    let done = controller.poll_command(CommandReply::Done(Ok(Some("next".to_owned()))), 950);
    assert!(matches!(done, Some(Ok(()))));
    assert_eq!(controller.last_session_refresh, Some(50));
    assert_eq!(controller.selected_session(), Some("next"));
}

fn alive(names: &[&str]) -> TextSet {
    let mut set = TextSet::new();
    for name in names {
        set.insert(name);
    }
    set
}

#[test]
fn sessions_are_listed_by_group() {
    assert_eq!(session_group("bootty/main"), "bootty");
    assert_eq!(session_group("scratch"), "");
    let mut store = SessionStore::new();
    let order = compute_order(&mut store, &alive(&["zeta", "bootty/b", "alpha", "bootty/a"]), &[]);
    assert_eq!(order, vec!["alpha", "zeta", "bootty/a", "bootty/b"]);
    let order = compute_order(&mut store, &alive(&["zeta", "bootty/b"]), &["zeta".to_owned()]);
    assert_eq!(order, vec!["bootty/b"]);
    assert_eq!(store.ordered_names(), vec!["zeta", "bootty/b"]);
}

#[test]
fn moving_a_session_keeps_all_sessions() {
    let names: Vec<String> =
        ["a/1", "a/2", "plain", "b/1", "b/2"].iter().map(|s| s.to_string()).collect();
    let mut store = SessionStore::from_flat_list(&names);
    assert!(move_session(&mut store, "a/1", 1));
    assert_eq!(store.ordered_names(), vec!["a/2", "a/1", "plain", "b/1", "b/2"]);
    assert!(move_session(&mut store, "a/1", -1));
    assert_eq!(store.ordered_names(), names);
    assert!(!move_session(&mut store, "plain", -1));
    assert!(!move_session(&mut store, "plain", 1));
    assert!(!move_session(&mut store, "missing", 1));
    assert!(!move_session(&mut store, "a/1", 0));
    assert!(move_session(&mut store, "b/1", -1));
    assert_eq!(store.ordered_names(), vec!["a/1", "a/2", "b/1", "b/2", "plain"]);
}

#[test]
fn a_session_becomes_the_head_of_its_group() {
    let names: Vec<String> = ["work", "work/one"].iter().map(|s| s.to_string()).collect();
    let mut store = SessionStore::from_flat_list(&names);
    assert_eq!(store.entries.len(), 1);
    assert_eq!(store.entries[0].name, "work");
    store.normalize_groups();
    assert_eq!(store.entries.len(), 2);
    assert_eq!(store.ordered_names(), names);
}

#[test]
fn parses_git_numstat_into_added_and_removed_totals() {
    assert_eq!(
        parse_git_numstat("7\t4\tsrc/lib.rs\n-\t-\timage.png\n3\t2\tREADME.md\n"),
        Some(DiffStat { added: 10, removed: 6 })
    );
}

#[test]
fn empty_git_numstat_has_no_diff() {
    assert_eq!(parse_git_numstat(""), None);
}

#[test]
fn large_diffs_stop_at_the_largest_number() {
    assert_eq!(
        parse_git_numstat("4294967295\t0\ta\n7\t1\tb\n"),
        Some(DiffStat { added: u32::MAX, removed: 1 })
    );
}

#[test]
fn parses_tmux_status_and_progress_options() {
    let meta = parse_tmux_session_options("1\treview needed\t142\n").unwrap();

    assert!(meta.attention);
    assert_eq!(meta.status.as_deref(), Some("review needed"));
    assert_eq!(meta.progress, Some(100));
}

fn agents() -> Vec<AgentProgram> {
    vec![
        AgentProgram { name: "starry".to_owned(), style: AgentStyle::Star },
        AgentProgram { name: "codex".to_owned(), style: AgentStyle::Bullet },
        AgentProgram { name: "opencode".to_owned(), style: AgentStyle::Hint },
    ]
}

#[test]
fn panes_are_read_from_their_lines() {
    assert_eq!(
        parse_tmux_active_pane_process("$1\t1\t42\t/usr/bin/nvim"),
        Some(("$1".to_owned(), "42".to_owned(), "nvim".to_owned()))
    );
    assert_eq!(parse_tmux_active_pane_process("$1\t0\t42\tnvim"), None);
    assert_eq!(
        parse_agent_target(&agents(), "$1\t1\t%2\tCodex"),
        Some(("$1".to_owned(), "%2".to_owned(), "codex".to_owned()))
    );
    assert_eq!(parse_agent_target(&agents(), "$1\t1\t%2\tzsh"), None);
}

#[test]
fn agents_report_what_they_do() {
    assert_eq!(
        parse_agent_status(&agents(), "starry", "text\n\u{273B} Thinking\u{2026} (3s)\n> ").as_deref(),
        Some("starry Thinking\u{2026}")
    );
    assert_eq!(
        parse_agent_status(&agents(), "codex", "  \u{2022} Working (2s)").as_deref(),
        Some("codex Working\u{2026}")
    );
    assert_eq!(
        parse_agent_status(&agents(), "opencode", "esc to interrupt").as_deref(),
        Some("opencode Working\u{2026}")
    );
    assert_eq!(
        parse_agent_status(&agents(), "starry", "1. yes\nEnter to select").as_deref(),
        Some("starry asking")
    );
    assert_eq!(parse_agent_status(&agents(), "zsh", "anything"), None);
}

#[test]
fn process_trees_are_summed_up() {
    let samples = build_process_info(
        "  1     0  0.0  100\n 10     1  1.5   10\n 11    10  0.5   20\n 20     1  9.0   30\nbad line\n",
    );
    let usage = subtree_usage(&samples, 10);
    assert_eq!(usage.mem_bytes, 30 * 1024);
    assert_eq!(usage.cpu, vec!["1.5".to_owned(), "0.5".to_owned()]);
    assert_eq!(subtree_usage(&samples, 1).mem_bytes, 160 * 1024);
    assert_eq!(subtree_usage(&samples, 99).mem_bytes, 0);
}

#[test]
fn sidebar_metadata_is_put_together_by_session() {
    let reports = vec![
        SessionReport {
            id: "$1".to_owned(),
            name: "main".to_owned(),
            branch: Some(" trunk \n".to_owned()),
            diff: Some("1\t2\tf\n".to_owned()),
            options: None,
        },
        SessionReport {
            id: "$2".to_owned(),
            name: "idle".to_owned(),
            branch: Some("\n".to_owned()),
            diff: None,
            options: Some("\t\t\n".to_owned()),
        },
    ];
    let agents = vec![("$1".to_owned(), "codex asking".to_owned())];
    let processes = vec![SessionProcess {
        session_id: "$1".to_owned(),
        cpu: "1.5%".to_owned(),
        status: ProcessStatus { name: "nvim".to_owned(), cpu_bits: 1.5f32.to_bits(), mem_bytes: 7 },
    }];
    let metadata =
        collect_sidebar_metadata(&reports, Some("bar one\n   \nbar two\n"), &agents, &processes);
    assert_eq!(metadata.usage_lines(), ["bar one".to_owned(), "bar two".to_owned()]);
    assert!(metadata.get("idle").is_none());
    let main = metadata.get("main").unwrap();
    assert_eq!(main.branch.as_deref(), Some("trunk"));
    assert_eq!(main.diff, Some(DiffStat { added: 1, removed: 2 }));
    assert_eq!(main.agent_status.as_deref(), Some("codex asking"));
    assert_eq!(main.process_cpu.as_deref(), Some("1.5%"));
    assert_eq!(main.processes[0].name, "nvim");
}

#[test]
fn windows_stay_selected_while_they_last() {
    let window = |id: &str| MuxWindow {
        id: id.to_owned(),
        index: 0,
        name: id.to_owned(),
        active: false,
        anchor: session("$1", "main").anchor,
    };
    let mut main = session("$1", "main");
    main.windows = vec![window("@1"), window("@2")];
    main.active_window_id = Some("@2".to_owned());
    let sessions = vec![main];
    let after = |selected: Option<&str>, current: Option<&str>| {
        selected_window_after_refresh(selected, current.map(str::to_owned), &sessions)
    };
    assert_eq!(after(Some("$1"), Some("@1")).as_deref(), Some("@1"));
    assert_eq!(after(Some("$1"), Some("@9")).as_deref(), Some("@2"));
    assert_eq!(after(Some("$1"), None).as_deref(), Some("@2"));
    assert_eq!(after(None, Some("@1")), None);

    let mut controller = MuxController::new(0);
    let request = controller.activate_window("$1", "@2");
    assert_eq!(controller.selected_window(), Some("@2"));
    assert!(matches!(request.command, MuxCommand::ActivateWindow { .. }));
    let request = controller.execute_command(MuxCommand::ActivateSession {
        session_id: "$1".to_owned(),
    });
    assert_eq!(request.session, None);
    assert!(!MuxController::runs_at_once(MuxBackendKind::Tmux));
    assert!(MuxController::runs_at_once(MuxBackendKind::Native));
}

#[test]
fn lines_of_other_programs_are_read() {
    assert_eq!(git_branch(" trunk \n").as_deref(), Some("trunk"));
    assert_eq!(git_branch(" \n"), None);
    assert!(is_agent_asking(AgentStyle::Star, "1. yes\nEnter to select"));
    assert!(!is_agent_asking(AgentStyle::Star, "done"));
    assert_eq!(ct_bin(Some("/x/ct".to_owned()), "/i/ct", true), "/x/ct");
    assert_eq!(ct_bin(None, "/i/ct", true), "/i/ct");
    assert_eq!(ct_bin(None, "/i/ct", false), "ct");
}

#[test]
fn sessions_that_ended_leave_their_group() {
    let mut store = SessionStore::from_flat_list(&[
        "a".to_owned(),
        "a/one".to_owned(),
        "b".to_owned(),
    ]);
    assert!(store.find_session("a/one").is_some());
    store.prune(&alive(&["a", "b"]));
    assert!(store.find_session("a/one").is_none());
    assert!(store.find_session("b").is_some());
}

#[test]
fn groups_are_loaded_from_where_they_were_saved() {
    assert_eq!(load_lines("a\n\nb/c\r\n"), vec!["a".to_owned(), "b/c".to_owned()]);
    let names = |store: &SessionStore| store.ordered_names();
    let (store, unsaved) = load(None, Some("b/c\na\nb\na\n"));
    assert_eq!(names(&store), vec!["b/c".to_owned(), "a".to_owned(), "b".to_owned()]);
    assert!(unsaved);
    let (store, unsaved) = load(Some(store), Some("x\n"));
    assert_eq!(names(&store), vec!["b/c".to_owned(), "a".to_owned(), "b".to_owned()]);
    assert!(!unsaved);
    assert!(names(&load(None, None).0).is_empty());
}

#[test]
fn moving_back_undoes_a_move() {
    let names: Vec<String> =
        ["a", "g/1", "g/2", "h/1"].iter().map(|name| (*name).to_owned()).collect();
    for name in ["a", "g/1"] {
        let mut store = SessionStore::from_flat_list(&names);
        assert!(store.move_session(name, 1));
        assert_ne!(store.ordered_names(), names);
        assert!(store.move_session(name, -1));
        assert_eq!(store.ordered_names(), names);
    }
    let mut store = SessionStore::from_flat_list(&names);
    assert!(store.move_session("g/2", 1));
    assert_eq!(store.ordered_names(), ["a", "h/1", "g/1", "g/2"]);
    assert!(store.move_session("g/2", -1));
    assert_eq!(store.ordered_names(), ["a", "h/1", "g/2", "g/1"]);
}

#[test]
fn sorting_into_groups_keeps_first_occurrences() {
    let group = |name: &str, sessions: &[&str]| SessionGroup {
        name: name.to_owned(),
        sessions: sessions.iter().map(|session| (*session).to_owned()).collect(),
    };
    let mut store = SessionStore {
        entries: vec![
            group("x", &["g/2", "a"]),
            group("empty", &[]),
            group("y", &["h/1", "g/1", "g/2", "a"]),
        ],
    };
    store.normalize_groups();
    let shown: Vec<(String, Vec<String>)> = store
        .entries
        .iter()
        .map(|entry| (entry.name.clone(), entry.sessions.clone()))
        .collect();
    let texts = |list: &[&str]| list.iter().map(|text| (*text).to_owned()).collect::<Vec<_>>();
    assert_eq!(
        shown,
        vec![
            ("g".to_owned(), texts(&["g/2", "g/1"])),
            (String::new(), texts(&["a"])),
            ("h".to_owned(), texts(&["h/1"])),
        ]
    );
    let names = store.ordered_names();
    store.normalize_groups();
    assert_eq!(store.ordered_names(), names);
}
