use bootty_app::mux::command::MuxBackendKind;
use bootty_app::mux::snapshot::MuxPaneAnchor;
use bootty_app::mux::terminal::pane::{
    backend_attach_env_remove, backend_attach_launch, backend_attach_session_config,
    resolve_launch_program_with_path, target_input_selector, target_matches_anchor,
    BackendPaneTerminal, MuxPaneTarget, ProgramCandidate, SessionLaunchConfig, SyncStep,
    TerminalStart,
};
use bootty_app::mux::terminal::tmux_codec::{
    decode_tmux_control_output, tmux_hex_command, TmuxPassthroughDecoder,
};

fn target(session_id: &str) -> MuxPaneTarget {
    MuxPaneTarget::Session { session_id: session_id.to_owned(), cwd: None }
}

fn anchor(session_id: &str, pane_id: Option<&str>) -> MuxPaneAnchor {
    MuxPaneAnchor {
        session_id: session_id.to_owned(),
        pane_id: pane_id.map(str::to_owned),
        cwd: None,
        process: None,
    }
}

#[test]
fn tmux_control_output_decodes_octal_escapes() {
    assert_eq!(
        decode_tmux_control_output(r"A\033[31mB\015\012"),
        b"A\x1b[31mB\r\n"
    );
}

#[test]
fn tmux_control_output_recovers_non_ascii_bytes_from_parser_chars() {
    let placeholder = "\u{00f4}\u{008e}\u{00bb}\u{00ae}";

    assert_eq!(
        decode_tmux_control_output(placeholder),
        "\u{10eeee}".as_bytes()
    );
}

#[test]
fn tmux_passthrough_decoder_handles_split_wrapped_kitty_commands() {
    let mut decoder = TmuxPassthroughDecoder::default();

    assert_eq!(decoder.push(b"before\x1bPtmux;\x1b\x1b_Ga=T"), b"before");
    assert_eq!(decoder.push(b";payload\x1b\x1b\\"), b"");
    assert_eq!(
        decoder.push(b"\x1b\\after"),
        b"\x1b_Ga=T;payload\x1b\\after"
    );
}

#[test]
fn tmux_hex_input_uses_pane_target_when_available() {
    let target = MuxPaneTarget::Pane {
        session_id: "agents".to_owned(),
        pane_id: "%3".to_owned(),
        cwd: None,
    };

    assert_eq!(target_input_selector(&target), "%3");
}

#[test]
fn target_input_selector_uses_session_when_no_pane_target_exists() {
    assert_eq!(target_input_selector(&target("agents")), "agents");
}

#[test]
fn attach_target_uses_session_and_pane_identity_not_process_metadata() {
    let before = MuxPaneAnchor {
        session_id: "agents".to_owned(),
        pane_id: Some("%3".to_owned()),
        cwd: Some("/repo".to_owned()),
        process: Some("nvim".to_owned()),
    };
    let after = MuxPaneAnchor {
        process: Some("zsh".to_owned()),
        cwd: Some("/repo/subdir".to_owned()),
        ..before.clone()
    };

    assert_eq!(MuxPaneTarget::from(before), MuxPaneTarget::from(after));
}

#[test]
fn sync_mux_anchor_does_not_commit_target_after_restart_failure() {
    let mut terminal = BackendPaneTerminal::new(MuxBackendKind::Tmux);
    let step = terminal.sync_mux_anchor(MuxBackendKind::Rmux, Some(anchor("", Some("%11"))));
    let result: Result<(), String> = match step {
        SyncStep::Start { start: TerminalStart::Rmux, target } => {
            terminal.started(MuxBackendKind::Rmux, target, None);
            Err("the session could not be attached".to_owned())
        }
        other => panic!("a terminal has to be started: {other:?}"),
    };

    assert!(result.is_err());
    assert_eq!(terminal.active_target, None);
}

#[test]
fn target_match_uses_session_and_pane_without_cloning_metadata() {
    let target = MuxPaneTarget::Pane {
        session_id: "agents".to_owned(),
        pane_id: "%3".to_owned(),
        cwd: Some("/repo".to_owned()),
    };
    let anchor = MuxPaneAnchor {
        session_id: "agents".to_owned(),
        pane_id: Some("%3".to_owned()),
        cwd: Some("/repo/subdir".to_owned()),
        process: Some("zsh".to_owned()),
    };

    assert!(target_matches_anchor(Some(&target), Some(&anchor)));
}

#[test]
fn target_match_distinguishes_missing_and_changed_panes() {
    let target = MuxPaneTarget::Pane {
        session_id: "agents".to_owned(),
        pane_id: "%3".to_owned(),
        cwd: None,
    };
    let session_anchor = anchor("agents", None);
    let other_pane = MuxPaneAnchor { pane_id: Some("%4".to_owned()), ..session_anchor.clone() };

    assert!(!target_matches_anchor(Some(&target), Some(&session_anchor)));
    assert!(!target_matches_anchor(Some(&target), Some(&other_pane)));
    assert!(target_matches_anchor(None, None));
}

#[test]
fn backend_owned_ui_launches_normal_backend_attach() {
    assert_eq!(
        backend_attach_launch(MuxBackendKind::Tmux, &target("agents")),
        (
            "tmux".to_owned(),
            vec!["attach-session".to_owned(), "-t".to_owned(), "agents".to_owned()]
        )
    );
    assert_eq!(
        backend_attach_launch(MuxBackendKind::Zellij, &target("agents")),
        (
            "zellij".to_owned(),
            vec!["attach".to_owned(), "--create".to_owned(), "agents".to_owned()]
        )
    );
}

#[test]
fn backend_owned_ui_removes_nested_backend_environment() {
    assert_eq!(
        backend_attach_env_remove(MuxBackendKind::Tmux),
        vec!["TMUX".to_owned()]
    );
    assert_eq!(
        backend_attach_env_remove(MuxBackendKind::Zellij),
        vec!["ZELLIJ".to_owned()]
    );
}

#[test]
fn backend_owned_ui_uses_tmux_compatible_term() {
    let config = SessionLaunchConfig {
        shell: None,
        args: Vec::new(),
        env_remove: Vec::new(),
        term: "xterm-ghostty".to_owned(),
        working_directory: None,
    };
    let config = backend_attach_session_config(
        config,
        MuxBackendKind::Tmux,
        &target("agents"),
        Ok("/usr/bin/tmux".to_owned()),
    )
    .unwrap();

    assert_eq!(config.term, "xterm-256color");
    assert_eq!(config.env_remove, vec!["TMUX".to_owned()]);
    assert_eq!(config.shell.as_deref(), Some("/usr/bin/tmux"));
}

#[test]
fn backend_attach_program_is_resolved_to_absolute_path() {
    let candidates = vec![
        ProgramCandidate { path: "/opt/bin/tmux".to_owned(), is_file: false },
        ProgramCandidate { path: "/tmp/bin/tmux".to_owned(), is_file: true },
    ];
    let resolved = resolve_launch_program_with_path("tmux", &candidates)
        .expect("program should resolve from supplied PATH");

    assert_eq!(resolved, "/tmp/bin/tmux");
    assert!(resolve_launch_program_with_path("tmux", &[]).is_err());
}

#[test]
fn control_output_that_was_escaped_comes_back() {
    let bytes: Vec<u8> = vec![0, 7, 27, 92, 127, 65];
    let mut text = String::new();
    for byte in &bytes {
        text.push_str(&format!("\\{:03o}", byte));
    }
    assert_eq!(decode_tmux_control_output(&text), bytes);
    assert_eq!(decode_tmux_control_output(r"\7777"), vec![0xff, b'7']);
}

#[test]
fn pieces_of_a_passthrough_do_not_matter() {
    let whole: &[u8] = b"a\x1bPtmux;\x1b\x1b]52;c;QQ==\x07\x1b\\b";
    let mut at_once = TmuxPassthroughDecoder::default();
    let expected = at_once.push(whole);
    let mut byte_by_byte = TmuxPassthroughDecoder::default();
    let mut out = Vec::new();
    for byte in whole {
        out.extend(byte_by_byte.push(&[*byte]));
    }
    assert_eq!(out, expected);
    assert_eq!(expected, b"a\x1b]52;c;QQ==\x07b");
}

#[test]
fn hex_commands_list_the_bytes() {
    assert_eq!(tmux_hex_command("%3", b"").as_deref(), None);
    let command = tmux_hex_command("%3", b"A\n").unwrap();
    assert!(command.contains("%3"));
    assert!(command.contains("41") && command.contains("0a"));
}

#[test]
fn parked_terminals_are_resumed() {
    let mut terminal = BackendPaneTerminal::new(MuxBackendKind::Native);
    let first = anchor("one", Some("1"));
    let second = anchor("two", Some("2"));
    let step = terminal.sync_mux_anchor(MuxBackendKind::Native, Some(first.clone()));
    let SyncStep::Start { start: TerminalStart::Native, target } = step else {
        panic!("the first pane has to be started: {step:?}");
    };
    terminal.started(MuxBackendKind::Native, target, Some(7));
    let step = terminal.sync_mux_anchor(MuxBackendKind::Native, Some(second));
    let SyncStep::Start { start: TerminalStart::Native, target } = step else {
        panic!("the second pane has to be started: {step:?}");
    };
    terminal.started(MuxBackendKind::Native, target, Some(8));
    let step = terminal.sync_mux_anchor(MuxBackendKind::Native, Some(first));
    assert!(matches!(step, SyncStep::Start { start: TerminalStart::Resume(7), .. }));
}

#[test]
fn panes_have_numbers() {
    let pane = |id: &str| MuxPaneTarget::Pane {
        session_id: "main".to_owned(),
        pane_id: id.to_owned(),
        cwd: None,
    };
    assert_eq!(pane("%12").tmux_pane_number(), Some(12));
    assert_eq!(pane("12").tmux_pane_number(), None);
    assert_eq!(pane("%x").tmux_pane_number(), None);
    assert_eq!(target("main").tmux_pane_number(), None);
}
