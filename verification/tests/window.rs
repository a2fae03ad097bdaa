use bootty_app::host::{
    apply_effects, closes_settings, error_toast_text, frame_input, frame_steps, selected_action,
    suppresses_events, system_variant, theme_is_news, AppEffect, AppearanceVariant, ErrorToast,
    FrameStep, Submission, SurfaceItem, WindowCommand,
};
use bootty_app::input::config::resolve_modifier_remaps;
use bootty_app::input::focus::InputFocus;
use bootty_app::input::router::route_events;
use bootty_app::native_host::{CursorState, NativeInputState};
use bootty_app::platform::{
    clipboard_image_name, image_size, new_tab_shortcut_trigger, osascript_quote,
    read_clipboard_text, show_desktop_notification, starts_maximized, window_frame, ClipboardStep,
    ClipboardText, MacosTitlebarStyle, Platform,
};

#[test]
fn errors_are_summed_up() {
    let toast = error_toast_text("  rmux: gone \n");
    assert_eq!(toast.summary, "Could not reach remote rmux.");
    assert_eq!(toast.details.as_deref(), Some("rmux: gone"));
    assert_eq!(
        error_toast_text("SSH refused").summary,
        "Could not reach the remote workspace."
    );
    let short = error_toast_text("plain failure");
    assert_eq!(short.summary, "plain failure");
    assert_eq!(short.details, None);
    let long = error_toast_text(&"x".repeat(97));
    assert_eq!(long.summary, "The operation failed. Open details for the technical error.");
    assert_eq!(error_toast_text("").summary, "Operation failed.");
    let lines = error_toast_text("first\nsecond");
    assert_eq!((lines.summary.as_str(), lines.details.as_deref()), ("first", Some("first\nsecond")));
}

#[test]
fn the_last_click_counts() {
    let item = |action: Option<&str>| SurfaceItem {
        text: "item".to_owned(),
        action: action.map(str::to_owned),
    };
    let items = vec![item(Some("a")), item(None), item(Some("b"))];
    assert_eq!(selected_action(&items, &[true, true, false]).as_deref(), Some("a"));
    assert_eq!(selected_action(&items, &[true, false, true]).as_deref(), Some("b"));
    assert_eq!(selected_action(&items, &[false, true, false]), None);
}

#[test]
fn events_go_where_the_focus_is() {
    assert!(InputFocus::default().terminal_owns_input());
    let routed = route_events(InputFocus::Terminal, vec![1, 2]);
    assert_eq!((routed.terminal_events, routed.ui_events), (vec![1, 2], vec![]));
    let routed = route_events(InputFocus::Dialog, vec![1, 2]);
    assert_eq!((routed.terminal_events, routed.ui_events), (vec![], vec![1, 2]));
    assert!(suppresses_events(true, true, false));
    assert!(!suppresses_events(true, false, true));
    assert!(suppresses_events(false, false, true));
}

#[test]
fn themes_are_news_when_they_change() {
    let dark = vec![("bg".to_owned(), "black".to_owned())];
    let light = vec![("bg".to_owned(), "white".to_owned())];
    assert!(theme_is_news(false, &dark, &light));
    assert!(!theme_is_news(false, &dark, &dark));
    assert!(!theme_is_news(true, &dark, &light));
}

#[test]
fn remaps_report_the_first_bad_entry() {
    let good = ("ctrl=alt".to_owned(), Ok(()));
    let bad = ("what".to_owned(), Err("no equals sign".to_owned()));
    let error = resolve_modifier_remaps(&[good.clone(), bad]).unwrap_err();
    assert_eq!((error.entry.as_str(), error.source.as_str()), ("what", "no equals sign"));
    assert!(resolve_modifier_remaps(&[good]).is_ok());
}

#[test]
fn modifiers_from_before_the_focus_are_ignored_once() {
    let mut state = NativeInputState::default();
    assert!(state.handle_modifiers_changed(4));
    state.handle_focus_changed();
    assert_eq!(state.modifiers, 0);
    assert!(!state.handle_modifiers_changed(4));
    assert_eq!(state.modifiers, 0);
    assert!(state.handle_modifiers_changed(4));
    assert_eq!(state.modifiers, 4);
    state.handle_focus_changed();
    assert_eq!(state.handle_keyboard_input(), 0);
    assert!(state.handle_modifiers_changed(4));
    let mut cursor = CursorState { needs_reapply: false };
    cursor.note(false);
    assert!(!cursor.take());
    cursor.note(true);
    cursor.note(false);
    assert!(cursor.take() && !cursor.take());
}

#[test]
fn notifications_are_quoted() {
    assert_eq!(osascript_quote("a\"b\\c"), "\"a\\\"b\\\\c\"");
    let command = show_desktop_notification(Platform::Macos, "T", "B\"").unwrap();
    assert_eq!(command.program, "osascript");
    assert_eq!(
        command.args,
        vec!["-e", "display notification \"B\\\"\" with title \"T\""]
    );
    let command = show_desktop_notification(Platform::Linux, "T", "B").unwrap();
    assert_eq!((command.program, command.args), ("notify-send", vec!["T".to_owned(), "B".to_owned()]));
    assert!(show_desktop_notification(Platform::Other, "T", "B").is_none());
    assert_eq!(new_tab_shortcut_trigger(Platform::Macos), "cmd+t");
    assert_eq!(new_tab_shortcut_trigger(Platform::Linux), "ctrl+shift+t");
}

#[test]
fn pastes_prefer_files_then_text_then_images() {
    let step = read_clipboard_text(Some("/a".to_owned()), ClipboardText::Text("t".to_owned()));
    assert!(matches!(step, ClipboardStep::Paste(p) if p == "/a"));
    let step = read_clipboard_text(None, ClipboardText::Text("t".to_owned()));
    assert!(matches!(step, ClipboardStep::Paste(p) if p == "t"));
    let step = read_clipboard_text(None, ClipboardText::Text(String::new()));
    assert!(matches!(step, ClipboardStep::ReadImage));
    let step = read_clipboard_text(None, ClipboardText::NotAvailable);
    assert!(matches!(step, ClipboardStep::ReadImage));
    let step = read_clipboard_text(None, ClipboardText::Failed("no".to_owned()));
    assert!(matches!(step, ClipboardStep::Failed(e) if e == "no"));
    assert_eq!(image_size(2, 3), Ok((2, 3)));
    assert_eq!(image_size(usize::MAX, 3), Err("clipboard image width"));
    assert_eq!(image_size(3, usize::MAX), Err("clipboard image height"));
    assert_eq!(clipboard_image_name(12, 3), "bootty-clipboard-12-3.png");
    assert_ne!(clipboard_image_name(1, 23), clipboard_image_name(12, 3));
}

#[test]
fn windows_are_framed_as_configured() {
    assert_eq!(window_frame(MacosTitlebarStyle::Native).title_shown, None);
    assert_eq!(window_frame(MacosTitlebarStyle::Hidden).titlebar_buttons_shown, Some(false));
    assert_eq!(window_frame(MacosTitlebarStyle::Transparent).titlebar_buttons_shown, None);
    assert!(starts_maximized(true, true, false));
    assert!(!starts_maximized(true, true, true));
    assert!(!starts_maximized(false, false, false));
}

#[test]
fn effects_become_window_commands() {
    let (commands, open) = apply_effects(
        vec![
            AppEffect::SetWindowTitle("t".to_owned()),
            AppEffect::OpenSettings,
            AppEffect::ConfigureKeybind("copy".to_owned()),
            AppEffect::QuitApplication,
        ],
        &[1, 2],
        false,
    );
    assert!(open);
    assert!(matches!(&commands[0], WindowCommand::Title(t) if t == "t"));
    assert!(matches!(commands[1], WindowCommand::FillSettings));
    assert!(matches!(commands[4], WindowCommand::ShowSettings));
    assert!(matches!(&commands[6], WindowCommand::FocusKeybinding(a) if a == "copy"));
    assert!(matches!(commands[7], WindowCommand::CloseViewport(1)));
    assert_eq!(commands.len(), 9);
}

#[test]
fn frames_are_painted_in_order() {
    assert_eq!(
        frame_steps(true, true),
        vec![FrameStep::ShowSettings, FrameStep::ShowError]
    );
    let steps = frame_steps(false, false);
    assert_eq!(steps[0], FrameStep::ReorderSessions);
    assert_eq!(steps[4], FrameStep::ShowTerminal);
    assert_eq!(steps.len(), 8);
    assert_eq!(frame_input(true, vec![1], vec![2]), (vec![], vec![]));
    assert_eq!(frame_input(false, vec![1], vec![2]), (vec![1], vec![2]));
    assert_eq!(system_variant(None), AppearanceVariant::Dark);
    assert_eq!(system_variant(Some(true)), AppearanceVariant::Light);
    assert!(closes_settings(true, Submission::Nothing));
    assert!(!closes_settings(true, Submission::Rejected));
    let mut toast = ErrorToast { details_open: false };
    assert!(!toast.clicked(true, true, false));
    assert!(toast.details_open);
    assert!(toast.clicked(true, false, true));
    assert!(!toast.details_open);
}
