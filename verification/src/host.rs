//! What the window decides from frame to frame.

use vstd::prelude::*;
use crate::mux::snapshot::MuxSession;
use crate::text::{
    ascii_lowercase, contains, has_part, lines, lines_of, same_text, text_opt, texts, to_lower,
    trim, trimmed,
};

verus! {

/// The longest first line of an error that is shown as it is, in characters.
pub const TOAST_LINE_LIMIT: usize = 96;

/// An error as it is shown: a summary, and the whole text where the summary leaves something out.
#[derive(Clone, Debug, PartialEq, Eq)]
pub struct ErrorToastText {
    pub summary: String,
    pub details: Option<String>,
}

/// The summary of an error.
pub open spec fn error_summary(text: Seq<char>) -> Seq<char> {
    let lower = ascii_lowercase(text);
    if contains(lower, "rmux"@) {
        "Could not reach remote rmux."@
    } else if contains(lower, "ssh"@) || contains(lower, "connection"@) {
        "Could not reach the remote workspace."@
    } else if lines_of(text).len() == 0 {
        "Operation failed."@
    } else if lines_of(text)[0].len() <= TOAST_LINE_LIMIT {
        lines_of(text)[0]
    } else {
        "The operation failed. Open details for the technical error."@
    }
}

/// An error as it is shown.
pub fn error_toast_text(error: &str) -> (out: ErrorToastText)
    ensures
        out.summary@ == error_summary(trim(error@)),
        text_opt(out.details) == (if out.summary@ != trim(error@) {
            Some(trim(error@))
        } else {
            None
        }),
{
    let normalized = trimmed(error);
    let lower = to_lower(&normalized);
    let summary = if has_part(&lower, "rmux") {
        "Could not reach remote rmux.".to_owned()
    } else if has_part(&lower, "ssh") || has_part(&lower, "connection") {
        "Could not reach the remote workspace.".to_owned()
    } else {
        let list = lines(&normalized);
        assert(texts(list@).len() == list@.len());
        if list.len() == 0 {
            "Operation failed.".to_owned()
        } else {
            assert(texts(list@)[0] == list@[0]@);
            if list[0].unicode_len() <= TOAST_LINE_LIMIT {
                list[0].clone()
            } else {
                "The operation failed. Open details for the technical error.".to_owned()
            }
        }
    };
    let details = if same_text(&summary, &normalized) {
        None
    } else {
        Some(normalized)
    };
    ErrorToastText { summary, details }
}

/// An item of a surface: what it says, and the action that it offers.
#[derive(Debug)]
pub struct SurfaceItem {
    pub text: String,
    pub action: Option<String>,
}

/// The action of the last item that was clicked and offers one.
pub open spec fn chosen_action(items: Seq<SurfaceItem>, clicked: Seq<bool>) -> Option<Seq<char>>
    decreases items.len(),
{
    if items.len() == 0 {
        None
    } else {
        let i = items.len() - 1;
        if items[i].action is Some && i < clicked.len() && clicked[i] {
            text_opt(items[i].action)
        } else {
            chosen_action(items.drop_last(), clicked)
        }
    }
}

/// The action of the last item that was clicked and offers one.
pub fn selected_action(items: &[SurfaceItem], clicked: &[bool]) -> (out: Option<String>)
    ensures
        text_opt(out) == chosen_action(items@, clicked@),
{
    let mut i: usize = items.len();
    assert(items@.take(i as int) =~= items@);
    while i > 0
        invariant
            i <= items@.len(),
            chosen_action(items@, clicked@) == chosen_action(items@.take(i as int), clicked@),
        decreases i,
    {
        i = i - 1;
        proof {
            assert(items@.take(i + 1).drop_last() =~= items@.take(i as int));
            assert(items@.take(i + 1)[i as int] == items@[i as int]);
        }
        match &items[i].action {
            Some(action) => {
                if i < clicked.len() && clicked[i] {
                    return Some(action.clone());
                }
            },
            None => {},
        }
    }
    None
}

/// Whether events of the window are dropped because keys were already taken directly. While the
/// settings are open, that is so only while a key binding is recorded.
pub fn suppresses_events(settings_open: bool, recording: bool, direct_input: bool) -> (out: bool)
    ensures
        out == (if settings_open {
            recording
        } else {
            direct_input
        }),
{
    if settings_open {
        recording
    } else {
        direct_input
    }
}

/// Whether extensions are told of a theme: it is another one, and no theme is being tried out.
pub fn theme_is_news(
    previewing: bool,
    current: &[(String, String)],
    next: &[(String, String)],
) -> (out: bool)
    ensures
        out == (!previewing && !same_tokens(current@, next@)),
{
    if previewing {
        return false;
    }
    if current.len() != next.len() {
        return true;
    }
    let mut i: usize = 0;
    while i < current.len()
        invariant
            i <= current@.len(),
            current@.len() == next@.len(),
            !previewing,
            forall|j: int|
                0 <= j < i ==> (#[trigger] current@[j]).0@ == next@[j].0@ && current@[j].1@
                    == next@[j].1@,
        decreases current@.len() - i,
    {
        if !same_text(&current[i].0, &next[i].0) || !same_text(&current[i].1, &next[i].1) {
            return true;
        }
        i = i + 1;
    }
    false
}

/// Whether two themes have the same names with the same values.
pub open spec fn same_tokens(a: Seq<(String, String)>, b: Seq<(String, String)>) -> bool {
    a.len() == b.len() && forall|i: int|
        0 <= i < a.len() ==> (#[trigger] a[i]).0@ == b[i].0@ && a[i].1@ == b[i].1@
}

/// Something that the state of the program asks of the window.
#[derive(Debug)]
pub enum AppEffect {
    CloseWindow,
    QuitApplication,
    SetWindowTitle(String),
    SetFullscreen(bool),
    SetMaximized(bool),
    SetDecorations(bool),
    RequestCopy,
    RequestRepaint,
    Bell,
    /// Paint again after so many milliseconds.
    RepaintAfter(u64),
    /// The text of the terminal looks different.
    SetTerminalTextConfig,
    /// The pointer over the terminal looks different.
    SetTerminalCursorIcon,
    SetUiFonts(Vec<String>),
    SetWindowFocus,
    OpenUrl(String),
    OpenSettings,
    ConfigureKeybind(String),
}

/// Something that is done with the window.
#[derive(Debug)]
pub enum WindowCommand {
    Close,
    /// Close the window with this number.
    CloseViewport(u64),
    Title(String),
    Fullscreen(bool),
    Maximized(bool),
    Decorations(bool),
    RequestCopy,
    RequestRepaint,
    /// Ask for the user's attention.
    Attention,
    RepaintAfter(u64),
    UpdateTerminalText,
    UpdateTerminalCursor,
    SetFonts(Vec<String>),
    Focus,
    /// Open an address in a new tab.
    OpenUrl(String),
    /// Fill the settings with what is configured, and with the fonts and themes that are there.
    FillSettings,
    ShowSettings,
    /// Show the binding of an action in the settings.
    FocusKeybinding(String),
}

/// The commands that close all windows.
pub open spec fn close_all(viewports: Seq<u64>) -> Seq<WindowCommand> {
    viewports.map_values(|v: u64| WindowCommand::CloseViewport(v))
}

/// The commands that open the settings. They are filled only where they are not open yet.
pub open spec fn open_settings(open: bool) -> Seq<WindowCommand> {
    if open {
        seq![WindowCommand::ShowSettings, WindowCommand::RequestRepaint]
    } else {
        seq![
            WindowCommand::FillSettings,
            WindowCommand::ShowSettings,
            WindowCommand::RequestRepaint,
        ]
    }
}

/// The commands that an effect comes to.
pub open spec fn effect_commands(effect: AppEffect, viewports: Seq<u64>, settings_open: bool) -> Seq<
    WindowCommand,
> {
    match effect {
        AppEffect::CloseWindow => seq![WindowCommand::Close],
        AppEffect::QuitApplication => close_all(viewports),
        AppEffect::SetWindowTitle(title) => seq![WindowCommand::Title(title)],
        AppEffect::SetFullscreen(on) => seq![WindowCommand::Fullscreen(on)],
        AppEffect::SetMaximized(on) => seq![WindowCommand::Maximized(on)],
        AppEffect::SetDecorations(on) => seq![WindowCommand::Decorations(on)],
        AppEffect::RequestCopy => seq![WindowCommand::RequestCopy],
        AppEffect::RequestRepaint => seq![WindowCommand::RequestRepaint],
        AppEffect::Bell => seq![WindowCommand::Attention],
        AppEffect::RepaintAfter(after) => seq![WindowCommand::RepaintAfter(after)],
        AppEffect::SetTerminalTextConfig => seq![WindowCommand::UpdateTerminalText],
        AppEffect::SetTerminalCursorIcon => seq![WindowCommand::UpdateTerminalCursor],
        AppEffect::SetUiFonts(families) => seq![WindowCommand::SetFonts(families)],
        AppEffect::SetWindowFocus => seq![WindowCommand::Focus],
        AppEffect::OpenUrl(url) => seq![WindowCommand::OpenUrl(url)],
        AppEffect::OpenSettings => open_settings(settings_open),
        AppEffect::ConfigureKeybind(action) => open_settings(settings_open).push(
            WindowCommand::FocusKeybinding(action),
        ),
    }
}

/// Whether the settings are open after an effect.
pub open spec fn settings_after(effect: AppEffect, settings_open: bool) -> bool {
    settings_open || effect is OpenSettings || effect is ConfigureKeybind
}

/// Whether the settings are open after effects.
pub open spec fn settings_after_all(effects: Seq<AppEffect>, settings_open: bool) -> bool
    decreases effects.len(),
{
    if effects.len() == 0 {
        settings_open
    } else {
        settings_after(effects.last(), settings_after_all(effects.drop_last(), settings_open))
    }
}

/// The commands that effects come to, in their order.
pub open spec fn all_commands(
    effects: Seq<AppEffect>,
    viewports: Seq<u64>,
    settings_open: bool,
) -> Seq<WindowCommand>
    decreases effects.len(),
{
    if effects.len() == 0 {
        Seq::empty()
    } else {
        all_commands(effects.drop_last(), viewports, settings_open) + effect_commands(
            effects.last(),
            viewports,
            settings_after_all(effects.drop_last(), settings_open),
        )
    }
}

fn push_open_settings(out: &mut Vec<WindowCommand>, open: bool)
    ensures
        final(out)@ == old(out)@ + open_settings(open),
{
    let ghost before = out@;
    if !open {
        out.push(WindowCommand::FillSettings);
    }
    out.push(WindowCommand::ShowSettings);
    out.push(WindowCommand::RequestRepaint);
    assert(out@ =~= before + open_settings(open));
}

fn push_close_all(out: &mut Vec<WindowCommand>, viewports: &[u64])
    ensures
        final(out)@ == old(out)@ + close_all(viewports@),
{
    let ghost before = out@;
    let ghost all = close_all(viewports@);
    let mut i: usize = 0;
    assert(before + all.take(0) =~= before);
    while i < viewports.len()
        invariant
            i <= viewports@.len(),
            all == close_all(viewports@),
            out@ == before + all.take(i as int),
        decreases viewports@.len() - i,
    {
        out.push(WindowCommand::CloseViewport(viewports[i]));
        assert(all.take(i + 1) =~= all.take(i as int).push(all[i as int]));
        assert(out@ =~= before + all.take(i + 1));
        i = i + 1;
    }
    assert(all.take(i as int) =~= all);
}

fn push_effect(
    out: &mut Vec<WindowCommand>,
    effect: AppEffect,
    viewports: &[u64],
    settings_open: bool,
)
    ensures
        final(out)@ == old(out)@ + effect_commands(effect, viewports@, settings_open),
{
    let ghost before = out@;
    match effect {
        AppEffect::QuitApplication => {
            push_close_all(out, viewports);
        },
        AppEffect::OpenSettings => {
            push_open_settings(out, settings_open);
        },
        AppEffect::ConfigureKeybind(action) => {
            push_open_settings(out, settings_open);
            out.push(WindowCommand::FocusKeybinding(action));
            assert(out@ =~= before + open_settings(settings_open).push(
                WindowCommand::FocusKeybinding(action),
            ));
        },
        AppEffect::CloseWindow => {
            out.push(WindowCommand::Close);
        },
        AppEffect::SetWindowTitle(title) => {
            out.push(WindowCommand::Title(title));
        },
        AppEffect::SetFullscreen(on) => {
            out.push(WindowCommand::Fullscreen(on));
        },
        AppEffect::SetMaximized(on) => {
            out.push(WindowCommand::Maximized(on));
        },
        AppEffect::SetDecorations(on) => {
            out.push(WindowCommand::Decorations(on));
        },
        AppEffect::RequestCopy => {
            out.push(WindowCommand::RequestCopy);
        },
        AppEffect::RequestRepaint => {
            out.push(WindowCommand::RequestRepaint);
        },
        AppEffect::Bell => {
            out.push(WindowCommand::Attention);
        },
        AppEffect::RepaintAfter(after) => {
            out.push(WindowCommand::RepaintAfter(after));
        },
        AppEffect::SetTerminalTextConfig => {
            out.push(WindowCommand::UpdateTerminalText);
        },
        AppEffect::SetTerminalCursorIcon => {
            out.push(WindowCommand::UpdateTerminalCursor);
        },
        AppEffect::SetUiFonts(families) => {
            out.push(WindowCommand::SetFonts(families));
        },
        AppEffect::SetWindowFocus => {
            out.push(WindowCommand::Focus);
        },
        AppEffect::OpenUrl(url) => {
            out.push(WindowCommand::OpenUrl(url));
        },
    }
    assert(out@ =~= before + effect_commands(effect, viewports@, settings_open));
}

/// The commands that effects come to, and whether the settings are open after them.
pub fn apply_effects(effects: Vec<AppEffect>, viewports: &[u64], settings_open: bool) -> (out: (
    Vec<WindowCommand>,
    bool,
))
    ensures
        out.0@ == all_commands(effects@, viewports@, settings_open),
        out.1 == settings_after_all(effects@, settings_open),
{
    let ghost all = effects@;
    let ghost mut done: int = 0;
    let mut queue = effects;
    let mut out: Vec<WindowCommand> = Vec::new();
    let mut open = settings_open;
    proof {
        assert(all.take(0) =~= Seq::<AppEffect>::empty());
        assert(all.skip(0) =~= all);
    }
    while queue.len() > 0
        invariant
            0 <= done <= all.len(),
            all == effects@,
            queue@ == all.skip(done),
            out@ == all_commands(all.take(done), viewports@, settings_open),
            open == settings_after_all(all.take(done), settings_open),
        decreases queue@.len(),
    {
        let effect = queue.remove(0);
        proof {
            assert(effect == all[done]);
            assert(queue@ =~= all.skip(done + 1));
            assert(all.take(done + 1).drop_last() =~= all.take(done));
            assert(all.take(done + 1).last() == effect);
        }
        let opens = matches!(effect, AppEffect::OpenSettings | AppEffect::ConfigureKeybind(_));
        push_effect(&mut out, effect, viewports, open);
        open = open || opens;
        proof {
            done = done + 1;
        }
    }
    assert(all.take(done) =~= all);
    (out, open)
}

/// The directories in which sessions run.
pub open spec fn session_directories(sessions: Seq<MuxSession>) -> Seq<Seq<char>>
    decreases sessions.len(),
{
    if sessions.len() == 0 {
        Seq::empty()
    } else {
        let before = session_directories(sessions.drop_last());
        match sessions.last().anchor.cwd {
            Some(cwd) => before.push(cwd@),
            None => before,
        }
    }
}

/// The directories in which sessions run, where they are known.
pub fn open_cwds(sessions: &[MuxSession]) -> (out: Vec<String>)
    ensures
        texts(out@) == session_directories(sessions@),
{
    let mut out: Vec<String> = Vec::new();
    let mut i: usize = 0;
    proof {
        assert(sessions@.take(0) =~= Seq::<MuxSession>::empty());
        assert(texts(out@) =~= Seq::<Seq<char>>::empty());
    }
    while i < sessions.len()
        invariant
            i <= sessions@.len(),
            texts(out@) == session_directories(sessions@.take(i as int)),
        decreases sessions@.len() - i,
    {
        let ghost before = out@;
        proof {
            assert(sessions@.take(i + 1).drop_last() =~= sessions@.take(i as int));
            assert(sessions@.take(i + 1).last() == sessions@[i as int]);
        }
        match &sessions[i].anchor.cwd {
            Some(cwd) => {
                out.push(cwd.clone());
                assert(texts(out@) =~= texts(before).push(cwd@));
            },
            None => {},
        }
        i = i + 1;
    }
    assert(sessions@.take(i as int) =~= sessions@);
    out
}

/// What a frame gets of the input: nothing while the settings are open.
pub fn frame_input<E, F>(settings_open: bool, events: Vec<E>, dropped: Vec<F>) -> (out: (
    Vec<E>,
    Vec<F>,
))
    ensures
        settings_open ==> out.0@ == Seq::<E>::empty() && out.1@ == Seq::<F>::empty(),
        !settings_open ==> out.0 == events && out.1 == dropped,
{
    if settings_open {
        (Vec::new(), Vec::new())
    } else {
        (events, dropped)
    }
}

/// The error that is shown, and whether its details are.
#[derive(Debug)]
pub struct ErrorToast {
    pub details_open: bool,
}

impl ErrorToast {
    /// Takes what was clicked, and says whether the error is dismissed. Details are shown and hidden
    /// in turn, where there are any.
    pub fn clicked(&mut self, has_details: bool, toggled: bool, dismissed: bool) -> (out: bool)
        ensures
            out == dismissed,
            final(self).details_open == (!dismissed && (old(self).details_open != (has_details
                && toggled))),
    {
        if has_details && toggled {
            self.details_open = !self.details_open;
        }
        if dismissed {
            self.details_open = false;
        }
        dismissed
    }
}

/// What became of the changes that the settings submit.
#[derive(Clone, Copy, Debug, PartialEq, Eq, Structural)]
pub enum Submission {
    /// Nothing was submitted.
    Nothing,
    Accepted,
    Rejected,
}

/// Whether the settings close: they were told to, and no change was rejected.
pub fn closes_settings(close: bool, submission: Submission) -> (out: bool)
    ensures
        out == (close && submission != Submission::Rejected),
{
    close && submission != Submission::Rejected
}

/// A part of painting a frame.
#[derive(Clone, Copy, Debug, PartialEq, Eq, Structural)]
pub enum FrameStep {
    ShowSettings,
    /// Move the sessions that extensions asked to move.
    ReorderSessions,
    /// Tell extensions what the multiplexer looks like.
    PublishMux,
    ShowChrome,
    /// Take over what was clicked around the terminal.
    ApplyChrome,
    ShowTerminal,
    /// Show the error, where there is one.
    ShowError,
    ShowDialog,
    ShowFind,
    ShowSurfaces,
}

/// The parts of painting a frame, in their order. Sessions are moved before extensions are told of
/// them, and what was clicked is taken over before the terminal is painted, so that a frame shows it.
pub open spec fn frame_order(settings_open: bool, has_error: bool) -> Seq<FrameStep> {
    let body = if settings_open {
        seq![FrameStep::ShowSettings]
    } else {
        seq![
            FrameStep::ReorderSessions,
            FrameStep::PublishMux,
            FrameStep::ShowChrome,
            FrameStep::ApplyChrome,
            FrameStep::ShowTerminal,
        ]
    };
    let shown = if has_error {
        body.push(FrameStep::ShowError)
    } else {
        body
    };
    if settings_open {
        shown
    } else {
        shown + seq![FrameStep::ShowDialog, FrameStep::ShowFind, FrameStep::ShowSurfaces]
    }
}

/// The parts of painting a frame, in their order.
pub fn frame_steps(settings_open: bool, has_error: bool) -> (out: Vec<FrameStep>)
    ensures
        out@ == frame_order(settings_open, has_error),
{
    let mut out: Vec<FrameStep> = Vec::new();
    if settings_open {
        out.push(FrameStep::ShowSettings);
    } else {
        out.push(FrameStep::ReorderSessions);
        out.push(FrameStep::PublishMux);
        out.push(FrameStep::ShowChrome);
        out.push(FrameStep::ApplyChrome);
        out.push(FrameStep::ShowTerminal);
    }
    if has_error {
        out.push(FrameStep::ShowError);
    }
    if !settings_open {
        out.push(FrameStep::ShowDialog);
        out.push(FrameStep::ShowFind);
        out.push(FrameStep::ShowSurfaces);
    }
    assert(out@ =~= frame_order(settings_open, has_error));
    out
}

/// Which colours are shown.
#[derive(Clone, Copy, Debug, PartialEq, Eq, Structural)]
pub enum AppearanceVariant {
    Light,
    Dark,
}

/// The colours of the system; dark ones where it does not say.
pub fn system_variant(light: Option<bool>) -> (out: AppearanceVariant)
    ensures
        out == (if light == Some(true) {
            AppearanceVariant::Light
        } else {
            AppearanceVariant::Dark
        }),
{
    match light {
        Some(true) => AppearanceVariant::Light,
        _ => AppearanceVariant::Dark,
    }
}

/// Applying effects one after the other is applying them at once.
pub proof fn effects_add_up(
    first: Seq<AppEffect>,
    second: Seq<AppEffect>,
    viewports: Seq<u64>,
    settings_open: bool,
)
    ensures
        all_commands(first + second, viewports, settings_open) == all_commands(
            first,
            viewports,
            settings_open,
        ) + all_commands(second, viewports, settings_after_all(first, settings_open)),
        settings_after_all(first + second, settings_open) == settings_after_all(
            second,
            settings_after_all(first, settings_open),
        ),
    decreases second.len(),
{
    if second.len() == 0 {
        assert(first + second =~= first);
        assert(all_commands(first, viewports, settings_open) + all_commands(
            second,
            viewports,
            settings_after_all(first, settings_open),
        ) =~= all_commands(first, viewports, settings_open));
    } else {
        let both = first + second;
        assert(both.drop_last() =~= first + second.drop_last());
        assert(both.last() == second.last());
        effects_add_up(first, second.drop_last(), viewports, settings_open);
        assert(all_commands(both, viewports, settings_open) =~= all_commands(
            first,
            viewports,
            settings_open,
        ) + all_commands(second, viewports, settings_after_all(first, settings_open)));
    }
}

/// An error is summed up by what it speaks of, in whatever case; otherwise by its first line, where that
/// is short enough to be read.
pub proof fn errors_are_summed_up(text: Seq<char>)
    ensures
        ({
            let lower = ascii_lowercase(text);
            let remote = contains(lower, "rmux"@);
            let reach = contains(lower, "ssh"@) || contains(lower, "connection"@);
            let lines = lines_of(text);
            &&& remote ==> error_summary(text) == "Could not reach remote rmux."@
            &&& !remote && reach ==> error_summary(text) == "Could not reach the remote workspace."@
            &&& !remote && !reach && lines.len() == 0 ==> error_summary(text)
                == "Operation failed."@
            &&& !remote && !reach && lines.len() > 0 && lines[0].len() <= 96 ==> error_summary(text)
                == lines[0]
            &&& !remote && !reach && lines.len() > 0 && lines[0].len() > 96 ==> error_summary(text)
                == "The operation failed. Open details for the technical error."@
        }),
{
}

/// Of the items that were clicked and do something the last is chosen.
pub proof fn clicked_item_is_chosen(items: Seq<SurfaceItem>, clicked: Seq<bool>, i: int)
    requires
        clicked.len() == items.len(),
    ensures
        0 <= i < items.len() && items[i].action is Some && clicked[i] && (forall|j: int|
            i < j < items.len() ==> !((#[trigger] items[j]).action is Some && clicked[j]))
            ==> chosen_action(items, clicked) == Some(items[i].action->Some_0@),
        (forall|j: int| 0 <= j < items.len() ==> !((#[trigger] items[j]).action is Some && clicked[j]))
            ==> chosen_action(items, clicked) is None,
{
    last_clicked_is_chosen(items, clicked, i);
}

proof fn last_clicked_is_chosen(items: Seq<SurfaceItem>, clicked: Seq<bool>, i: int)
    requires
        items.len() <= clicked.len(),
    ensures
        0 <= i < items.len() && items[i].action is Some && clicked[i] && (forall|j: int|
            i < j < items.len() ==> !((#[trigger] items[j]).action is Some && clicked[j]))
            ==> chosen_action(items, clicked) == Some(items[i].action->Some_0@),
        (forall|j: int| 0 <= j < items.len() ==> !((#[trigger] items[j]).action is Some && clicked[j]))
            ==> chosen_action(items, clicked) is None,
    decreases items.len(),
{
    if items.len() > 0 {
        let rest = items.drop_last();
        let n = items.len() - 1;
        last_clicked_is_chosen(rest, clicked, i);
        assert forall|j: int| 0 <= j < rest.len() implies #[trigger] rest[j] == items[j] by {}
        if 0 <= i < n && (forall|j: int|
            i < j < items.len() ==> !((#[trigger] items[j]).action is Some && clicked[j])) {
            assert(!(items[n].action is Some && clicked[n]));
            assert(rest[i] == items[i]);
        }
        if forall|j: int|
            0 <= j < items.len() ==> !((#[trigger] items[j]).action is Some && clicked[j]) {
            assert(!(items[n].action is Some && clicked[n]));
        }
    }
}

/// Each effect asks the window for its own command, with what the effect carries; quitting closes every
/// viewport, in order.
pub proof fn effects_become_commands(effect: AppEffect, viewports: Seq<u64>, open: bool, i: int)
    ensures
        ({
            let commands = effect_commands(effect, viewports, open);
            &&& effect is CloseWindow ==> commands == seq![WindowCommand::Close]
            &&& effect is QuitApplication ==> commands.len() == viewports.len() && (0 <= i
                < viewports.len() ==> commands[i] == WindowCommand::CloseViewport(viewports[i]))
            &&& effect matches AppEffect::SetWindowTitle(title) ==> commands == seq![
                WindowCommand::Title(title),
            ]
            &&& effect matches AppEffect::SetFullscreen(on) ==> commands == seq![
                WindowCommand::Fullscreen(on),
            ]
            &&& effect matches AppEffect::SetMaximized(on) ==> commands == seq![
                WindowCommand::Maximized(on),
            ]
            &&& effect matches AppEffect::SetDecorations(on) ==> commands == seq![
                WindowCommand::Decorations(on),
            ]
            &&& effect is RequestCopy ==> commands == seq![WindowCommand::RequestCopy]
            &&& effect is RequestRepaint ==> commands == seq![WindowCommand::RequestRepaint]
            &&& effect is Bell ==> commands == seq![WindowCommand::Attention]
            &&& effect matches AppEffect::RepaintAfter(after) ==> commands == seq![
                WindowCommand::RepaintAfter(after),
            ]
            &&& effect is SetTerminalTextConfig ==> commands == seq![
                WindowCommand::UpdateTerminalText,
            ]
            &&& effect is SetTerminalCursorIcon ==> commands == seq![
                WindowCommand::UpdateTerminalCursor,
            ]
            &&& effect matches AppEffect::SetUiFonts(families) ==> commands == seq![
                WindowCommand::SetFonts(families),
            ]
            &&& effect is SetWindowFocus ==> commands == seq![WindowCommand::Focus]
            &&& effect matches AppEffect::OpenUrl(url) ==> commands == seq![
                WindowCommand::OpenUrl(url),
            ]
        }),
{
}

/// The settings are filled only where they were not open, are then shown and painted, and stay open; a
/// key binding to be set is focused last.
pub proof fn settings_are_opened(viewports: Seq<u64>, open: bool, effect: AppEffect)
    ensures
        ({
            let commands = effect_commands(AppEffect::OpenSettings, viewports, open);
            &&& commands.contains(WindowCommand::FillSettings) <==> !open
            &&& commands.len() >= 2
            &&& commands[commands.len() - 2] == WindowCommand::ShowSettings
            &&& commands[commands.len() - 1] == WindowCommand::RequestRepaint
            &&& effect matches AppEffect::ConfigureKeybind(action) ==> effect_commands(
                effect,
                viewports,
                open,
            ) == commands.push(WindowCommand::FocusKeybinding(action))
        }),
        settings_after(effect, true),
        settings_after(effect, false) <==> effect is OpenSettings || effect is ConfigureKeybind,
{
    let commands = effect_commands(AppEffect::OpenSettings, viewports, open);
    if !open {
        assert(commands[0] == WindowCommand::FillSettings);
    }
}

/// The directories of sessions are those of the sessions that have one, in their order.
pub proof fn directories_are_of_sessions(first: Seq<MuxSession>, session: MuxSession)
    ensures
        session.anchor.cwd matches Some(cwd) ==> session_directories(seq![session] + first) == seq![
            cwd@,
        ] + session_directories(first),
        session.anchor.cwd is None ==> session_directories(seq![session] + first)
            == session_directories(first),
    decreases first.len(),
{
    let all = seq![session] + first;
    let none = Seq::<MuxSession>::empty();
    if first.len() > 0 {
        assert(all.last() == first.last());
        assert(all.drop_last() =~= seq![session] + first.drop_last());
        directories_are_of_sessions(first.drop_last(), session);
        if session.anchor.cwd is Some {
            assert(session_directories(all) =~= seq![session.anchor.cwd->Some_0@]
                + session_directories(first));
        }
    } else {
        assert(all =~= seq![session]);
        assert(all.drop_last() =~= none);
        assert(session_directories(none) =~= Seq::<Seq<char>>::empty());
        assert(session_directories(first) =~= Seq::<Seq<char>>::empty());
        if session.anchor.cwd is Some {
            assert(session_directories(all) =~= seq![session.anchor.cwd->Some_0@]
                + session_directories(first));
        }
    }
}

/// A frame shows the settings alone, or what is around the terminal, the terminal and what lies over it;
/// an error comes after either, and before what lies over the terminal.
pub proof fn frames_are_drawn_in_order(settings: bool)
    ensures
        frame_order(true, false) == seq![FrameStep::ShowSettings],
        frame_order(true, true) == seq![FrameStep::ShowSettings, FrameStep::ShowError],
        frame_order(false, false) == seq![
            FrameStep::ReorderSessions,
            FrameStep::PublishMux,
            FrameStep::ShowChrome,
            FrameStep::ApplyChrome,
            FrameStep::ShowTerminal,
            FrameStep::ShowDialog,
            FrameStep::ShowFind,
            FrameStep::ShowSurfaces,
        ],
        frame_order(false, true) == seq![
            FrameStep::ReorderSessions,
            FrameStep::PublishMux,
            FrameStep::ShowChrome,
            FrameStep::ApplyChrome,
            FrameStep::ShowTerminal,
            FrameStep::ShowError,
            FrameStep::ShowDialog,
            FrameStep::ShowFind,
            FrameStep::ShowSurfaces,
        ],
        frame_order(settings, true).contains(FrameStep::ShowError),
        !frame_order(settings, false).contains(FrameStep::ShowError),
{
    assert(frame_order(true, true) =~= seq![FrameStep::ShowSettings, FrameStep::ShowError]);
    let with = seq![
        FrameStep::ReorderSessions,
        FrameStep::PublishMux,
        FrameStep::ShowChrome,
        FrameStep::ApplyChrome,
        FrameStep::ShowTerminal,
        FrameStep::ShowError,
        FrameStep::ShowDialog,
        FrameStep::ShowFind,
        FrameStep::ShowSurfaces,
    ];
    assert(frame_order(false, true) =~= with);
    assert(frame_order(false, false) =~= seq![
        FrameStep::ReorderSessions,
        FrameStep::PublishMux,
        FrameStep::ShowChrome,
        FrameStep::ApplyChrome,
        FrameStep::ShowTerminal,
        FrameStep::ShowDialog,
        FrameStep::ShowFind,
        FrameStep::ShowSurfaces,
    ]);
    assert(with[5] == FrameStep::ShowError);
    assert(seq![FrameStep::ShowSettings, FrameStep::ShowError][1] == FrameStep::ShowError);
}

}
