//! What a multiplexer can be told to do.

use vstd::prelude::*;

verus! {

/// A multiplexer.
#[derive(Clone, Copy, Debug, PartialEq, Eq, Structural)]
pub enum MuxBackendKind {
    Tmux,
    Rmux,
    Native,
    Zellij,
}

/// Which way a pane is split.
#[derive(Clone, Copy, Debug, PartialEq, Eq, Structural)]
pub enum MuxPaneSplitDirection {
    Right,
    Down,
}

/// A command for a multiplexer.
#[derive(Clone, Debug, PartialEq, Eq)]
pub enum MuxCommand {
    ActivateSession { session_id: String },
    ActivateWindow { session_id: String, window_id: String },
    CreateProjectSession { session_id: String, cwd: String },
    CreateWorktreeSession { session_id: String, cwd: String },
    NewWindow { session_id: String },
    RenameWindow { session_id: String, window_id: String, name: String },
    ActivateNextWindow { session_id: String },
    ActivatePreviousWindow { session_id: String },
    ActivateLastWindow { session_id: String },
    ActivateWindowIndex { session_id: String, index: u32 },
    MoveWindow { session_id: String, window_id: String, delta: i32 },
    MoveWindowPreservingSelection { session_id: String, window_id: String, delta: i32 },
    SplitPane { session_id: String, pane_id: String, direction: MuxPaneSplitDirection },
    SelectPane { session_id: String, pane_id: String },
    SelectNextPane { session_id: String },
    SelectPreviousPane { session_id: String },
    KillPane { session_id: String, pane_id: String },
    ClosePane { session_id: String, pane_id: String },
    TogglePaneZoom { session_id: String, pane_id: String },
    RenameSession { session_id: String, name: String },
    DitchSession { session_id: String },
    StampSession { session_id: String, space: String },
}

}
