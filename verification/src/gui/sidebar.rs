//! What the sidebar asks the application to do.

use vstd::prelude::*;

verus! {

pub enum SidebarAction {
    NoAction,
    ConnectProfile(String),
    DeleteProfile(String),
    RunSnippet(String),
    DeleteSnippet(usize),
    AddSnippet,
    OpenHelp,
    OpenFileTools,
    ToggleDebugLog,
    ToggleKeepAlive,
    OpenLogFolder,
    SetTheme(usize),
}

} // verus!
