//! The window's decisions between frames: global shortcuts, and what the
//! sidebar, the tab bar, the command palette and the modal dialogs ask for
//! and change. Sessions, the configuration file and painting stay with the
//! caller, which carries out the effect handed back.

use vstd::prelude::*;
use vstd::utf8::encode_utf8;
use crate::config::Snippet;
use crate::gui::dialogs::{Modal, PaletteAction, PasteAction, UploadAction, contains_seq, contains_chars};
use crate::gui::sidebar::SidebarAction;
use crate::gui::tabs::{TabAction, TabStrip};
use crate::gui::theme::Rgb;
use crate::gui::canvas::{CanvasEvent, Gesture, KeyboardAction, PointerOutcome, keyboard_action, keyboard_spec,
    pointer_action, pointer_spec, wheel_action, wheel_spec};
use crate::terminal::selection::Selection;
use crate::terminal::input::{GuiKey, GuiModifiers, paste_payload, paste_spec};
use crate::text::{chars_of, lines_spec, split_lines, lowercase, to_lowercase};

verus! {

/// The bytes a snippet sends: its command and a line feed.
pub open spec fn snippet_bytes(command: Seq<char>) -> Seq<u8> {
    encode_utf8(command).push(0x0a)
}

/// The input a snippet sends to the shell.
pub fn snippet_input(command: &str) -> (b: Vec<u8>)
    ensures
        b@ == snippet_bytes(command@),
{
    let mut b = command.as_bytes_vec();
    b.push(0x0a);
    b
}

/// A pasted line sent on its own: its bytes and a carriage return.
pub open spec fn line_write(line: Seq<char>) -> Seq<u8> {
    encode_utf8(line).push(0x0d)
}

/// The writes of a paste sent line by line: one per line of the text, as
/// `str::lines` cuts it, each ended by a carriage return.
pub open spec fn paste_lines_spec(text: Seq<char>) -> Seq<Seq<u8>> {
    lines_spec(text).map_values(|l: Seq<char>| line_write(l))
}

/// The writes of a paste sent line by line.
pub fn paste_lines(text: &str) -> (w: Vec<Vec<u8>>)
    ensures
        w@.map_values(|b: Vec<u8>| b@) == paste_lines_spec(text@),
{
    let lines = split_lines(text);
    let ghost ls = lines@.map_values(|l: String| l@);
    let mut w: Vec<Vec<u8>> = Vec::new();
    let mut i: usize = 0;
    while i < lines.len()
        invariant
            i <= lines.len(),
            ls == lines@.map_values(|l: String| l@),
            ls == lines_spec(text@),
            w@.map_values(|b: Vec<u8>| b@) == ls.take(i as int).map_values(|l: Seq<char>| line_write(l)),
        decreases lines.len() - i,
    {
        let line = lines[i].as_str();
        let mut b = line.as_bytes_vec();
        assert(b@ == encode_utf8(line@));
        b.push(0x0d);
        assert(ls[i as int] == lines@[i as int]@);
        assert(b@ == line_write(ls[i as int]));
        let ghost old_w = w@;
        w.push(b);
        assert(w@.map_values(|b: Vec<u8>| b@) =~= old_w.map_values(|b: Vec<u8>| b@).push(line_write(ls[i as int])));
        assert(ls.take(i + 1) =~= ls.take(i as int).push(ls[i as int]));
        assert(w@.map_values(|b: Vec<u8>| b@) =~= ls.take(i + 1).map_values(|l: Seq<char>| line_write(l)));
        i += 1;
    }
    assert(ls.take(lines.len() as int) =~= ls);
    w
}

/// Whether a search for `query` offers the name `title` (a tab title or a
/// profile name): an empty query offers everything, else the lower-cased
/// name must contain the lower-cased query.
pub open spec fn tab_offered(title: Seq<char>, query: Seq<char>) -> bool {
    lowercase(query).len() == 0 || contains_seq(lowercase(title), lowercase(query))
}

/// The names offered by a search, among the first `k`, in order.
pub open spec fn offered_upto(titles: Seq<Seq<char>>, query: Seq<char>, k: int) -> Seq<usize>
    decreases k,
{
    if k <= 0 {
        Seq::empty()
    } else if tab_offered(titles[k - 1], query) {
        offered_upto(titles, query, k - 1).push((k - 1) as usize)
    } else {
        offered_upto(titles, query, k - 1)
    }
}

/// The indices of the names offered for `query`: the tab search offers tab
/// titles this way, and the connections flyout profile names.
pub fn names_matching(titles: &Vec<String>, query: &str) -> (r: Vec<usize>)
    ensures
        r@ == offered_upto(titles@.map_values(|t: String| t@), query@, titles.len() as int),
{
    let q = chars_of(to_lowercase(query).as_str());
    let ghost tv = titles@.map_values(|t: String| t@);
    let mut r: Vec<usize> = Vec::new();
    let mut i: usize = 0;
    while i < titles.len()
        invariant
            i <= titles.len(),
            tv == titles@.map_values(|t: String| t@),
            q@ == lowercase(query@),
            r@ == offered_upto(tv, query@, i as int),
        decreases titles.len() - i,
    {
        let t = chars_of(to_lowercase(titles[i].as_str()).as_str());
        assert(tv[i as int] == titles@[i as int]@);
        if q.len() == 0 || contains_chars(&t, &q) {
            r.push(i);
        }
        i += 1;
    }
    r
}

/// The shortcuts the window reacts to wherever the focus is.
#[derive(Clone, Copy, Debug, PartialEq, Eq, Structural)]
pub enum Shortcut {
    /// F11: show or hide the sidebar and tab bar.
    FocusMode,
    /// Ctrl+Shift+F: show or hide the active tab's find bar.
    FindBar,
    /// Ctrl+Shift+P: search the tabs.
    TabSearch,
    /// Ctrl+Shift+K: the command palette.
    Palette,
}

/// The key is the letter `c` (lower case), in either case.
pub open spec fn key_is_letter(key: GuiKey, c: char) -> bool {
    match key {
        GuiKey::Named(k) => k == c || k as u32 + 0x20 == c as u32,
        _ => false,
    }
}

/// The shortcut a key press stands for.
pub open spec fn shortcut_spec(key: GuiKey, m: GuiModifiers) -> Option<Shortcut> {
    if key == GuiKey::F(11) {
        Some(Shortcut::FocusMode)
    } else if m.ctrl && m.shift && key_is_letter(key, 'f') {
        Some(Shortcut::FindBar)
    } else if m.ctrl && m.shift && key_is_letter(key, 'p') {
        Some(Shortcut::TabSearch)
    } else if m.ctrl && m.shift && key_is_letter(key, 'k') {
        Some(Shortcut::Palette)
    } else {
        None
    }
}

fn key_letter(key: GuiKey, c: char) -> (b: bool)
    requires
        0x61 <= c as u32 <= 0x7a,
    ensures
        b == key_is_letter(key, c),
{
    match key {
        GuiKey::Named(k) => k == c || (k as u32) + 0x20 == c as u32,
        _ => false,
    }
}

/// Which shortcut, if any, a key press is.
pub fn shortcut_for(key: GuiKey, m: GuiModifiers) -> (s: Option<Shortcut>)
    ensures
        s == shortcut_spec(key, m),
{
    let f11 = match key {
        GuiKey::F(n) => n == 11,
        _ => false,
    };
    if f11 {
        Some(Shortcut::FocusMode)
    } else if m.ctrl && m.shift && key_letter(key, 'f') {
        Some(Shortcut::FindBar)
    } else if m.ctrl && m.shift && key_letter(key, 'p') {
        Some(Shortcut::TabSearch)
    } else if m.ctrl && m.shift && key_letter(key, 'k') {
        Some(Shortcut::Palette)
    } else {
        None
    }
}


/// What an action leaves to the caller, beyond the window's own state.
pub enum Effect {
    Nothing,
    /// Open a session from the saved profile of that name.
    ConnectProfile(String),
    /// Remove the saved profile of that name and save the configuration.
    DeleteProfile(String),
    /// Remove snippet `i`, when there is one, and save the configuration.
    DeleteSnippet(usize),
    /// Append the snippet and save the configuration.
    AddSnippet(Snippet),
    /// Write these to the active session, one write each.
    SendToActive(Vec<Vec<u8>>),
    /// Keep-alive was switched: tell every session and save the
    /// configuration.
    KeepAlive(bool),
    /// Switch to built-in theme `i`.
    SetTheme(usize),
    /// Show the folder the debug log is written to.
    OpenLogFolder,
    /// Give tab `i` this colour (none: the default).
    SetTabColor(usize, Option<Rgb>),
    /// Upload the dropped files, into a folder of that name.
    Upload(Vec<std::path::PathBuf>, String),
}

/// The window's state outside the tabs.
pub struct UiState {
    /// Sidebar and tab bar hidden.
    pub focus_mode: bool,
    /// Input typed in one tab goes to every connected tab.
    pub sync_input: bool,
    pub keep_alive: bool,
    pub debug_log: bool,
    pub file_tools_open: bool,
    pub modal: Modal,
}

/// The same flags, and whether a modal is open.
pub open spec fn flags(u: UiState) -> (bool, bool, bool, bool, bool) {
    (u.focus_mode, u.sync_input, u.keep_alive, u.debug_log, u.file_tools_open)
}

impl UiState {
    /// A window with no modal open, keep-alive as configured.
    pub fn new(keep_alive: bool) -> (u: Self)
        ensures
            flags(u) == (false, false, keep_alive, false, false),
            u.modal is Closed,
    {
        UiState {
            focus_mode: false,
            sync_input: false,
            keep_alive,
            debug_log: false,
            file_tools_open: false,
            modal: Modal::Closed,
        }
    }

    /// Whether typing reaches the terminal: never while a modal is open or
    /// the find bar has the focus.
    pub fn terminal_input_enabled(&self, find_bar_open: bool) -> (b: bool)
        ensures
            b == (self.modal is Closed && !find_bar_open),
    {
        !self.modal.is_open() && !find_bar_open
    }

    /// What a keyboard event on the terminal canvas does, with terminal
    /// input enabled as `terminal_input_enabled` says.
    pub fn canvas_key(&self, ev: CanvasEvent, find_bar_open: bool, selection_active: bool, bracketed: bool) -> (a: KeyboardAction)
        ensures
            keyboard_spec(ev, self.modal is Closed && !find_bar_open, selection_active, bracketed, a),
    {
        let enabled = self.terminal_input_enabled(find_bar_open);
        keyboard_action(ev, enabled, selection_active, bracketed)
    }

    /// What a pointer gesture on the terminal canvas does, with terminal
    /// input enabled as `terminal_input_enabled` says.
    pub fn canvas_pointer(
        &self,
        g: Gesture,
        find_bar_open: bool,
        remote_mouse: bool,
        ctrl: bool,
        row: i32,
        col: i32,
        row_text: &str,
        selection: &mut Selection,
    ) -> (o: PointerOutcome)
        requires
            row < u16::MAX,
            col < u16::MAX,
        ensures
            pointer_spec(
                g,
                self.modal is Closed && !find_bar_open,
                remote_mouse,
                ctrl,
                row,
                col,
                row_text@,
                *old(selection),
                *final(selection),
                o,
            ),
    {
        let enabled = self.terminal_input_enabled(find_bar_open);
        pointer_action(g, enabled, remote_mouse, ctrl, row, col, row_text, selection)
    }

    /// What the wheel over the terminal canvas does, with terminal input
    /// enabled as `terminal_input_enabled` says.
    pub fn canvas_wheel(
        &self,
        up: bool,
        find_bar_open: bool,
        remote_mouse: bool,
        alt_screen: bool,
        at: Option<(u16, u16)>,
        lines: usize,
        scrollback: usize,
    ) -> (r: (Option<Vec<u8>>, usize))
        requires
            scrollback + lines <= usize::MAX,
            at matches Some(p) ==> p.0 < u16::MAX && p.1 < u16::MAX,
        ensures
            wheel_spec(up, self.modal is Closed && !find_bar_open, remote_mouse, alt_screen, at, lines, scrollback, r),
    {
        let enabled = self.terminal_input_enabled(find_bar_open);
        wheel_action(up, enabled, remote_mouse, alt_screen, at, lines, scrollback)
    }

    /// Apply a shortcut. The result says whether the active tab's find bar
    /// is to be shown or hidden.
    pub fn on_shortcut(&mut self, s: Shortcut) -> (toggle_find: bool)
        ensures
            toggle_find == (s == Shortcut::FindBar),
            final(self).focus_mode == (old(self).focus_mode != (s == Shortcut::FocusMode)),
            final(self).sync_input == old(self).sync_input,
            final(self).keep_alive == old(self).keep_alive,
            final(self).debug_log == old(self).debug_log,
            final(self).file_tools_open == old(self).file_tools_open,
            s == Shortcut::TabSearch ==> (final(self).modal matches Modal::TabSearch { query } && query@.len()
                == 0),
            s == Shortcut::Palette ==> (final(self).modal matches Modal::Palette { query, selected }
                && query@.len() == 0 && selected == 0),
            (s == Shortcut::FocusMode || s == Shortcut::FindBar) ==> final(self).modal == old(self).modal,
    {
        match s {
            Shortcut::FocusMode => {
                self.focus_mode = !self.focus_mode;
                false
            },
            Shortcut::FindBar => true,
            Shortcut::TabSearch => {
                self.modal = Modal::TabSearch { query: String::new() };
                false
            },
            Shortcut::Palette => {
                self.modal = Modal::Palette { query: String::new(), selected: 0 };
                false
            },
        }
    }

    /// Files dropped on the window ask, in a modal, whether to upload them
    /// into `folder`: only when some were dropped, no modal was open when
    /// the frame began, and a session is active.
    pub fn on_drop(&mut self, paths: Vec<std::path::PathBuf>, folder: String, modal_was_open: bool, has_session: bool)
        ensures
            flags(*final(self)) == flags(*old(self)),
            if paths.len() > 0 && !modal_was_open && has_session {
                final(self).modal matches Modal::UploadConfirm { paths: p, folder: f } && p@ == paths@ && f@
                    == folder@
            } else {
                final(self).modal == old(self).modal
            },
    {
        if paths.len() > 0 && !modal_was_open && has_session {
            self.modal = Modal::UploadConfirm { paths, folder };
        }
    }

    /// Carry out what the sidebar asked for.
    pub fn on_sidebar(&mut self, a: SidebarAction) -> (e: Effect)
        ensures
            final(self).focus_mode == old(self).focus_mode,
            final(self).sync_input == old(self).sync_input,
            match a {
                SidebarAction::NoAction => e is Nothing && *final(self) == *old(self),
                SidebarAction::ConnectProfile(n) => e matches Effect::ConnectProfile(m) && m@ == n@
                    && *final(self) == *old(self),
                SidebarAction::DeleteProfile(n) => e matches Effect::DeleteProfile(m) && m@ == n@
                    && *final(self) == *old(self),
                SidebarAction::RunSnippet(c) => e matches Effect::SendToActive(w) && w@.len() == 1
                    && w@[0]@ == snippet_bytes(c@) && *final(self) == *old(self),
                SidebarAction::DeleteSnippet(i) => e == Effect::DeleteSnippet(i) && *final(self)
                    == *old(self),
                SidebarAction::AddSnippet => {
                    &&& e is Nothing
                    &&& flags(*final(self)) == flags(*old(self))
                    &&& final(self).modal matches Modal::AddSnippet { name, command } && name@.len() == 0
                        && command@.len() == 0
                },
                SidebarAction::OpenHelp => e is Nothing && flags(*final(self)) == flags(*old(self))
                    && final(self).modal is Help,
                SidebarAction::OpenFileTools => e is Nothing && final(self).file_tools_open
                    && final(self).debug_log == old(self).debug_log && final(self).keep_alive
                    == old(self).keep_alive && final(self).modal == old(self).modal,
                SidebarAction::ToggleDebugLog => e is Nothing && final(self).debug_log
                    == !old(self).debug_log && final(self).file_tools_open == old(self).file_tools_open
                    && final(self).keep_alive == old(self).keep_alive && final(self).modal
                    == old(self).modal,
                SidebarAction::ToggleKeepAlive => e == Effect::KeepAlive(!old(self).keep_alive)
                    && final(self).keep_alive == !old(self).keep_alive && final(self).debug_log
                    == old(self).debug_log && final(self).file_tools_open == old(self).file_tools_open
                    && final(self).modal == old(self).modal,
                SidebarAction::OpenLogFolder => e is OpenLogFolder && *final(self) == *old(self),
                SidebarAction::SetTheme(i) => e == Effect::SetTheme(i) && *final(self) == *old(self),
            },
    {
        match a {
            SidebarAction::NoAction => Effect::Nothing,
            SidebarAction::ConnectProfile(n) => Effect::ConnectProfile(n),
            SidebarAction::DeleteProfile(n) => Effect::DeleteProfile(n),
            SidebarAction::RunSnippet(c) => {
                let mut w: Vec<Vec<u8>> = Vec::new();
                w.push(snippet_input(c.as_str()));
                Effect::SendToActive(w)
            },
            SidebarAction::DeleteSnippet(i) => Effect::DeleteSnippet(i),
            SidebarAction::AddSnippet => {
                self.modal = Modal::AddSnippet { name: String::new(), command: String::new() };
                Effect::Nothing
            },
            SidebarAction::OpenHelp => {
                self.modal = Modal::Help;
                Effect::Nothing
            },
            SidebarAction::OpenFileTools => {
                self.file_tools_open = true;
                Effect::Nothing
            },
            SidebarAction::ToggleDebugLog => {
                self.debug_log = !self.debug_log;
                Effect::Nothing
            },
            SidebarAction::ToggleKeepAlive => {
                self.keep_alive = !self.keep_alive;
                Effect::KeepAlive(self.keep_alive)
            },
            SidebarAction::OpenLogFolder => Effect::OpenLogFolder,
            SidebarAction::SetTheme(i) => Effect::SetTheme(i),
        }
    }
}


/// The tabs and the active index after a tab-bar action (the same as
/// before for actions that do not touch the tabs). A closed last tab is
/// replaced by `fresh`, as is the tab a new-tab action opens.
pub open spec fn tabs_after<T>(a: TabAction, tabs: Seq<T>, active: usize, fresh: T) -> (Seq<T>, usize) {
    match a {
        TabAction::Select(i) => (tabs, i),
        TabAction::New => (tabs.push(fresh), tabs.len() as usize),
        TabAction::Close(i) => {
            let rest = if i < tabs.len() {
                tabs.remove(i as int)
            } else {
                tabs
            };
            let t = if rest.len() == 0 {
                seq![fresh]
            } else {
                rest
            };
            (t, if active < t.len() {
                active
            } else {
                (t.len() - 1) as usize
            })
        },
        TabAction::CloseOthers(i) => (seq![tabs[i as int]], 0),
        TabAction::CloseRight(i) => (
            if i + 1 < tabs.len() {
                tabs.take(i + 1)
            } else {
                tabs
            },
            if active < i {
                active
            } else {
                i
            },
        ),
        _ => (tabs, active),
    }
}

/// A tab-bar action can be carried out: "close others" names a tab.
pub open spec fn tab_action_ok(a: TabAction, len: nat) -> bool {
    match a {
        TabAction::CloseOthers(i) => i < len,
        TabAction::CloseRight(i) => i < usize::MAX,
        _ => true,
    }
}

impl UiState {
    /// Carry out what the tab bar asked for.
    pub fn on_tab_action<T>(&mut self, a: TabAction, tabs: &mut TabStrip<T>, fresh: T) -> (e: Effect)
        requires
            old(tabs).wf(),
            tab_action_ok(a, old(tabs).tabs@.len()),
        ensures
            final(tabs).wf(),
            (final(tabs).tabs@, final(tabs).active) == tabs_after(a, old(tabs).tabs@, old(tabs).active, fresh),
            final(self).focus_mode == (old(self).focus_mode != (a is ToggleFocusMode)),
            final(self).sync_input == (old(self).sync_input != (a is ToggleSyncInput)),
            final(self).keep_alive == old(self).keep_alive,
            final(self).debug_log == old(self).debug_log,
            final(self).file_tools_open == old(self).file_tools_open,
            a is OpenTabSearch ==> (final(self).modal matches Modal::TabSearch { query } && query@.len() == 0),
            !(a is OpenTabSearch) ==> final(self).modal == old(self).modal,
            match a {
                TabAction::SetColor(i, c) => e == Effect::SetTabColor(i, c),
                _ => e is Nothing,
            },
    {
        match a {
            TabAction::Select(i) => {
                tabs.select(i);
                Effect::Nothing
            },
            TabAction::New => {
                tabs.new_tab(fresh);
                Effect::Nothing
            },
            TabAction::Close(i) => {
                tabs.close(i, fresh);
                Effect::Nothing
            },
            TabAction::CloseOthers(i) => {
                tabs.close_others(i);
                Effect::Nothing
            },
            TabAction::CloseRight(i) => {
                tabs.close_right(i);
                Effect::Nothing
            },
            TabAction::SetColor(i, c) => Effect::SetTabColor(i, c),
            TabAction::ToggleSyncInput => {
                self.sync_input = !self.sync_input;
                Effect::Nothing
            },
            TabAction::ToggleFocusMode => {
                self.focus_mode = !self.focus_mode;
                Effect::Nothing
            },
            TabAction::OpenTabSearch => {
                self.modal = Modal::TabSearch { query: String::new() };
                Effect::Nothing
            },
            TabAction::NoAction => Effect::Nothing,
        }
    }

    /// A multi-line paste waits in a modal for confirmation.
    pub fn on_paste_request(&mut self, text: String)
        ensures
            flags(*final(self)) == flags(*old(self)),
            final(self).modal matches Modal::Paste { text: t } && t@ == text@,
    {
        self.modal = Modal::Paste { text };
    }

    /// Carry out the answer to the paste modal: send the text as one paste
    /// (bracketed when the remote asked for it) or line by line, or drop
    /// it. Any answer closes the modal.
    pub fn on_paste(&mut self, a: PasteAction, bracketed: bool) -> (e: Effect)
        requires
            old(self).modal is Paste,
        ensures
            flags(*final(self)) == flags(*old(self)),
            match old(self).modal {
                Modal::Paste { text } => match a {
                    PasteAction::Send => {
                        &&& e matches Effect::SendToActive(w) && w@.len() == 1 && w@[0]@ == paste_spec(
                            text@,
                            bracketed,
                        )
                        &&& final(self).modal is Closed
                    },
                    PasteAction::SendLineByLine => {
                        &&& e matches Effect::SendToActive(w) && w@.map_values(|b: Vec<u8>| b@)
                            == paste_lines_spec(text@)
                        &&& final(self).modal is Closed
                    },
                    PasteAction::Cancel => e is Nothing && final(self).modal is Closed,
                    PasteAction::NoAction => e is Nothing && final(self).modal == old(self).modal,
                },
                _ => false,
            },
    {
        let text = match &self.modal {
            Modal::Paste { text } => text.clone(),
            _ => String::new(),
        };
        match a {
            PasteAction::Send => {
                let mut w: Vec<Vec<u8>> = Vec::new();
                w.push(paste_payload(text.as_str(), bracketed));
                self.modal = Modal::Closed;
                Effect::SendToActive(w)
            },
            PasteAction::SendLineByLine => {
                let w = paste_lines(text.as_str());
                self.modal = Modal::Closed;
                Effect::SendToActive(w)
            },
            PasteAction::Cancel => {
                self.modal = Modal::Closed;
                Effect::Nothing
            },
            PasteAction::NoAction => Effect::Nothing,
        }
    }

    /// Carry out the answer to the upload modal: confirming uploads the
    /// dropped files into the folder it names; any answer closes it.
    pub fn on_upload(&mut self, a: UploadAction) -> (e: Effect)
        requires
            old(self).modal is UploadConfirm,
        ensures
            flags(*final(self)) == flags(*old(self)),
            match old(self).modal {
                Modal::UploadConfirm { paths, folder } => match a {
                    UploadAction::Confirm => {
                        &&& e matches Effect::Upload(p, f) && p@ == paths@ && f@ == folder@
                        &&& final(self).modal is Closed
                    },
                    UploadAction::Cancel => e is Nothing && final(self).modal is Closed,
                    UploadAction::NoAction => e is Nothing && final(self).modal == old(self).modal,
                },
                _ => false,
            },
    {
        match a {
            UploadAction::Confirm => {
                let mut m = Modal::Closed;
                std::mem::swap(&mut m, &mut self.modal);
                match m {
                    Modal::UploadConfirm { paths, folder } => Effect::Upload(paths, folder),
                    _ => Effect::Nothing,
                }
            },
            UploadAction::Cancel => {
                self.modal = Modal::Closed;
                Effect::Nothing
            },
            UploadAction::NoAction => Effect::Nothing,
        }
    }

    /// Carry out the answer to the new-snippet modal: a filled form adds
    /// the snippet; it or a cancel closes the modal.
    pub fn on_add_snippet(&mut self, result: Option<(String, String)>, cancelled: bool) -> (e: Effect)
        ensures
            flags(*final(self)) == flags(*old(self)),
            match result {
                Some((n, c)) => {
                    &&& e matches Effect::AddSnippet(sn) && sn.name@ == n@ && sn.command@ == c@
                    &&& final(self).modal is Closed
                },
                None => e is Nothing && if cancelled {
                    final(self).modal is Closed
                } else {
                    final(self).modal == old(self).modal
                },
            },
    {
        match result {
            Some((name, command)) => {
                self.modal = Modal::Closed;
                Effect::AddSnippet(Snippet { name, command })
            },
            None => {
                if cancelled {
                    self.modal = Modal::Closed;
                }
                Effect::Nothing
            },
        }
    }

    /// Carry out the answer to the tab search: a chosen tab becomes active,
    /// and choosing or closing ends the search.
    pub fn on_tab_search<T>(&mut self, select: Option<usize>, close: bool, tabs: &mut TabStrip<T>)
        ensures
            flags(*final(self)) == flags(*old(self)),
            final(tabs).tabs@ == old(tabs).tabs@,
            final(tabs).active == match select {
                Some(i) => i,
                None => old(tabs).active,
            },
            if select is Some || close {
                final(self).modal is Closed
            } else {
                final(self).modal == old(self).modal
            },
    {
        let mut done = close;
        if let Some(i) = select {
            tabs.select(i);
            done = true;
        }
        if done {
            self.modal = Modal::Closed;
        }
    }

    /// Carry out a command-palette action. Every action but opening the
    /// tab search or the help closes the palette; running snippet `i` sends
    /// its command when there is such a snippet.
    pub fn on_palette<T>(&mut self, a: PaletteAction, tabs: &mut TabStrip<T>, fresh: T, snippets: &Vec<Snippet>) -> (e: Effect)
        requires
            old(tabs).wf(),
        ensures
            final(tabs).wf(),
            final(self).focus_mode == (old(self).focus_mode != (a == PaletteAction::ToggleFocus)),
            final(self).sync_input == (old(self).sync_input != (a == PaletteAction::ToggleSync)),
            final(self).keep_alive == old(self).keep_alive,
            final(self).debug_log == old(self).debug_log,
            final(self).file_tools_open == (old(self).file_tools_open || a == PaletteAction::OpenFileTools),
            (final(tabs).tabs@, final(tabs).active) == match a {
                PaletteAction::NewTab => tabs_after(TabAction::New, old(tabs).tabs@, old(tabs).active, fresh),
                PaletteAction::CloseTab => tabs_after(
                    TabAction::Close(old(tabs).active),
                    old(tabs).tabs@,
                    old(tabs).active,
                    fresh,
                ),
                _ => (old(tabs).tabs@, old(tabs).active),
            },
            match a {
                PaletteAction::NoAction => final(self).modal == old(self).modal,
                PaletteAction::SearchTabs => final(self).modal matches Modal::TabSearch { query } && query@.len()
                    == 0,
                PaletteAction::OpenHelp => final(self).modal is Help,
                _ => final(self).modal is Closed,
            },
            match a {
                PaletteAction::SetTheme(i) => e == Effect::SetTheme(i),
                PaletteAction::RunSnippet(i) => if i < snippets.len() {
                    e matches Effect::SendToActive(w) && w@.len() == 1 && w@[0]@ == snippet_bytes(
                        snippets@[i as int].command@,
                    )
                } else {
                    e is Nothing
                },
                _ => e is Nothing,
            },
    {
        match a {
            PaletteAction::NoAction => Effect::Nothing,
            PaletteAction::Close => {
                self.modal = Modal::Closed;
                Effect::Nothing
            },
            PaletteAction::NewTab => {
                self.modal = Modal::Closed;
                tabs.new_tab(fresh);
                Effect::Nothing
            },
            PaletteAction::CloseTab => {
                self.modal = Modal::Closed;
                let i = tabs.active;
                tabs.close(i, fresh);
                Effect::Nothing
            },
            PaletteAction::SearchTabs => {
                self.modal = Modal::TabSearch { query: String::new() };
                Effect::Nothing
            },
            PaletteAction::ToggleFocus => {
                self.focus_mode = !self.focus_mode;
                self.modal = Modal::Closed;
                Effect::Nothing
            },
            PaletteAction::ToggleSync => {
                self.sync_input = !self.sync_input;
                self.modal = Modal::Closed;
                Effect::Nothing
            },
            PaletteAction::OpenHelp => {
                self.modal = Modal::Help;
                Effect::Nothing
            },
            PaletteAction::OpenFileTools => {
                self.file_tools_open = true;
                self.modal = Modal::Closed;
                Effect::Nothing
            },
            PaletteAction::SetTheme(i) => {
                self.modal = Modal::Closed;
                Effect::SetTheme(i)
            },
            PaletteAction::RunSnippet(i) => {
                self.modal = Modal::Closed;
                if i < snippets.len() {
                    let mut w: Vec<Vec<u8>> = Vec::new();
                    w.push(snippet_input(snippets[i].command.as_str()));
                    Effect::SendToActive(w)
                } else {
                    Effect::Nothing
                }
            },
        }
    }
}


/// No terminal input is forwarded while a modal is open: whatever the key,
/// gesture or wheel movement, the canvas sends the remote nothing (a key is
/// ignored, a gesture yields no report, the wheel no report).
pub proof fn lemma_modal_blocks_input(
    u: UiState,
    find_bar_open: bool,
    ev: CanvasEvent,
    selection_active: bool,
    bracketed: bool,
    a: KeyboardAction,
    g: Gesture,
    remote_mouse: bool,
    ctrl: bool,
    row: i32,
    col: i32,
    row_text: Seq<char>,
    sel0: Selection,
    sel1: Selection,
    o: PointerOutcome,
    up: bool,
    alt_screen: bool,
    at: Option<(u16, u16)>,
    lines: usize,
    scrollback: usize,
    w: (Option<Vec<u8>>, usize),
)
    requires
        !(u.modal is Closed),
        keyboard_spec(ev, u.modal is Closed && !find_bar_open, selection_active, bracketed, a),
        pointer_spec(g, u.modal is Closed && !find_bar_open, remote_mouse, ctrl, row, col, row_text, sel0, sel1, o),
        wheel_spec(up, u.modal is Closed && !find_bar_open, remote_mouse, alt_screen, at, lines, scrollback, w),
    ensures
        a is Ignore,
        !(o is Report),
        w.0 is None,
{
}

} // verus!
