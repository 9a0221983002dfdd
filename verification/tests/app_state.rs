use ssh4::config::Snippet;
use ssh4::gui::canvas::{CanvasEvent, Gesture, KeyboardAction, PointerOutcome};
use ssh4::terminal::selection::Selection;
use ssh4::gui::app_state::{
    paste_lines, shortcut_for, snippet_input, names_matching, Effect, Shortcut, UiState,
};
use ssh4::gui::dialogs::{Modal, PaletteAction, PasteAction, UploadAction};
use ssh4::gui::sidebar::SidebarAction;
use ssh4::gui::tabs::{TabAction, TabStrip};
use ssh4::terminal::input::{GuiKey, GuiModifiers};

fn ctrl_shift() -> GuiModifiers {
    GuiModifiers { shift: true, alt: false, ctrl: true, command: false }
}

#[test]
fn snippets_and_line_pastes() {
    assert_eq!(snippet_input("ls -la"), b"ls -la\n".to_vec());
    assert_eq!(paste_lines("a\r\nb\n\nc"), vec![b"a\r".to_vec(), b"b\r".to_vec(), b"\r".to_vec(), b"c\r".to_vec()]);
    assert_eq!(paste_lines("one\n"), vec![b"one\r".to_vec()]);
    assert!(paste_lines("").is_empty());
}

#[test]
fn tab_search_filters_titles() {
    let titles = vec!["root@Web".to_string(), "New connection".to_string(), "db@web2".to_string()];
    assert_eq!(names_matching(&titles, "WEB"), vec![0, 2]);
    assert_eq!(names_matching(&titles, ""), vec![0, 1, 2]);
    assert!(names_matching(&titles, "zzz").is_empty());
}

#[test]
fn shortcuts_change_the_window() {
    assert_eq!(shortcut_for(GuiKey::F(11), GuiModifiers { shift: false, alt: false, ctrl: false, command: false }), Some(Shortcut::FocusMode));
    assert_eq!(shortcut_for(GuiKey::Named('F'), ctrl_shift()), Some(Shortcut::FindBar));
    assert_eq!(shortcut_for(GuiKey::Named('p'), ctrl_shift()), Some(Shortcut::TabSearch));
    assert_eq!(shortcut_for(GuiKey::Named('K'), ctrl_shift()), Some(Shortcut::Palette));
    assert_eq!(shortcut_for(GuiKey::Named('k'), GuiModifiers { shift: false, alt: false, ctrl: true, command: false }), None);
    let mut u = UiState::new(true);
    assert!(!u.on_shortcut(Shortcut::FocusMode));
    assert!(u.focus_mode);
    assert!(u.on_shortcut(Shortcut::FindBar));
    u.on_shortcut(Shortcut::Palette);
    assert!(matches!(u.modal, Modal::Palette { ref query, selected: 0 } if query.is_empty()));
}

#[test]
fn sidebar_actions_and_effects() {
    let mut u = UiState::new(false);
    match u.on_sidebar(SidebarAction::RunSnippet("uptime".to_string())) {
        Effect::SendToActive(w) => assert_eq!(w, vec![b"uptime\n".to_vec()]),
        _ => panic!("a snippet is sent"),
    }
    assert!(matches!(u.on_sidebar(SidebarAction::ToggleKeepAlive), Effect::KeepAlive(true)));
    assert!(u.keep_alive);
    u.on_sidebar(SidebarAction::AddSnippet);
    assert!(matches!(u.modal, Modal::AddSnippet { .. }));
    match u.on_add_snippet(Some(("n".to_string(), "c".to_string())), false) {
        Effect::AddSnippet(s) => assert_eq!(s, Snippet { name: "n".to_string(), command: "c".to_string() }),
        _ => panic!("the snippet is added"),
    }
    assert!(!u.modal.is_open());
    u.on_sidebar(SidebarAction::OpenHelp);
    assert!(matches!(u.modal, Modal::Help));
    assert!(matches!(u.on_sidebar(SidebarAction::DeleteSnippet(3)), Effect::DeleteSnippet(3)));
}

#[test]
fn tab_bar_and_palette_drive_the_tabs() {
    let mut u = UiState::new(false);
    let mut tabs = TabStrip::new("a");
    u.on_tab_action(TabAction::New, &mut tabs, "b");
    u.on_tab_action(TabAction::New, &mut tabs, "c");
    assert_eq!(tabs.tabs, vec!["a", "b", "c"]);
    assert_eq!(tabs.active, 2);
    u.on_tab_action(TabAction::CloseRight(0), &mut tabs, "x");
    assert_eq!(tabs.tabs, vec!["a"]);
    assert_eq!(tabs.active, 0);
    u.on_tab_action(TabAction::Close(0), &mut tabs, "fresh");
    assert_eq!(tabs.tabs, vec!["fresh"]);
    u.on_tab_action(TabAction::ToggleSyncInput, &mut tabs, "x");
    assert!(u.sync_input);
    u.modal = Modal::Palette { query: String::new(), selected: 0 };
    let snippets = vec![Snippet { name: "s".to_string(), command: "df -h".to_string() }];
    match u.on_palette(PaletteAction::RunSnippet(0), &mut tabs, "x", &snippets) {
        Effect::SendToActive(w) => assert_eq!(w, vec![b"df -h\n".to_vec()]),
        _ => panic!("the snippet is sent"),
    }
    assert!(!u.modal.is_open());
    assert!(matches!(u.on_palette(PaletteAction::RunSnippet(5), &mut tabs, "x", &snippets), Effect::Nothing));
    u.on_palette(PaletteAction::NewTab, &mut tabs, "n", &snippets);
    assert_eq!(tabs.tabs, vec!["fresh", "n"]);
    u.on_palette(PaletteAction::CloseTab, &mut tabs, "y", &snippets);
    assert_eq!(tabs.tabs, vec!["fresh"]);
    assert_eq!(tabs.active, 0);
    u.modal = Modal::TabSearch { query: "f".to_string() };
    u.on_tab_search(Some(0), false, &mut tabs);
    assert!(!u.modal.is_open());
}

#[test]
fn paste_and_upload_modals() {
    let mut u = UiState::new(false);
    u.on_paste_request("a\nb".to_string());
    assert!(matches!(u.on_paste(PasteAction::NoAction, false), Effect::Nothing));
    assert!(u.modal.is_open());
    match u.on_paste(PasteAction::SendLineByLine, false) {
        Effect::SendToActive(w) => assert_eq!(w, vec![b"a\r".to_vec(), b"b\r".to_vec()]),
        _ => panic!("lines are sent"),
    }
    assert!(!u.modal.is_open());
    u.on_paste_request("x\ny".to_string());
    match u.on_paste(PasteAction::Send, true) {
        Effect::SendToActive(w) => assert_eq!(w, vec![b"\x1b[200~x\ry\x1b[201~".to_vec()]),
        _ => panic!("the paste is sent"),
    }
    u.on_drop(vec![std::path::PathBuf::from("/tmp/f")], "upload_1".to_string(), false, true);
    match u.on_upload(UploadAction::Confirm) {
        Effect::Upload(p, f) => {
            assert_eq!(p, vec![std::path::PathBuf::from("/tmp/f")]);
            assert_eq!(f, "upload_1");
        }
        _ => panic!("the files are uploaded"),
    }
    u.on_drop(vec![std::path::PathBuf::from("/tmp/f")], "u".to_string(), true, true);
    assert!(!u.modal.is_open());
}

#[test]
fn modals_hold_back_terminal_input() {
    let mut u = UiState::new(false);
    assert!(u.terminal_input_enabled(false));
    assert!(!u.terminal_input_enabled(true));
    u.on_sidebar(SidebarAction::OpenHelp);
    assert!(!u.terminal_input_enabled(false));
}

#[test]
fn canvas_input_follows_the_modal() {
    let mut u = UiState::new(false);
    let key = CanvasEvent::Key(GuiKey::Enter, GuiModifiers { shift: false, alt: false, ctrl: false, command: false });
    assert!(matches!(u.canvas_key(key, false, false, false), KeyboardAction::SendLive(_)));
    u.on_sidebar(SidebarAction::OpenHelp);
    let key = CanvasEvent::Key(GuiKey::Enter, GuiModifiers { shift: false, alt: false, ctrl: false, command: false });
    assert!(matches!(u.canvas_key(key, false, false, false), KeyboardAction::Ignore));
    let mut sel = Selection::default();
    assert!(matches!(u.canvas_pointer(Gesture::Clicked, false, true, false, 0, 0, "", &mut sel), PointerOutcome::Local));
    assert_eq!(u.canvas_wheel(true, false, true, false, Some((0, 0)), 3, 0), (None, 0));
}
