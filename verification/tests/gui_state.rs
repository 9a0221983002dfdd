use ssh4::gui::dialogs::{clamp_selection, move_selection, palette_entries, palette_view, PaletteAction};
use ssh4::gui::dock::profile_color_index;
use ssh4::gui::files::{dialog_title, name_dialog_op, FileTools, FsMsg, NameDialog, NameOp};
use ssh4::gui::tabs::{broadcast_targets, TabStrip};
use ssh4::remote_fs::parse_ls_line;

#[test]
fn palette_groups_navigation_then_session_then_tools() {
    let entries = palette_entries(&Vec::new());
    let view = palette_view(&entries, "");
    let actions: Vec<PaletteAction> = view.iter().map(|&i| entries[i].1).collect();
    assert_eq!(actions[0], PaletteAction::SearchTabs);
    assert_eq!(
        &actions[1..5],
        &[PaletteAction::NewTab, PaletteAction::CloseTab, PaletteAction::ToggleFocus, PaletteAction::ToggleSync]
    );
    assert_eq!(actions[5], PaletteAction::OpenHelp);
    assert_eq!(view.len(), entries.len());
    assert_eq!(palette_view(&entries, "theme"), vec![7, 8, 9]);
}

#[test]
fn palette_selection_stays_on_visible_rows() {
    assert_eq!(clamp_selection(5, 3), 2);
    assert_eq!(clamp_selection(1, 3), 1);
    assert_eq!(clamp_selection(4, 0), 0);
    assert_eq!(move_selection(2, 3, true), 2);
    assert_eq!(move_selection(0, 3, true), 1);
    assert_eq!(move_selection(0, 3, false), 0);
    assert_eq!(move_selection(2, 3, false), 1);
}

#[test]
fn tab_strip_keeps_a_tab_and_a_valid_active_index() {
    let mut t = TabStrip::new("a");
    t.new_tab("b");
    t.new_tab("c");
    assert_eq!(t.active, 2);
    t.close(2, "fresh");
    assert_eq!(t.tabs, vec!["a", "b"]);
    assert_eq!(t.active, 1);
    t.close(9, "fresh");
    assert_eq!(t.tabs, vec!["a", "b"]);
    t.close(0, "fresh");
    t.close(0, "fresh");
    assert_eq!(t.tabs, vec!["fresh"]);
    assert_eq!(t.active, 0);
    t.new_tab("x");
    t.new_tab("y");
    t.close_others(1);
    assert_eq!(t.tabs, vec!["x"]);
    t.new_tab("y");
    t.new_tab("z");
    t.close_right(0);
    assert_eq!(t.tabs, vec!["x"]);
    assert_eq!(t.active, 0);
    t.select(0);
    assert_eq!(t.active, 0);
}

#[test]
fn profile_colors_are_stable() {
    let i = profile_color_index("home");
    assert!(i < 6);
    assert_eq!(i, profile_color_index("home"));
    let h = "home".bytes().fold(5381u32, |h, b| h.wrapping_mul(33).wrapping_add(b as u32));
    assert_eq!(i, (h as usize) % 6);
    assert_eq!(profile_color_index(""), (5381usize) % 6);
}

#[test]
fn file_tools_follow_background_reports() {
    let mut f = FileTools::new();
    f.begin_listing();
    assert!(f.listing);
    let e = parse_ls_line("-rw-r--r-- 1 k u 1 Jun 9 14:30 a").unwrap();
    assert!(!f.handle_message(FsMsg::Listing { dir: "/x".into(), result: Ok(vec![e]) }));
    assert!(!f.listing);
    assert_eq!(f.remote_dir, "/x");
    assert_eq!(f.remote_entries.len(), 1);
    f.local_dirty = false;
    assert!(!f.handle_message(FsMsg::Status { msg: "Downloaded a".into(), ok: true }));
    assert!(f.local_dirty);
    assert_eq!(f.status, Some(("Downloaded a".to_string(), true)));
    assert!(!f.handle_message(FsMsg::Listing { dir: "/y".into(), result: Err("denied".into()) }));
    assert_eq!(f.remote_dir, "/x");
    assert_eq!(f.status, Some(("denied".to_string(), false)));
    assert!(f.handle_message(FsMsg::Refresh));
}

#[test]
fn name_dialogs_become_operations() {
    match name_dialog_op(NameDialog::NewRemoteFile(" notes.txt ".into()), "/tmp/") {
        NameOp::Touch { path, done } => {
            assert_eq!(path, "/tmp/notes.txt");
            assert_eq!(done, "Created  notes.txt ");
        }
        _ => panic!("expected touch"),
    }
    match name_dialog_op(NameDialog::NewRemoteDir("d".into()), "") {
        NameOp::Mkdir { path, done } => assert_eq!((path.as_str(), done.as_str()), ("/d", "Created d/")),
        _ => panic!("expected mkdir"),
    }
    match name_dialog_op(NameDialog::RenameRemote { from: "a".into(), to: " b".into() }, "/r") {
        NameOp::RenameRemote { from, to, done } => {
            assert_eq!((from.as_str(), to.as_str(), done.as_str()), ("/r/a", "/r/b", "Renamed a"));
        }
        _ => panic!("expected rename"),
    }
    match name_dialog_op(NameDialog::Chmod { path: "/f".into(), mode: "644".into() }, "/") {
        NameOp::Chmod { path, mode, done } => {
            assert_eq!((path.as_str(), mode.as_str(), done.as_str()), ("/f", "644", "chmod 644 applied"));
        }
        _ => panic!("expected chmod"),
    }
    assert!(matches!(name_dialog_op(NameDialog::NewLocalFile("   ".into()), "/"), NameOp::NoOp));
    assert!(matches!(name_dialog_op(NameDialog::NewLocalDir(" x ".into()), "/"), NameOp::CreateLocalDir(n) if n == "x"));
    assert!(matches!(name_dialog_op(NameDialog::Closed, "/"), NameOp::NoOp));
    assert_eq!(dialog_title(&NameDialog::Chmod { path: String::new(), mode: String::new() }), Some("Change permissions"));
    assert_eq!(dialog_title(&NameDialog::Closed), None);
}

#[test]
fn synced_input_goes_to_other_connected_tabs() {
    let connected = vec![true, false, true, true];
    assert_eq!(broadcast_targets(true, 0, &connected, true), vec![2, 3]);
    assert_eq!(broadcast_targets(true, 2, &connected, true), vec![0, 3]);
    assert!(broadcast_targets(false, 0, &connected, true).is_empty());
    assert!(broadcast_targets(true, 0, &connected, false).is_empty());
}
