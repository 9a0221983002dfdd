use ssh4::gui::canvas::{keyboard_action, pointer_action, wheel_action, CanvasEvent, Gesture, KeyboardAction, PointerOutcome};
use ssh4::terminal::input::{GuiKey, GuiModifiers};
use ssh4::terminal::selection::{CellPos, Selection};

fn mods(ctrl: bool) -> GuiModifiers {
    GuiModifiers { shift: false, alt: false, ctrl, command: false }
}

#[test]
fn keyboard_events_map_to_actions() {
    match keyboard_action(CanvasEvent::Text("é".to_string()), true, false, false) {
        KeyboardAction::Send(b) => assert_eq!(b, "é".as_bytes().to_vec()),
        _ => panic!("text must be sent"),
    }
    match keyboard_action(CanvasEvent::Paste("a\nb".to_string()), true, false, false) {
        KeyboardAction::ConfirmPaste(t) => assert_eq!(t, "a\nb"),
        _ => panic!("multi-line paste must be confirmed"),
    }
    match keyboard_action(CanvasEvent::Paste("ls".to_string()), true, false, true) {
        KeyboardAction::Send(b) => assert_eq!(b, b"\x1b[200~ls\x1b[201~".to_vec()),
        _ => panic!("single-line paste is sent"),
    }
    assert!(matches!(keyboard_action(CanvasEvent::Copy, true, false, false), KeyboardAction::Copy));
    let ctrl_c = CanvasEvent::Key(GuiKey::Named('c'), mods(true));
    assert!(matches!(keyboard_action(ctrl_c, true, true, false), KeyboardAction::CopyAndClear));
    let ctrl_c = CanvasEvent::Key(GuiKey::Named('C'), mods(true));
    assert!(matches!(keyboard_action(ctrl_c, true, false, false), KeyboardAction::Ignore));
    let enter = CanvasEvent::Key(GuiKey::Enter, mods(false));
    assert!(matches!(keyboard_action(enter, true, true, false), KeyboardAction::CopyAndClear));
    match keyboard_action(CanvasEvent::Key(GuiKey::Enter, mods(false)), true, false, false) {
        KeyboardAction::SendLive(b) => assert_eq!(b, vec![0x0d]),
        _ => panic!("enter is sent"),
    }
    let ctrl_p = CanvasEvent::Key(GuiKey::Named('p'), mods(true));
    assert!(matches!(keyboard_action(ctrl_p, true, false, false), KeyboardAction::UploadImage));
    let ctrl_v = CanvasEvent::Key(GuiKey::Named('v'), mods(true));
    assert!(matches!(keyboard_action(ctrl_v, true, false, false), KeyboardAction::Ignore));
    match keyboard_action(CanvasEvent::Key(GuiKey::Named('d'), mods(true)), true, false, false) {
        KeyboardAction::SendLive(b) => assert_eq!(b, vec![0x04]),
        _ => panic!("ctrl-d is sent"),
    }
    assert!(matches!(
        keyboard_action(CanvasEvent::Key(GuiKey::Other, mods(false)), true, false, false),
        KeyboardAction::Ignore
    ));
}

#[test]
fn pointer_reports_or_selects() {
    let mut sel = Selection::default();
    match pointer_action(Gesture::Clicked, true, true, false, 2, 4, "", &mut sel) {
        PointerOutcome::Report(w) => {
            assert_eq!(w, vec![b"\x1b[<0;5;3M".to_vec(), b"\x1b[<0;5;3m".to_vec()])
        }
        _ => panic!("remote mouse reports"),
    }
    match pointer_action(Gesture::Dragged, true, true, false, -3, 0, "", &mut sel) {
        PointerOutcome::Report(w) => assert_eq!(w, vec![b"\x1b[<32;1;1M".to_vec()]),
        _ => panic!("remote mouse reports"),
    }
    assert!(matches!(pointer_action(Gesture::DragStarted, true, false, false, 1, 2, "", &mut sel), PointerOutcome::Local));
    assert_eq!(sel.anchor, Some(CellPos { row: 1, col: 2 }));
    pointer_action(Gesture::Dragged, true, false, false, 3, 0, "", &mut sel);
    assert_eq!(sel.head, Some(CellPos { row: 3, col: 0 }));
    let row = "open https://example.com/x now and /etc/hosts";
    match pointer_action(Gesture::Clicked, true, false, true, 0, 8, row, &mut sel) {
        PointerOutcome::OpenUrl(u) => assert_eq!(u, "https://example.com/x"),
        _ => panic!("ctrl-click on a link opens it"),
    }
    assert!(sel.is_active());
    match pointer_action(Gesture::Clicked, true, false, true, 0, 40, row, &mut sel) {
        PointerOutcome::CopyPath(p) => assert_eq!(p, "/etc/hosts"),
        _ => panic!("ctrl-click on a path copies it"),
    }
    assert!(matches!(pointer_action(Gesture::Clicked, true, false, false, 0, 8, row, &mut sel), PointerOutcome::Local));
    assert!(!sel.is_active());
}

#[test]
fn wheel_scrolls_or_reports() {
    assert_eq!(wheel_action(true, true, false, false, None, 6, 0), (None, 6));
    assert_eq!(wheel_action(true, true, false, false, None, 6, 998), (None, 1000));
    assert_eq!(wheel_action(false, true, false, false, None, 6, 4), (None, 0));
    assert_eq!(wheel_action(false, true, false, false, None, 3, 10), (None, 7));
    assert_eq!(wheel_action(true, true, false, true, None, 3, 10), (None, 10));
    assert_eq!(wheel_action(true, true, true, false, Some((1, 2)), 3, 10), (Some(b"\x1b[<64;3;2M".to_vec()), 10));
    assert_eq!(wheel_action(false, true, true, false, None, 3, 10), (None, 10));
}

#[test]
fn disabled_input_sends_nothing() {
    assert!(matches!(keyboard_action(CanvasEvent::Text("x".to_string()), false, false, false), KeyboardAction::Ignore));
    let mut sel = Selection::default();
    assert!(matches!(pointer_action(Gesture::Clicked, false, true, false, 1, 1, "", &mut sel), PointerOutcome::Local));
    assert_eq!(wheel_action(true, false, true, false, Some((1, 2)), 3, 10), (None, 10));
    assert_eq!(wheel_action(true, false, false, false, None, 3, 10), (None, 13));
}
