use ssh4::cli::{
    format_duration, format_secs, handle_mouse, input_action, profile_to_save, resolve_params,
    wants_reconnect, Cli, InputAction, MouseEvent, MouseEventKind,
};
use ssh4::config::Profile;
use ssh4::terminal::mouse::MouseButton;
use ssh4::terminal::selection::{CellPos, Selection};
use std::time::Duration;

fn cli(host: Option<&str>, profile: Option<&str>) -> Cli {
    Cli {
        host: host.map(String::from),
        profile: profile.map(String::from),
        user: None,
        key: None,
        password: None,
        remote_dir: "/tmp".into(),
        once: false,
        log: None,
        no_reconnect: false,
        save_profile: None,
        timeout: 15,
        gui: false,
        verbose: false,
    }
}

fn err_of<T>(r: Result<T, String>) -> String {
    match r {
        Ok(_) => panic!("expected an error"),
        Err(e) => e,
    }
}

#[test]
fn duration_formatting() {
    assert_eq!(format_duration(Duration::from_secs(3725)), "01:02:05");
}

#[test]
fn long_durations_grow_hours() {
    assert_eq!(format_secs(0), "00:00:00");
    assert_eq!(format_secs(100 * 3600 + 59), "100:00:59");
}

#[test]
fn resolve_uses_profile_values() {
    let profile = Profile {
        host: "example.com".into(),
        port: 2200,
        user: "keith".into(),
        key_path: Some("k".into()),
        remote_dir: Some("/data".into()),
        password: None,
    };
    let args = cli(None, Some("home"));
    let (params, remote_dir) = resolve_params(&args, Some(&profile)).unwrap();
    assert_eq!(params.host, "example.com");
    assert_eq!(params.port, 2200);
    assert_eq!(params.user, "keith");
    assert_eq!(params.key_path.as_deref(), Some("k"));
    assert_eq!(remote_dir, "/data");
}

#[test]
fn resolve_missing_profile_errors() {
    let args = cli(None, Some("nope"));
    assert!(err_of(resolve_params(&args, None)).contains("not found"));
}

#[test]
fn options_override_profile() {
    let profile = Profile {
        host: "a".into(),
        port: 1,
        user: "pu".into(),
        key_path: None,
        remote_dir: None,
        password: Some("pw".into()),
    };
    let mut args = cli(Some("bob@b:2"), Some("p"));
    args.key = Some("key".into());
    let (params, dir) = resolve_params(&args, Some(&profile)).unwrap();
    assert_eq!((params.host.as_str(), params.port, params.user.as_str()), ("b", 2, "bob"));
    assert_eq!(params.key_path.as_deref(), Some("key"));
    assert_eq!(params.password.as_ref().map(|s| s.expose().to_string()), Some("pw".to_string()));
    assert_eq!(dir, "/tmp");
    let args = cli(Some("c"), Some("p"));
    let (params, _) = resolve_params(&args, Some(&profile)).unwrap();
    assert_eq!(params.user, "pu");
    assert_eq!(err_of(resolve_params(&cli(None, None), None)), "No host given (use HOST or -P PROFILE)");
}

#[test]
fn saved_profile_never_holds_a_password() {
    let (params, dir) = resolve_params(&cli(Some("u@h:7"), None), None).unwrap();
    let p = profile_to_save(&params, &dir);
    assert_eq!((p.host.as_str(), p.port, p.user.as_str()), ("h", 7, "u"));
    assert_eq!(p.remote_dir.as_deref(), Some("/tmp"));
    assert!(p.password.is_none());
}

#[test]
fn local_input_decisions() {
    assert_eq!(input_action(true, vec![b'\r']), InputAction::CopySelection);
    assert_eq!(input_action(true, vec![0x1b]), InputAction::ClearSelection);
    assert_eq!(input_action(false, vec![b'\r']), InputAction::Send(vec![b'\r']));
    assert_eq!(input_action(true, b"ls".to_vec()), InputAction::Send(b"ls".to_vec()));
}

#[test]
fn mouse_goes_remote_or_selects_locally() {
    let mut sel = Selection::default();
    let down = MouseEvent { kind: MouseEventKind::Down(MouseButton::Left), column: 4, row: 2, shift: false };
    assert_eq!(handle_mouse(down, true, &mut sel), Some(b"\x1b[<0;5;3M".to_vec()));
    assert_eq!(sel, Selection::default());
    assert_eq!(handle_mouse(down, false, &mut sel), None);
    assert_eq!(sel.anchor, Some(CellPos { row: 2, col: 4 }));
    let drag = MouseEvent { kind: MouseEventKind::Drag(MouseButton::Left), column: 9, row: 2, shift: true };
    assert_eq!(handle_mouse(drag, true, &mut sel), None);
    assert_eq!(sel.head, Some(CellPos { row: 2, col: 9 }));
    let scroll = MouseEvent { kind: MouseEventKind::ScrollDown, column: 0, row: 0, shift: false };
    assert_eq!(handle_mouse(scroll, true, &mut sel), Some(b"\x1b[<65;1;1M".to_vec()));
}

#[test]
fn reconnect_answers() {
    assert!(wants_reconnect(""));
    assert!(wants_reconnect("y"));
    assert!(!wants_reconnect("N"));
    assert!(!wants_reconnect("No"));
    assert!(wants_reconnect("nope"));
}
