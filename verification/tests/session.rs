use ssh4::auth::parse_host;
use ssh4::config::Profile;
use ssh4::gui::session::{end_message, format_target, profile_params, profile_remote_dir, frame_limit_hit, GuiToSsh, PendingConn, RowStamps, SessionStatus, SshMsg, WorkerState};
use ssh4::ssh_client::ConnParams;

#[test]
fn input_is_chunked_and_written_in_order() {
    let mut w = WorkerState::new(false);
    let data: Vec<u8> = (0..10000u32).map(|i| (i % 251) as u8).collect();
    assert!(!w.accept(GuiToSsh::Data(data.clone())));
    assert_eq!(w.pending_writes.len(), 3);
    assert!(!w.accept(GuiToSsh::Data(vec![1, 2, 3])));
    assert!(!w.accept(GuiToSsh::Data(vec![4])));
    let first = w.writes_for_tick();
    assert_eq!(first.len(), 4);
    let second = w.writes_for_tick();
    assert_eq!(second.len(), 1);
    let all: Vec<u8> = first.into_iter().chain(second).flatten().collect();
    let mut expected = data;
    expected.extend([1, 2, 3, 4]);
    assert_eq!(all, expected);
    assert!(w.writes_for_tick().is_empty());
}

#[test]
fn resize_and_keepalive() {
    let mut w = WorkerState::new(false);
    w.accept(GuiToSsh::Resize { cols: 80, rows: 24 });
    w.accept(GuiToSsh::Resize { cols: 100, rows: 30 });
    assert_eq!(w.take_resize(), Some((100, 30)));
    assert_eq!(w.take_resize(), None);
    assert!(w.accept(GuiToSsh::KeepAlive(true)));
    assert!(w.keepalive_due(true));
    assert!(!w.keepalive_due(false));
}

#[test]
fn output_is_flushed_on_threshold_or_interval() {
    let mut w = WorkerState::new(false);
    assert!(!w.should_flush(true));
    w.record_read(b"abc", false);
    w.record_read(b"", true);
    assert_eq!(w.read_timeouts, 1);
    assert!(!w.should_flush(false));
    assert!(w.should_flush(true));
    w.record_read(&vec![0u8; 70000], false);
    assert!(w.should_flush(false));
    let out = w.take_output();
    assert_eq!(out.len(), 70003);
    assert!(w.out_buf.is_empty());
    match w.heartbeat() {
        SshMsg::Heartbeat { pending_chunks, buffered_output, read_timeouts } => {
            assert_eq!((pending_chunks, buffered_output, read_timeouts), (0, 0, 1));
        }
        _ => panic!("expected heartbeat"),
    }
}

#[test]
fn session_end_reports() {
    assert!(matches!(end_message(None, false), SshMsg::Disconnected));
    assert!(matches!(end_message(Some("boom".into()), true), SshMsg::Disconnected));
    assert!(matches!(end_message(Some("Timeout".into()), false), SshMsg::Disconnected));
    assert!(matches!(end_message(Some("SSH error: Timeout".into()), false), SshMsg::Disconnected));
    assert!(matches!(end_message(Some("Connection refused by host".into()), false), SshMsg::Error(e) if e == "Connection refused by host"));
}

#[test]
fn status_follows_worker_messages() {
    let mut s = SessionStatus::new(80, 24);
    s.apply(SshMsg::Connected { cols: 100, rows: 40 });
    assert!(s.connected);
    assert_eq!((s.cols, s.rows), (100, 40));
    s.apply(SshMsg::Data(vec![1, 2, 3]));
    assert_eq!((s.received, s.generation), (3, 1));
    s.apply(SshMsg::Error("x".into()));
    assert!(!s.connected && s.disconnected);
    assert_eq!(s.error.as_deref(), Some("x"));
    s.channel_closed();
    assert!(s.disconnected);
    assert!(frame_limit_hit(128, 0));
    assert!(frame_limit_hit(0, 262144));
    assert!(!frame_limit_hit(127, 262143));
}

#[test]
fn reconnect_target_reads_back() {
    let t = format_target("alice", "example.com", 2222);
    assert_eq!(t, "alice@example.com:2222");
    let h = parse_host(&t);
    assert_eq!(h.user, "alice");
    assert_eq!(h.host, "example.com");
    assert_eq!(h.port, 2222);
    assert_eq!(format_target("", "h", 22), "@h:22");
}

#[test]
fn reconnect_form_prefills_the_connection() {
    let mut p = ConnParams::default();
    p.host = "srv".to_string();
    p.user = "bob".to_string();
    p.port = 2200;
    p.key_path = Some("/k/id".to_string());
    let f = PendingConn::reconnect_form(&p, None);
    assert_eq!(f.host, "bob@srv:2200");
    assert_eq!(f.key_path, "/k/id");
    assert_eq!(f.error.as_deref(), Some("Disconnected from bob@srv"));
    assert!(!f.connecting);
    let p2 = ConnParams { key_path: None, ..p };
    let g = PendingConn::reconnect_form(&p2, Some("boom".to_string()));
    assert_eq!(g.key_path, "");
    assert_eq!(g.error.as_deref(), Some("boom"));
}

#[test]
fn form_checks_before_connecting() {
    let mut f = PendingConn::default();
    f.host = "  ".to_string();
    assert!(f.begin_connect("me", None).is_none());
    assert_eq!(f.error.as_deref(), Some("Enter a host"));
    assert!(!f.connecting);

    f.host = " srv ".to_string();
    assert!(f.begin_connect("me", None).is_none());
    assert_eq!(f.error.as_deref(), Some("No password given and no default key found"));

    let p = f.begin_connect("me", Some("/home/me/.ssh/id_ed25519".to_string())).unwrap();
    assert_eq!(p.host, "srv");
    assert_eq!(p.port, 22);
    assert_eq!(p.user, "me");
    assert_eq!(p.key_path.as_deref(), Some("/home/me/.ssh/id_ed25519"));
    assert!(p.password.is_none());
    assert_eq!(p.timeout_secs, 15);
    assert!(f.connecting);
    assert!(f.error.is_none());

    let mut g = PendingConn::default();
    g.host = "alice@srv:2200".to_string();
    g.key_path = " /k/id ".to_string();
    g.password = "pw".to_string();
    let q = g.begin_connect("me", None).unwrap();
    assert_eq!(q.user, "alice");
    assert_eq!(q.port, 2200);
    assert_eq!(q.key_path.as_deref(), Some("/k/id"));
    assert_eq!(q.password.as_ref().map(|s| s.expose()), Some("pw"));
}

#[test]
fn profile_opens_a_prefilled_tab() {
    let p = Profile {
        host: "db".to_string(),
        port: 2022,
        user: "ops".to_string(),
        key_path: None,
        remote_dir: None,
        password: Some("pw".to_string()),
    };
    let c = profile_params(&p);
    assert_eq!(c.host, "db");
    assert_eq!(c.port, 2022);
    assert_eq!(c.user, "ops");
    assert_eq!(c.password.as_ref().map(|s| s.expose()), Some("pw"));
    assert!(c.key_path.is_none());
    assert_eq!(c.timeout_secs, 15);
    assert_eq!(profile_remote_dir(&p), "/tmp");
    let q = Profile { remote_dir: Some("/srv".to_string()), key_path: Some("/k".to_string()), ..p };
    assert_eq!(profile_remote_dir(&q), "/srv");
    let f = PendingConn::for_profile(&q, "ops@db");
    assert_eq!(f.host, "ops@db:2022");
    assert_eq!(f.key_path, "/k");
    assert_eq!(f.save_as, "ops@db");
    assert!(f.error.is_none());
}

#[test]
fn resize_reports_changes_only() {
    let mut st = SessionStatus::new(80, 24);
    assert!(!st.resize(80, 24));
    assert!(st.resize(100, 30));
    assert_eq!((st.cols, st.rows), (100, 30));
    assert!(!st.resize(100, 30));
}

#[test]
fn rows_are_stamped_when_they_change() {
    let mut s: RowStamps<u32> = RowStamps::new(3);
    assert_eq!(s.row_time(0), None);
    s.stamp(&vec![5, 0, 7], 3, 10);
    assert_eq!(s.row_time(0), Some(10));
    assert_eq!(s.row_time(1), None);
    assert_eq!(s.row_time(2), Some(10));
    s.stamp(&vec![5, 1, 8], 2, 20);
    assert_eq!(s.row_time(0), Some(10));
    assert_eq!(s.row_time(1), Some(20));
    assert_eq!(s.row_time(2), Some(10));
    assert_eq!(s.row_time(9), None);
}
