use ssh4::gui::files::{
    confirm_prompt, editing_text, local_label, op_reports, remote_file_name, reupload_report, FsMsg, remote_label, DeleteRequest, FileTools, LocalClick, LocalEntry,
    LocalRequest, NameDialog, RemoteClick, RemoteRequest,
};
use ssh4::remote_fs::RemoteEntry;

fn entry(name: &str, is_dir: bool, size: u64) -> RemoteEntry {
    RemoteEntry {
        name: name.to_string(),
        is_dir,
        is_link: false,
        size,
        perms: "rw-r--r--".to_string(),
        modified: "Jan 1 00:00".to_string(),
    }
}

fn tools() -> FileTools {
    let mut f = FileTools::new();
    f.remote_dir = "/home/u".to_string();
    f.remote_entries = vec![entry("src", true, 4096), entry("a.txt", false, 2048)];
    f.local_entries = vec![
        LocalEntry { name: "docs".to_string(), is_dir: true, size: 0 },
        LocalEntry { name: "b.bin".to_string(), is_dir: false, size: 10 },
    ];
    f
}

#[test]
fn entries_are_labelled() {
    assert_eq!(remote_label(&entry("src", true, 4096)), "📁 src  rw-r--r--");
    assert_eq!(remote_label(&entry("a.txt", false, 2048)), "📄 a.txt  (2.0 KiB)  rw-r--r--");
    let mut l = entry("ln", false, 5);
    l.is_link = true;
    assert_eq!(remote_label(&l), "🔗 ln  (5 B)  rw-r--r--");
    assert_eq!(local_label(&LocalEntry { name: "d".to_string(), is_dir: true, size: 0 }), "📁 d");
    assert_eq!(local_label(&LocalEntry { name: "f".to_string(), is_dir: false, size: 10 }), "📄 f  (10 B)");
}

#[test]
fn remote_pane_clicks() {
    let mut f = tools();
    assert!(matches!(f.on_remote_click(RemoteClick::Parent), RemoteRequest::List(d) if d == "/home"));
    assert!(matches!(f.on_remote_click(RemoteClick::Open(0)), RemoteRequest::List(d) if d == "/home/u/src"));
    assert!(matches!(f.on_remote_click(RemoteClick::Open(1)), RemoteRequest::Nothing));
    assert!(matches!(f.on_remote_click(RemoteClick::Download), RemoteRequest::Nothing));
    f.on_remote_click(RemoteClick::Select(1));
    assert_eq!(f.remote_sel, Some(1));
    match f.on_remote_click(RemoteClick::Download) {
        RemoteRequest::Download { remote, name } => {
            assert_eq!(remote, "/home/u/a.txt");
            assert_eq!(name, "a.txt");
        }
        _ => panic!("download the selection"),
    }
    assert!(matches!(f.on_remote_click(RemoteClick::Edit), RemoteRequest::Edit(p) if p == "/home/u/a.txt"));
    f.on_remote_click(RemoteClick::Chmod);
    assert!(matches!(&f.dialog, NameDialog::Chmod { path, mode } if path == "/home/u/a.txt" && mode == "644"));
    f.on_remote_click(RemoteClick::Delete);
    let c = f.confirm.as_ref().unwrap();
    assert!(c.remote);
    assert_eq!(c.path, "/home/u/a.txt");
    match f.on_confirm(true, false) {
        DeleteRequest::Remote { path, done } => {
            assert_eq!(path, "/home/u/a.txt");
            assert_eq!(done, "Deleted a.txt");
        }
        _ => panic!("delete remotely"),
    }
    assert!(f.confirm.is_none());
    f.on_remote_click(RemoteClick::Select(0));
    assert!(matches!(f.on_remote_click(RemoteClick::Edit), RemoteRequest::Nothing));
    f.on_remote_click(RemoteClick::Rename);
    assert!(matches!(&f.dialog, NameDialog::RenameRemote { from, to } if from == "src" && to == "src"));
}

#[test]
fn local_pane_clicks() {
    let mut f = tools();
    f.local_dirty = false;
    assert!(matches!(f.on_local_click(LocalClick::Open(0), false), LocalRequest::Enter(n) if n == "docs"));
    assert!(matches!(f.on_local_click(LocalClick::Upload, true), LocalRequest::Nothing));
    f.on_local_click(LocalClick::Select(1), false);
    assert!(matches!(f.on_local_click(LocalClick::Upload, false), LocalRequest::Nothing));
    assert!(matches!(f.on_local_click(LocalClick::Upload, true), LocalRequest::Upload(n) if n == "b.bin"));
    assert!(matches!(f.on_local_click(LocalClick::CopyTo, true), LocalRequest::CopyTo { name, is_dir: false } if name == "b.bin"));
    assert!(matches!(f.on_local_click(LocalClick::Delete, true), LocalRequest::Delete(n) if n == "b.bin"));
    f.on_local_click(LocalClick::Refresh, true);
    assert!(f.local_dirty);
    f.on_local_click(LocalClick::NewFolder, true);
    assert!(matches!(&f.dialog, NameDialog::NewLocalDir(n) if n.is_empty()));
    assert_eq!(confirm_prompt(true), "Permanently delete REMOTE path?");
    assert_eq!(confirm_prompt(false), "Permanently delete local path?");
}

#[test]
fn remote_operation_reports() {
    let m = op_reports(Ok(()), "Created x".to_string());
    assert!(matches!(&m[0], FsMsg::Status { msg, ok: true } if msg == "Created x"));
    assert!(matches!(&m[1], FsMsg::Refresh));
    let e = op_reports(Err("denied".to_string()), "Created x".to_string());
    assert!(matches!(&e[0], FsMsg::Status { msg, ok: false } if msg == "denied"));
    assert_eq!(remote_file_name("/etc/hosts"), "hosts");
    assert_eq!(remote_file_name("notes.txt"), "notes.txt");
    assert_eq!(remote_file_name("/srv/dir/"), "");
    assert_eq!(editing_text("hosts", "/etc/hosts"), "Editing hosts: saving re-uploads to /etc/hosts");
    assert!(matches!(reupload_report("hosts", Ok(())), FsMsg::Status { msg, ok: true } if msg == "Re-uploaded hosts"));
    assert!(matches!(reupload_report("hosts", Err("x".to_string())), FsMsg::Status { msg, ok: false } if msg == "x"));
}
