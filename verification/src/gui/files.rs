//! The file tools window's state: the remote listing it shows, the
//! selection, the name dialog and the delete confirmation, how reports of
//! background operations change it, and which operation a confirmed name
//! dialog asks for. Running the operations, the channels and the window
//! belong to the caller.

use vstd::prelude::*;
use crate::remote_fs::RemoteEntry;
use crate::remote_fs::order::entry_views;
use crate::text::{chars_of, trim, trimmed, push_str_chars, rfind_char, last_index, lemma_last_index, string_from_chars};
use crate::transfer::{remote_join, remote_join_spec};
use crate::gui::dialogs::{human_size, human_size_spec};

verus! {

/// One entry of the local directory.
#[derive(Clone)]
pub struct LocalEntry {
    pub name: String,
    pub is_dir: bool,
    pub size: u64,
}

/// Pending name-input dialog.
pub enum NameDialog {
    Closed,
    NewRemoteFile(String),
    NewRemoteDir(String),
    RenameRemote { from: String, to: String },
    Chmod { path: String, mode: String },
    NewLocalFile(String),
    NewLocalDir(String),
    RenameLocal { from: String, to: String },
}

/// Pending delete confirmation.
pub struct ConfirmDelete {
    pub remote: bool,
    /// Full path.
    pub path: String,
    /// Display name.
    pub name: String,
}

/// Messages from background file operations.
pub enum FsMsg {
    Listing { dir: String, result: Result<Vec<RemoteEntry>, String> },
    Status { msg: String, ok: bool },
    /// An operation finished and the remote listing should refresh.
    Refresh,
}

/// The file tools window's state.
pub struct FileTools {
    pub open: bool,
    pub remote_dir: String,
    pub remote_entries: Vec<RemoteEntry>,
    pub remote_sel: Option<usize>,
    pub listing: bool,
    pub local_entries: Vec<LocalEntry>,
    pub local_sel: Option<usize>,
    pub local_dirty: bool,
    /// The last status message and whether it reports success.
    pub status: Option<(String, bool)>,
    pub dialog: NameDialog,
    pub confirm: Option<ConfirmDelete>,
}

/// `p` is a prefix of `s`.
pub open spec fn has_prefix(s: Seq<char>, p: Seq<char>) -> bool {
    s.len() >= p.len() && s.take(p.len() as int) == p
}

/// The view of a status.
pub open spec fn status_view(s: Option<(String, bool)>) -> Option<(Seq<char>, bool)> {
    match s {
        Some(x) => Some((x.0@, x.1)),
        None => None,
    }
}

impl FileTools {
    pub fn new() -> (f: Self)
        ensures
            !f.open,
            f.remote_dir@.len() == 0,
            f.remote_entries@.len() == 0,
            f.remote_sel is None,
            !f.listing,
            f.local_entries@.len() == 0,
            f.local_sel is None,
            f.local_dirty,
            f.status is None,
            f.dialog is Closed,
            f.confirm is None,
    {
        FileTools {
            open: false,
            remote_dir: String::new(),
            remote_entries: Vec::new(),
            remote_sel: None,
            listing: false,
            local_entries: Vec::new(),
            local_sel: None,
            local_dirty: true,
            status: None,
            dialog: NameDialog::Closed,
            confirm: None,
        }
    }

    pub fn set_status(&mut self, msg: String, ok: bool)
        ensures
            status_view(final(self).status) == Some((msg@, ok)),
            final(self).remote_dir@ == old(self).remote_dir@,
            entry_views(final(self).remote_entries@) == entry_views(old(self).remote_entries@),
            final(self).listing == old(self).listing,
            final(self).local_dirty == old(self).local_dirty,
    {
        self.status = Some((msg, ok));
    }

    /// A remote listing was started: it is in progress and nothing is
    /// selected.
    pub fn begin_listing(&mut self)
        ensures
            final(self).listing,
            final(self).remote_sel is None,
            final(self).remote_dir@ == old(self).remote_dir@,
            entry_views(final(self).remote_entries@) == entry_views(old(self).remote_entries@),
            status_view(final(self).status) == status_view(old(self).status),
            final(self).local_dirty == old(self).local_dirty,
    {
        self.listing = true;
        self.remote_sel = None;
    }

    /// Apply one report of a background operation. Returns whether the
    /// remote listing should be refreshed. A finished listing replaces the
    /// directory and entries (or reports its error); a status is shown, and
    /// a successful download marks the local pane for re-reading.
    pub fn handle_message(&mut self, msg: FsMsg) -> (refresh: bool)
        ensures
            match msg {
                FsMsg::Listing { dir, result } => {
                    &&& !refresh
                    &&& !final(self).listing
                    &&& final(self).local_dirty == old(self).local_dirty
                    &&& match result {
                        Ok(entries) => {
                            &&& final(self).remote_dir@ == dir@
                            &&& entry_views(final(self).remote_entries@) == entry_views(entries@)
                            &&& status_view(final(self).status) == status_view(old(self).status)
                        },
                        Err(e) => {
                            &&& final(self).remote_dir@ == old(self).remote_dir@
                            &&& entry_views(final(self).remote_entries@) == entry_views(
                                old(self).remote_entries@,
                            )
                            &&& status_view(final(self).status) == Some((e@, false))
                        },
                    }
                },
                FsMsg::Status { msg, ok } => {
                    &&& !refresh
                    &&& final(self).listing == old(self).listing
                    &&& final(self).remote_dir@ == old(self).remote_dir@
                    &&& entry_views(final(self).remote_entries@) == entry_views(
                        old(self).remote_entries@,
                    )
                    &&& status_view(final(self).status) == Some((msg@, ok))
                    &&& final(self).local_dirty == (old(self).local_dirty || (ok && has_prefix(
                        msg@,
                        "Downloaded"@,
                    )))
                },
                FsMsg::Refresh => {
                    &&& refresh
                    &&& final(self).listing == old(self).listing
                    &&& final(self).remote_dir@ == old(self).remote_dir@
                    &&& entry_views(final(self).remote_entries@) == entry_views(
                        old(self).remote_entries@,
                    )
                    &&& status_view(final(self).status) == status_view(old(self).status)
                    &&& final(self).local_dirty == old(self).local_dirty
                },
            },
    {
        match msg {
            FsMsg::Listing { dir, result } => {
                self.listing = false;
                match result {
                    Ok(entries) => {
                        self.remote_dir = dir;
                        self.remote_entries = entries;
                    },
                    Err(e) => self.set_status(e, false),
                }
                false
            },
            FsMsg::Status { msg, ok } => {
                if ok && starts_with_downloaded(&msg) {
                    self.local_dirty = true;
                }
                self.set_status(msg, ok);
                false
            },
            FsMsg::Refresh => true,
        }
    }
}

fn starts_with_downloaded(msg: &String) -> (b: bool)
    ensures
        b == has_prefix(msg@, "Downloaded"@),
{
    let v = chars_of(msg.as_str());
    let p = chars_of("Downloaded");
    if p.len() > v.len() {
        return false;
    }
    let mut i: usize = 0;
    while i < p.len()
        invariant
            i <= p.len() <= v.len(),
            v@ == msg@,
            p@ == "Downloaded"@,
            v@.take(i as int) == p@.take(i as int),
        decreases p.len() - i,
    {
        if v[i] != p[i] {
            assert(v@.take(p.len() as int)[i as int] != p@[i as int]);
            return false;
        }
        assert(v@.take(i + 1) =~= v@.take(i as int).push(v@[i as int]));
        assert(p@.take(i + 1) =~= p@.take(i as int).push(p@[i as int]));
        i += 1;
    }
    assert(p@.take(p.len() as int) =~= p@);
    true
}

/// What a confirmed name dialog asks for.
pub enum NameOp {
    /// Nothing: the name is blank, or the dialog was closed.
    NoOp,
    CreateLocalFile(String),
    CreateLocalDir(String),
    RenameLocal { from: String, to: String },
    /// Create an empty remote file at `path`; `done` is the status on
    /// success.
    Touch { path: String, done: String },
    Mkdir { path: String, done: String },
    RenameRemote { from: String, to: String, done: String },
    Chmod { path: String, mode: String, done: String },
}

/// The plain-value form of an operation.
pub enum NameOpView {
    NoOp,
    CreateLocalFile(Seq<char>),
    CreateLocalDir(Seq<char>),
    RenameLocal(Seq<char>, Seq<char>),
    Touch(Seq<char>, Seq<char>),
    Mkdir(Seq<char>, Seq<char>),
    RenameRemote(Seq<char>, Seq<char>, Seq<char>),
    Chmod(Seq<char>, Seq<char>, Seq<char>),
}

pub open spec fn op_view(op: NameOp) -> NameOpView {
    match op {
        NameOp::NoOp => NameOpView::NoOp,
        NameOp::CreateLocalFile(n) => NameOpView::CreateLocalFile(n@),
        NameOp::CreateLocalDir(n) => NameOpView::CreateLocalDir(n@),
        NameOp::RenameLocal { from, to } => NameOpView::RenameLocal(from@, to@),
        NameOp::Touch { path, done } => NameOpView::Touch(path@, done@),
        NameOp::Mkdir { path, done } => NameOpView::Mkdir(path@, done@),
        NameOp::RenameRemote { from, to, done } => NameOpView::RenameRemote(from@, to@, done@),
        NameOp::Chmod { path, mode, done } => NameOpView::Chmod(path@, mode@, done@),
    }
}

/// The operation a confirmed dialog asks for, in the remote directory
/// `dir`: names are trimmed, and a blank name asks for nothing; remote
/// paths are joined onto `dir`.
pub open spec fn name_op_spec(d: NameDialog, dir: Seq<char>) -> NameOpView {
    match d {
        NameDialog::Closed => NameOpView::NoOp,
        NameDialog::NewLocalFile(n) => if trim(n@).len() > 0 {
            NameOpView::CreateLocalFile(trim(n@))
        } else {
            NameOpView::NoOp
        },
        NameDialog::NewLocalDir(n) => if trim(n@).len() > 0 {
            NameOpView::CreateLocalDir(trim(n@))
        } else {
            NameOpView::NoOp
        },
        NameDialog::RenameLocal { from, to } => if trim(to@).len() > 0 {
            NameOpView::RenameLocal(from@, trim(to@))
        } else {
            NameOpView::NoOp
        },
        NameDialog::NewRemoteFile(n) => if trim(n@).len() > 0 {
            NameOpView::Touch(remote_join_spec(dir, trim(n@)), "Created "@ + n@)
        } else {
            NameOpView::NoOp
        },
        NameDialog::NewRemoteDir(n) => if trim(n@).len() > 0 {
            NameOpView::Mkdir(remote_join_spec(dir, trim(n@)), "Created "@ + n@ + "/"@)
        } else {
            NameOpView::NoOp
        },
        NameDialog::RenameRemote { from, to } => if trim(to@).len() > 0 {
            NameOpView::RenameRemote(
                remote_join_spec(dir, from@),
                remote_join_spec(dir, trim(to@)),
                "Renamed "@ + from@,
            )
        } else {
            NameOpView::NoOp
        },
        NameDialog::Chmod { path, mode } => NameOpView::Chmod(
            path@,
            mode@,
            "chmod "@ + mode@ + " applied"@,
        ),
    }
}

fn concat3(a: &str, b: &str, c: &str) -> (r: String)
    ensures
        r@ == a@ + b@ + c@,
{
    let mut r = String::new();
    push_str_chars(&mut r, a);
    push_str_chars(&mut r, b);
    push_str_chars(&mut r, c);
    r
}

/// Decide what a confirmed name dialog does, in the remote directory
/// `remote_dir`.
pub fn name_dialog_op(dialog: NameDialog, remote_dir: &str) -> (op: NameOp)
    ensures
        op_view(op) == name_op_spec(dialog, remote_dir@),
{
    match dialog {
        NameDialog::Closed => NameOp::NoOp,
        NameDialog::NewLocalFile(n) => {
            let t = trimmed(n.as_str());
            if t.as_str().is_empty() {
                NameOp::NoOp
            } else {
                NameOp::CreateLocalFile(t)
            }
        },
        NameDialog::NewLocalDir(n) => {
            let t = trimmed(n.as_str());
            if t.as_str().is_empty() {
                NameOp::NoOp
            } else {
                NameOp::CreateLocalDir(t)
            }
        },
        NameDialog::RenameLocal { from, to } => {
            let t = trimmed(to.as_str());
            if t.as_str().is_empty() {
                NameOp::NoOp
            } else {
                NameOp::RenameLocal { from, to: t }
            }
        },
        NameDialog::NewRemoteFile(n) => {
            let t = trimmed(n.as_str());
            if t.as_str().is_empty() {
                NameOp::NoOp
            } else {
                let path = remote_join(remote_dir, t.as_str());
                let done = concat3("Created ", n.as_str(), "");
                proof {
                    reveal_strlit("");
                }
                assert(done@ =~= "Created "@ + n@);
                NameOp::Touch { path, done }
            }
        },
        NameDialog::NewRemoteDir(n) => {
            let t = trimmed(n.as_str());
            if t.as_str().is_empty() {
                NameOp::NoOp
            } else {
                let path = remote_join(remote_dir, t.as_str());
                let done = concat3("Created ", n.as_str(), "/");
                NameOp::Mkdir { path, done }
            }
        },
        NameDialog::RenameRemote { from, to } => {
            let t = trimmed(to.as_str());
            if t.as_str().is_empty() {
                NameOp::NoOp
            } else {
                let a = remote_join(remote_dir, from.as_str());
                let b = remote_join(remote_dir, t.as_str());
                let done = concat3("Renamed ", from.as_str(), "");
                proof {
                    reveal_strlit("");
                }
                assert(done@ =~= "Renamed "@ + from@);
                NameOp::RenameRemote { from: a, to: b, done }
            }
        },
        NameDialog::Chmod { path, mode } => {
            let done = concat3("chmod ", mode.as_str(), " applied");
            NameOp::Chmod { path, mode, done }
        },
    }
}

/// The title of a name dialog.
pub fn dialog_title(dialog: &NameDialog) -> (r: Option<&'static str>)
    ensures
        match *dialog {
            NameDialog::Closed => r is None,
            NameDialog::NewRemoteFile(_) => r matches Some(t) && t@ == "New remote file"@,
            NameDialog::NewRemoteDir(_) => r matches Some(t) && t@ == "New remote folder"@,
            NameDialog::RenameRemote { .. } => r matches Some(t) && t@ == "Rename remote"@,
            NameDialog::Chmod { .. } => r matches Some(t) && t@ == "Change permissions"@,
            NameDialog::NewLocalFile(_) => r matches Some(t) && t@ == "New local file"@,
            NameDialog::NewLocalDir(_) => r matches Some(t) && t@ == "New local folder"@,
            NameDialog::RenameLocal { .. } => r matches Some(t) && t@ == "Rename local"@,
        },
{
    match dialog {
        NameDialog::Closed => None,
        NameDialog::NewRemoteFile(_) => Some("New remote file"),
        NameDialog::NewRemoteDir(_) => Some("New remote folder"),
        NameDialog::RenameRemote { .. } => Some("Rename remote"),
        NameDialog::Chmod { .. } => Some("Change permissions"),
        NameDialog::NewLocalFile(_) => Some("New local file"),
        NameDialog::NewLocalDir(_) => Some("New local folder"),
        NameDialog::RenameLocal { .. } => Some("Rename local"),
    }
}


/// How a remote entry is listed: an icon (folder, link or file), the name,
/// the size for anything but a folder, and the permissions.
pub open spec fn remote_label_spec(e: RemoteEntry) -> Seq<char> {
    if e.is_dir {
        "📁 "@ + e.name@ + "  "@ + e.perms@
    } else {
        (if e.is_link {
            "🔗 "@
        } else {
            "📄 "@
        }) + e.name@ + "  ("@ + human_size_spec(e.size) + ")  "@ + e.perms@
    }
}

/// The line a remote entry is listed with.
pub fn remote_label(e: &RemoteEntry) -> (r: String)
    ensures
        r@ == remote_label_spec(*e),
{
    let mut r = String::new();
    if e.is_dir {
        push_str_chars(&mut r, "📁 ");
        push_str_chars(&mut r, e.name.as_str());
        push_str_chars(&mut r, "  ");
        push_str_chars(&mut r, e.perms.as_str());
    } else {
        if e.is_link {
            push_str_chars(&mut r, "🔗 ");
        } else {
            push_str_chars(&mut r, "📄 ");
        }
        push_str_chars(&mut r, e.name.as_str());
        push_str_chars(&mut r, "  (");
        push_str_chars(&mut r, human_size(e.size).as_str());
        push_str_chars(&mut r, ")  ");
        push_str_chars(&mut r, e.perms.as_str());
    }
    r
}

/// How a local entry is listed: an icon, the name, and a file's size.
pub open spec fn local_label_spec(e: LocalEntry) -> Seq<char> {
    if e.is_dir {
        "📁 "@ + e.name@
    } else {
        "📄 "@ + e.name@ + "  ("@ + human_size_spec(e.size) + ")"@
    }
}

/// The line a local entry is listed with.
pub fn local_label(e: &LocalEntry) -> (r: String)
    ensures
        r@ == local_label_spec(*e),
{
    let mut r = String::new();
    if e.is_dir {
        push_str_chars(&mut r, "📁 ");
        push_str_chars(&mut r, e.name.as_str());
    } else {
        push_str_chars(&mut r, "📄 ");
        push_str_chars(&mut r, e.name.as_str());
        push_str_chars(&mut r, "  (");
        push_str_chars(&mut r, human_size(e.size).as_str());
        push_str_chars(&mut r, ")");
    }
    r
}

/// What was clicked in the remote pane.
#[derive(Clone, Copy, Debug, PartialEq, Eq, Structural)]
pub enum RemoteClick {
    /// The parent-folder button.
    Parent,
    /// Entry `i` was clicked.
    Select(usize),
    /// Entry `i` was double-clicked.
    Open(usize),
    NewFile,
    NewFolder,
    Rename,
    Chmod,
    Delete,
    Download,
    Edit,
    Refresh,
}

/// What a click in the remote pane asks of the caller.
pub enum RemoteRequest {
    Nothing,
    /// List this remote folder.
    List(String),
    /// Download the remote path into the local folder, under the name.
    Download { remote: String, name: String },
    /// Open the remote file for editing.
    Edit(String),
}

/// The selected remote entry, if the selection names one.
pub open spec fn remote_selected(f: FileTools) -> Option<RemoteEntry> {
    match f.remote_sel {
        Some(i) => if i < f.remote_entries@.len() {
            Some(f.remote_entries@[i as int])
        } else {
            None
        },
        None => None,
    }
}

/// What clicking `c` in the remote pane asks for; the dialogs and the
/// delete confirmation it opens are in `final`.
pub open spec fn remote_click_spec(old: FileTools, c: RemoteClick, fin: FileTools, r: RemoteRequest) -> bool {
    let dir = old.remote_dir@;
    match c {
        RemoteClick::Parent => r matches RemoteRequest::List(d) && d@ == crate::remote_fs::parent_spec(dir),
        RemoteClick::Refresh => r matches RemoteRequest::List(d) && d@ == dir,
        RemoteClick::Select(i) => r is Nothing && fin.remote_sel == Some(i),
        RemoteClick::Open(i) => if i < old.remote_entries@.len() && old.remote_entries@[i as int].is_dir {
            r matches RemoteRequest::List(d) && d@ == remote_join_spec(dir, old.remote_entries@[i as int].name@)
        } else {
            r is Nothing
        },
        RemoteClick::NewFile => r is Nothing && (fin.dialog matches NameDialog::NewRemoteFile(n) && n@.len() == 0),
        RemoteClick::NewFolder => r is Nothing && (fin.dialog matches NameDialog::NewRemoteDir(n) && n@.len() == 0),
        RemoteClick::Rename => r is Nothing && match remote_selected(old) {
            Some(e) => fin.dialog matches NameDialog::RenameRemote { from, to } && from@ == e.name@ && to@ == e.name@,
            None => true,
        },
        RemoteClick::Chmod => r is Nothing && match remote_selected(old) {
            Some(e) => fin.dialog matches NameDialog::Chmod { path, mode } && path@ == remote_join_spec(dir, e.name@)
                && mode@ == crate::remote_fs::perms_octal_spec(e.perms@),
            None => true,
        },
        RemoteClick::Delete => r is Nothing && match remote_selected(old) {
            Some(e) => fin.confirm matches Some(cd) && cd.remote && cd.path@ == remote_join_spec(dir, e.name@)
                && cd.name@ == e.name@,
            None => true,
        },
        RemoteClick::Download => match remote_selected(old) {
            Some(e) => r matches RemoteRequest::Download { remote, name } && remote@ == remote_join_spec(dir, e.name@)
                && name@ == e.name@,
            None => r is Nothing,
        },
        RemoteClick::Edit => match remote_selected(old) {
            Some(e) => if !e.is_dir {
                r matches RemoteRequest::Edit(p) && p@ == remote_join_spec(dir, e.name@)
            } else {
                r is Nothing
            },
            None => r is Nothing,
        },
    }
}

impl FileTools {
    fn selected_remote(&self) -> (r: Option<&RemoteEntry>)
        ensures
            match remote_selected(*self) {
                Some(e) => r matches Some(x) && *x == e,
                None => r is None,
            },
    {
        match self.remote_sel {
            Some(i) => if i < self.remote_entries.len() {
                Some(&self.remote_entries[i])
            } else {
                None
            },
            None => None,
        }
    }

    /// Handle a click in the remote pane. Besides what the result asks for,
    /// it selects an entry, or opens the name dialog or the delete
    /// confirmation for the selected entry; everything else stays.
    pub fn on_remote_click(&mut self, c: RemoteClick) -> (r: RemoteRequest)
        ensures
            remote_click_spec(*old(self), c, *final(self), r),
            final(self).remote_dir == old(self).remote_dir,
            final(self).remote_entries == old(self).remote_entries,
            final(self).listing == old(self).listing,
            final(self).status == old(self).status,
            final(self).local_dirty == old(self).local_dirty,
            !(c is Select) ==> final(self).remote_sel == old(self).remote_sel,
            !(c is NewFile || c is NewFolder || c is Rename || c is Chmod) ==> final(self).dialog == old(self).dialog,
            !(c is Delete) ==> final(self).confirm == old(self).confirm,
    {
        match c {
            RemoteClick::Parent => RemoteRequest::List(crate::remote_fs::parent(self.remote_dir.as_str())),
            RemoteClick::Refresh => RemoteRequest::List(self.remote_dir.clone()),
            RemoteClick::Select(i) => {
                self.remote_sel = Some(i);
                RemoteRequest::Nothing
            },
            RemoteClick::Open(i) => {
                if i < self.remote_entries.len() && self.remote_entries[i].is_dir {
                    RemoteRequest::List(remote_join(self.remote_dir.as_str(), self.remote_entries[i].name.as_str()))
                } else {
                    RemoteRequest::Nothing
                }
            },
            RemoteClick::NewFile => {
                self.dialog = NameDialog::NewRemoteFile(String::new());
                RemoteRequest::Nothing
            },
            RemoteClick::NewFolder => {
                self.dialog = NameDialog::NewRemoteDir(String::new());
                RemoteRequest::Nothing
            },
            RemoteClick::Rename => {
                if let Some(e) = self.selected_remote() {
                    let from = e.name.clone();
                    let to = e.name.clone();
                    self.dialog = NameDialog::RenameRemote { from, to };
                }
                RemoteRequest::Nothing
            },
            RemoteClick::Chmod => {
                if let Some(e) = self.selected_remote() {
                    let path = remote_join(self.remote_dir.as_str(), e.name.as_str());
                    let mode = crate::remote_fs::perms_to_octal(e.perms.as_str());
                    self.dialog = NameDialog::Chmod { path, mode };
                }
                RemoteRequest::Nothing
            },
            RemoteClick::Delete => {
                if let Some(e) = self.selected_remote() {
                    let path = remote_join(self.remote_dir.as_str(), e.name.as_str());
                    let name = e.name.clone();
                    self.confirm = Some(ConfirmDelete { remote: true, path, name });
                }
                RemoteRequest::Nothing
            },
            RemoteClick::Download => {
                match self.selected_remote() {
                    Some(e) => RemoteRequest::Download {
                        remote: remote_join(self.remote_dir.as_str(), e.name.as_str()),
                        name: e.name.clone(),
                    },
                    None => RemoteRequest::Nothing,
                }
            },
            RemoteClick::Edit => {
                match self.selected_remote() {
                    Some(e) => if !e.is_dir {
                        RemoteRequest::Edit(remote_join(self.remote_dir.as_str(), e.name.as_str()))
                    } else {
                        RemoteRequest::Nothing
                    },
                    None => RemoteRequest::Nothing,
                }
            },
        }
    }
}


/// What was clicked in the local pane.
#[derive(Clone, Copy, Debug, PartialEq, Eq, Structural)]
pub enum LocalClick {
    /// The parent-folder button.
    Parent,
    /// Entry `i` was clicked.
    Select(usize),
    /// Entry `i` was double-clicked.
    Open(usize),
    NewFile,
    NewFolder,
    Rename,
    CopyTo,
    MoveTo,
    Delete,
    Upload,
    Refresh,
}

/// What a click in the local pane asks of the caller, which owns the local
/// folder's path.
pub enum LocalRequest {
    Nothing,
    /// Go to the parent folder, if it has one, and re-read it.
    Parent,
    /// Go into the sub-folder of that name and re-read it.
    Enter(String),
    /// Ask for a folder, then copy the entry (a folder when `is_dir`) there.
    CopyTo { name: String, is_dir: bool },
    /// Ask for a folder, then move the entry there.
    MoveTo(String),
    /// Ask to confirm deleting the entry of that name.
    Delete(String),
    /// Upload the entry of that name into the remote folder.
    Upload(String),
}

/// The selected local entry, if the selection names one.
pub open spec fn local_selected(f: FileTools) -> Option<LocalEntry> {
    match f.local_sel {
        Some(i) => if i < f.local_entries@.len() {
            Some(f.local_entries@[i as int])
        } else {
            None
        },
        None => None,
    }
}

/// What clicking `c` in the local pane asks for.
pub open spec fn local_click_spec(old: FileTools, c: LocalClick, has_session: bool, fin: FileTools, r: LocalRequest) -> bool {
    match c {
        LocalClick::Parent => r is Parent,
        LocalClick::Refresh => r is Nothing && fin.local_dirty,
        LocalClick::Select(i) => r is Nothing && fin.local_sel == Some(i),
        LocalClick::Open(i) => if i < old.local_entries@.len() && old.local_entries@[i as int].is_dir {
            r matches LocalRequest::Enter(n) && n@ == old.local_entries@[i as int].name@
        } else {
            r is Nothing
        },
        LocalClick::NewFile => r is Nothing && (fin.dialog matches NameDialog::NewLocalFile(n) && n@.len() == 0),
        LocalClick::NewFolder => r is Nothing && (fin.dialog matches NameDialog::NewLocalDir(n) && n@.len() == 0),
        LocalClick::Rename => r is Nothing && match local_selected(old) {
            Some(e) => fin.dialog matches NameDialog::RenameLocal { from, to } && from@ == e.name@ && to@ == e.name@,
            None => true,
        },
        LocalClick::CopyTo => match local_selected(old) {
            Some(e) => r matches LocalRequest::CopyTo { name, is_dir } && name@ == e.name@ && is_dir == e.is_dir,
            None => r is Nothing,
        },
        LocalClick::MoveTo => match local_selected(old) {
            Some(e) => r matches LocalRequest::MoveTo(n) && n@ == e.name@,
            None => r is Nothing,
        },
        LocalClick::Delete => match local_selected(old) {
            Some(e) => r matches LocalRequest::Delete(n) && n@ == e.name@,
            None => r is Nothing,
        },
        LocalClick::Upload => match local_selected(old) {
            Some(e) => if has_session {
                r matches LocalRequest::Upload(n) && n@ == e.name@
            } else {
                r is Nothing
            },
            None => r is Nothing,
        },
    }
}

impl FileTools {
    fn selected_local(&self) -> (r: Option<&LocalEntry>)
        ensures
            match local_selected(*self) {
                Some(e) => r matches Some(x) && *x == e,
                None => r is None,
            },
    {
        match self.local_sel {
            Some(i) => if i < self.local_entries.len() {
                Some(&self.local_entries[i])
            } else {
                None
            },
            None => None,
        }
    }

    /// Handle a click in the local pane (`has_session`: an SSH tab is
    /// connected, which uploading needs). Besides what the result asks for,
    /// it selects an entry, opens the name dialog, or marks the folder for
    /// re-reading; everything else stays.
    pub fn on_local_click(&mut self, c: LocalClick, has_session: bool) -> (r: LocalRequest)
        ensures
            local_click_spec(*old(self), c, has_session, *final(self), r),
            final(self).remote_dir == old(self).remote_dir,
            final(self).remote_entries == old(self).remote_entries,
            final(self).remote_sel == old(self).remote_sel,
            final(self).local_entries == old(self).local_entries,
            final(self).status == old(self).status,
            final(self).confirm == old(self).confirm,
            !(c is Select) ==> final(self).local_sel == old(self).local_sel,
            !(c is Refresh) ==> final(self).local_dirty == old(self).local_dirty,
            !(c is NewFile || c is NewFolder || c is Rename) ==> final(self).dialog == old(self).dialog,
    {
        match c {
            LocalClick::Parent => LocalRequest::Parent,
            LocalClick::Refresh => {
                self.local_dirty = true;
                LocalRequest::Nothing
            },
            LocalClick::Select(i) => {
                self.local_sel = Some(i);
                LocalRequest::Nothing
            },
            LocalClick::Open(i) => {
                if i < self.local_entries.len() && self.local_entries[i].is_dir {
                    LocalRequest::Enter(self.local_entries[i].name.clone())
                } else {
                    LocalRequest::Nothing
                }
            },
            LocalClick::NewFile => {
                self.dialog = NameDialog::NewLocalFile(String::new());
                LocalRequest::Nothing
            },
            LocalClick::NewFolder => {
                self.dialog = NameDialog::NewLocalDir(String::new());
                LocalRequest::Nothing
            },
            LocalClick::Rename => {
                if let Some(e) = self.selected_local() {
                    let from = e.name.clone();
                    let to = e.name.clone();
                    self.dialog = NameDialog::RenameLocal { from, to };
                }
                LocalRequest::Nothing
            },
            LocalClick::CopyTo => match self.selected_local() {
                Some(e) => LocalRequest::CopyTo { name: e.name.clone(), is_dir: e.is_dir },
                None => LocalRequest::Nothing,
            },
            LocalClick::MoveTo => match self.selected_local() {
                Some(e) => LocalRequest::MoveTo(e.name.clone()),
                None => LocalRequest::Nothing,
            },
            LocalClick::Delete => match self.selected_local() {
                Some(e) => LocalRequest::Delete(e.name.clone()),
                None => LocalRequest::Nothing,
            },
            LocalClick::Upload => match self.selected_local() {
                Some(e) => if has_session {
                    LocalRequest::Upload(e.name.clone())
                } else {
                    LocalRequest::Nothing
                },
                None => LocalRequest::Nothing,
            },
        }
    }
}


/// The question the delete confirmation asks.
pub open spec fn confirm_prompt_spec(remote: bool) -> Seq<char> {
    "Permanently delete "@ + (if remote {
        "REMOTE"@
    } else {
        "local"@
    }) + " path?"@
}

/// The question the delete confirmation asks.
pub fn confirm_prompt(remote: bool) -> (r: String)
    ensures
        r@ == confirm_prompt_spec(remote),
{
    let mut r = String::new();
    push_str_chars(&mut r, "Permanently delete ");
    push_str_chars(&mut r, if remote {
        "REMOTE"
    } else {
        "local"
    });
    push_str_chars(&mut r, " path?");
    r
}

/// What answering the delete confirmation asks of the caller.
pub enum DeleteRequest {
    Nothing,
    /// Delete the remote path; on success report the message.
    Remote { path: String, done: String },
    /// Delete the local path (a folder with all it holds).
    Local(String),
}

impl FileTools {
    /// Answer the pending delete confirmation: `delete` carries it out,
    /// `cancel` drops it; either closes it.
    pub fn on_confirm(&mut self, delete: bool, cancel: bool) -> (r: DeleteRequest)
        ensures
            final(self).dialog == old(self).dialog,
            final(self).local_dirty == old(self).local_dirty,
            final(self).status == old(self).status,
            match old(self).confirm {
                Some(c) => {
                    &&& (delete || cancel) ==> final(self).confirm is None
                    &&& !(delete || cancel) ==> final(self).confirm == old(self).confirm
                    &&& if delete {
                        if c.remote {
                            r matches DeleteRequest::Remote { path, done } && path@ == c.path@ && done@
                                == "Deleted "@ + c.name@
                        } else {
                            r matches DeleteRequest::Local(p) && p@ == c.path@
                        }
                    } else {
                        r is Nothing
                    }
                },
                None => r is Nothing && final(self).confirm is None,
            },
    {
        let r = match &self.confirm {
            Some(c) => if delete {
                if c.remote {
                    let mut done = String::new();
                    push_str_chars(&mut done, "Deleted ");
                    push_str_chars(&mut done, c.name.as_str());
                    DeleteRequest::Remote { path: c.path.clone(), done }
                } else {
                    DeleteRequest::Local(c.path.clone())
                }
            } else {
                DeleteRequest::Nothing
            },
            None => DeleteRequest::Nothing,
        };
        if delete || cancel {
            self.confirm = None;
        }
        r
    }
}


/// The reports a finished remote operation sends: its own message on
/// success or the error, then a request to refresh the listing.
pub fn op_reports(result: Result<(), String>, done_msg: String) -> (m: Vec<FsMsg>)
    ensures
        m@.len() == 2,
        match result {
            Ok(()) => m@[0] matches FsMsg::Status { msg, ok } && msg@ == done_msg@ && ok,
            Err(e) => m@[0] matches FsMsg::Status { msg, ok } && msg@ == e@ && !ok,
        },
        m@[1] is Refresh,
{
    let mut m: Vec<FsMsg> = Vec::new();
    match result {
        Ok(()) => m.push(FsMsg::Status { msg: done_msg, ok: true }),
        Err(e) => m.push(FsMsg::Status { msg: e, ok: false }),
    }
    m.push(FsMsg::Refresh);
    m
}

/// The last component of a remote path: what follows its last `/`, or the
/// whole path when it has none.
pub open spec fn remote_file_name_spec(remote: Seq<char>) -> Seq<char> {
    match last_index(remote, '/') {
        Some(i) => remote.skip(i + 1),
        None => remote,
    }
}

/// The name a remote file is edited under locally.
pub fn remote_file_name(remote: &str) -> (n: String)
    ensures
        n@ == remote_file_name_spec(remote@),
{
    let v = chars_of(remote);
    let k = rfind_char(&v, '/', 0, v.len());
    proof {
        assert(v@.subrange(0, v@.len() as int) =~= v@);
        lemma_last_index(
            v@,
            '/',
            match k {
                Some(i) => Some(i as int),
                None => None,
            },
        );
    }
    match k {
        Some(i) => {
            let n = string_from_chars(&v, i + 1, v.len());
            assert(n@ =~= v@.skip(i + 1));
            n
        },
        None => string_from_chars(&v, 0, v.len()),
    }
}

/// What editing a remote file reports: where saving re-uploads it, and each
/// re-upload.
pub open spec fn editing_text_spec(name: Seq<char>, remote: Seq<char>) -> Seq<char> {
    "Editing "@ + name + ": saving re-uploads to "@ + remote
}

/// The message shown when a remote file is opened for editing.
pub fn editing_text(name: &str, remote: &str) -> (t: String)
    ensures
        t@ == editing_text_spec(name@, remote@),
{
    let mut t = String::new();
    push_str_chars(&mut t, "Editing ");
    push_str_chars(&mut t, name);
    push_str_chars(&mut t, ": saving re-uploads to ");
    push_str_chars(&mut t, remote);
    t
}

/// The report of a re-upload of an edited file.
pub fn reupload_report(name: &str, result: Result<(), String>) -> (m: FsMsg)
    ensures
        match result {
            Ok(()) => m matches FsMsg::Status { msg, ok } && msg@ == "Re-uploaded "@ + name@ && ok,
            Err(e) => m matches FsMsg::Status { msg, ok } && msg@ == e@ && !ok,
        },
{
    match result {
        Ok(()) => {
            let mut t = String::new();
            push_str_chars(&mut t, "Re-uploaded ");
            push_str_chars(&mut t, name);
            FsMsg::Status { msg: t, ok: true }
        },
        Err(e) => FsMsg::Status { msg: e, ok: false },
    }
}

} // verus!
