//! Command-line mode: the options, how they combine with a saved profile
//! into connection parameters, and the decisions of the interactive loop
//! (what local input and mouse events become, how a session summary is
//! written, whether to reconnect). Reading the terminal, prompting and the
//! SSH calls belong to the caller.

use vstd::prelude::*;
use crate::auth::{parse_host, host_spec};
use crate::config::Profile;
use crate::ssh_client::{ConnParams, Secret};
use crate::terminal::mouse::{sgr_button, sgr_drag, sgr_scroll, sgr_spec, button_code, at_least_one, MouseButton};
use crate::terminal::selection::{CellPos, Selection};
use crate::text::{dec_chars, push_dec_chars, push_str_chars};
use crate::gui::theme::{eq_ignore_ascii_case, ascii_lower};

verus! {

/// The command-line options.
pub struct Cli {
    /// Remote target: `[user@]host[:port]`.
    pub host: Option<String>,
    /// Connect using a saved profile.
    pub profile: Option<String>,
    /// Username (overrides user@host and profile).
    pub user: Option<String>,
    /// Private key path.
    pub key: Option<String>,
    /// Password (visible in process list and shell history).
    pub password: Option<String>,
    /// Remote directory for uploads.
    pub remote_dir: String,
    /// Upload clipboard image over SCP and exit.
    pub once: bool,
    /// Append raw remote output to a log file.
    pub log: Option<String>,
    /// Do not prompt to reconnect after disconnect.
    pub no_reconnect: bool,
    /// Save this connection as a named profile.
    pub save_profile: Option<String>,
    /// Connection timeout in seconds.
    pub timeout: u64,
    /// Force GUI mode.
    pub gui: bool,
    /// Verbose connection output.
    pub verbose: bool,
}

/// The view of an optional string.
pub open spec fn opt_view(o: Option<String>) -> Option<Seq<char>> {
    match o {
        Some(s) => Some(s@),
        None => None,
    }
}

/// The view of an optional secret.
pub open spec fn secret_view(o: Option<Secret>) -> Option<Seq<char>> {
    match o {
        Some(s) => Some(s@),
        None => None,
    }
}

/// Connection parameters as plain values: host, port, user, password,
/// key path, timeout, verbose.
pub struct ParamsView {
    pub host: Seq<char>,
    pub port: u16,
    pub user: Seq<char>,
    pub password: Option<Seq<char>>,
    pub key_path: Option<Seq<char>>,
    pub timeout_secs: u64,
    pub verbose: bool,
}

pub open spec fn params_view(p: ConnParams) -> ParamsView {
    ParamsView {
        host: p.host@,
        port: p.port,
        user: p.user@,
        password: secret_view(p.password),
        key_path: opt_view(p.key_path),
        timeout_secs: p.timeout_secs,
        verbose: p.verbose,
    }
}

/// The parameters and remote directory a saved profile gives, before any
/// option overrides them.
pub open spec fn from_profile(args: Cli, profile: Option<Profile>) -> (ParamsView, Seq<char>) {
    let base = ParamsView {
        host: Seq::empty(),
        port: 22,
        user: Seq::empty(),
        password: None,
        key_path: None,
        timeout_secs: args.timeout,
        verbose: args.verbose,
    };
    match (args.profile, profile) {
        (Some(_), Some(p)) => (
            ParamsView {
                host: p.host@,
                port: p.port,
                user: p.user@,
                password: opt_view(p.password),
                key_path: opt_view(p.key_path),
                ..base
            },
            match p.remote_dir {
                Some(d) => d@,
                None => args.remote_dir@,
            },
        ),
        _ => (base, args.remote_dir@),
    }
}

/// The options applied over the profile's values: the target's host and
/// port (and its user, when it names one), then `--user`, `--key` and
/// `--password`.
pub open spec fn with_options(args: Cli, p: ParamsView) -> ParamsView {
    let p1 = match args.host {
        Some(h) => {
            let spec = host_spec(h@);
            ParamsView {
                host: spec.1,
                port: spec.2,
                user: if spec.0.len() > 0 {
                    spec.0
                } else {
                    p.user
                },
                ..p
            }
        },
        None => p,
    };
    let p2 = match args.user {
        Some(u) => ParamsView { user: u@, ..p1 },
        None => p1,
    };
    let p3 = match args.key {
        Some(k) => ParamsView { key_path: Some(k@), ..p2 },
        None => p2,
    };
    match args.password {
        Some(pw) => ParamsView { password: Some(pw@), ..p3 },
        None => p3,
    }
}

/// What resolving the options gives: an error for a named profile that
/// does not exist or when no host results, else the parameters and the
/// remote directory.
pub open spec fn resolve_spec(args: Cli, profile: Option<Profile>) -> Result<(ParamsView, Seq<char>), Seq<char>> {
    if args.profile is Some && profile is None {
        Err("Profile '"@ + args.profile->0@ + "' not found in ~/.ssh4.toml"@)
    } else {
        let (p, dir) = from_profile(args, profile);
        let q = with_options(args, p);
        if q.host.len() == 0 {
            Err("No host given (use HOST or -P PROFILE)"@)
        } else {
            Ok((q, dir))
        }
    }
}

fn copy_str(s: &str) -> (r: String)
    ensures
        r@ == s@,
{
    let mut r = String::new();
    push_str_chars(&mut r, s);
    r
}

fn copy_opt(o: &Option<String>) -> (r: Option<String>)
    ensures
        opt_view(r) == opt_view(*o),
{
    match o {
        Some(s) => Some(copy_str(s.as_str())),
        None => None,
    }
}

/// Combine the options with the profile they name (`profile` is what the
/// configuration holds under that name, if anything) into connection
/// parameters and the remote directory. Asking for a missing user or
/// password, and key discovery, come after this and belong to the caller.
#[verifier::rlimit(40)]
pub fn resolve_params(args: &Cli, profile: Option<&Profile>) -> (r: Result<(ConnParams, String), String>)
    ensures
        match resolve_spec(
            *args,
            match profile {
                Some(p) => Some(*p),
                None => None,
            },
        ) {
            Ok((p, dir)) => r matches Ok(v) && params_view(v.0) == p && v.1@ == dir,
            Err(e) => r matches Err(m) && m@ == e,
        },
{
    let ghost prof = match profile {
        Some(p) => Some(*p),
        None => None,
    };
    let mut params = ConnParams::default();
    params.timeout_secs = args.timeout;
    params.verbose = args.verbose;
    let mut remote_dir = copy_str(args.remote_dir.as_str());
    if let Some(name) = &args.profile {
        match profile {
            None => {
                let mut e = String::new();
                push_str_chars(&mut e, "Profile '");
                push_str_chars(&mut e, name.as_str());
                push_str_chars(&mut e, "' not found in ~/.ssh4.toml");
                return Err(e);
            },
            Some(p) => {
                params.host = copy_str(p.host.as_str());
                params.port = p.port;
                params.user = copy_str(p.user.as_str());
                params.key_path = copy_opt(&p.key_path);
                params.password = match &p.password {
                    Some(pw) => Some(Secret::new(pw.as_str())),
                    None => None,
                };
                if let Some(dir) = &p.remote_dir {
                    remote_dir = copy_str(dir.as_str());
                }
            },
        }
    }
    assert(params_view(params) == from_profile(*args, prof).0);
    assert(remote_dir@ == from_profile(*args, prof).1);
    if let Some(host) = &args.host {
        let spec = parse_host(host.as_str());
        params.host = spec.host;
        params.port = spec.port;
        if !spec.user.as_str().is_empty() {
            params.user = spec.user;
        }
    }
    if let Some(u) = &args.user {
        params.user = copy_str(u.as_str());
    }
    if let Some(k) = &args.key {
        params.key_path = Some(copy_str(k.as_str()));
    }
    if let Some(pw) = &args.password {
        params.password = Some(Secret::new(pw.as_str()));
    }
    assert(params_view(params) == with_options(*args, from_profile(*args, prof).0));
    if params.host.as_str().is_empty() {
        let mut e = String::new();
        push_str_chars(&mut e, "No host given (use HOST or -P PROFILE)");
        return Err(e);
    }
    Ok((params, remote_dir))
}

/// The profile a connection is saved as. Passwords are never saved from
/// the command line.
pub fn profile_to_save(params: &ConnParams, remote_dir: &str) -> (p: Profile)
    ensures
        p.host@ == params.host@,
        p.port == params.port,
        p.user@ == params.user@,
        opt_view(p.key_path) == opt_view(params.key_path),
        opt_view(p.remote_dir) == Some(remote_dir@),
        p.password is None,
{
    Profile {
        host: copy_str(params.host.as_str()),
        port: params.port,
        user: copy_str(params.user.as_str()),
        key_path: copy_opt(&params.key_path),
        remote_dir: Some(copy_str(remote_dir)),
        password: None,
    }
}

/// `n` with at least two digits.
pub open spec fn pad2(n: nat) -> Seq<char> {
    if n < 10 {
        seq!['0'] + dec_chars(n)
    } else {
        dec_chars(n)
    }
}

/// `HH:MM:SS` for a number of seconds; the hours grow past two digits.
pub open spec fn hms(s: nat) -> Seq<char> {
    pad2(s / 3600) + seq![':'] + pad2((s / 60) % 60) + seq![':'] + pad2(s % 60)
}

fn push_pad2(out: &mut String, n: u64)
    ensures
        final(out)@ == old(out)@ + pad2(n as nat),
{
    if n < 10 {
        out.push('0');
    }
    push_dec_chars(out, n);
    if n < 10 {
        assert(final(out)@ =~= old(out)@ + pad2(n as nat));
    }
}

/// Format a whole number of seconds as `HH:MM:SS`.
pub fn format_secs(s: u64) -> (r: String)
    ensures
        r@ == hms(s as nat),
{
    let mut r = String::new();
    push_pad2(&mut r, s / 3600);
    r.push(':');
    push_pad2(&mut r, (s / 60) % 60);
    r.push(':');
    push_pad2(&mut r, s % 60);
    assert(r@ =~= hms(s as nat));
    r
}

/// The whole seconds of a duration, as `Duration::as_secs` gives them.
pub uninterp spec fn duration_secs(d: std::time::Duration) -> u64;

/// Calls `Duration::as_secs` of std: the whole seconds of the duration,
/// named `duration_secs` of it.
#[verifier::external_body]
fn whole_secs(d: &std::time::Duration) -> (s: u64)
    ensures
        s == duration_secs(*d),
{
    d.as_secs()
}

/// Format a session length as `HH:MM:SS` (whole seconds).
pub fn format_duration(d: std::time::Duration) -> (r: String)
    ensures
        r@ == hms(duration_secs(d) as nat),
{
    let s = whole_secs(&d);
    format_secs(s)
}

/// What a local input event does while a session runs.
#[derive(Debug, PartialEq, Eq)]
pub enum InputAction {
    /// Enter with an active selection copies it (and clears it).
    CopySelection,
    /// Esc with an active selection clears it.
    ClearSelection,
    /// Anything else goes to the remote.
    Send(Vec<u8>),
}

/// Decide what local input does.
pub fn input_action(selection_active: bool, bytes: Vec<u8>) -> (a: InputAction)
    ensures
        selection_active && bytes@ == seq![0x0du8] ==> a == InputAction::CopySelection,
        selection_active && bytes@ == seq![0x1bu8] ==> a == InputAction::ClearSelection,
        !(selection_active && (bytes@ == seq![0x0du8] || bytes@ == seq![0x1bu8])) ==> a
            == InputAction::Send(bytes),
{
    if selection_active && bytes.len() == 1 && bytes[0] == 0x0d {
        assert(bytes@ =~= seq![0x0du8]);
        return InputAction::CopySelection;
    }
    if bytes.len() == 1 && bytes[0] == 0x1b && selection_active {
        assert(bytes@ =~= seq![0x1bu8]);
        return InputAction::ClearSelection;
    }
    proof {
        if bytes@ == seq![0x0du8] {
            assert(bytes@[0] == 0x0d);
        }
        if bytes@ == seq![0x1bu8] {
            assert(bytes@[0] == 0x1b);
        }
    }
    InputAction::Send(bytes)
}

/// A mouse event of the local terminal (0-based cell coordinates).
#[derive(Debug, Clone, Copy, PartialEq, Eq, Structural)]
pub enum MouseEventKind {
    Down(MouseButton),
    Up(MouseButton),
    Drag(MouseButton),
    Moved,
    ScrollUp,
    ScrollDown,
    ScrollLeft,
    ScrollRight,
}

#[derive(Debug, Clone, Copy, PartialEq, Eq, Structural)]
pub struct MouseEvent {
    pub kind: MouseEventKind,
    pub column: u16,
    pub row: u16,
    pub shift: bool,
}

/// The SGR report a mouse event gives when the remote wants mouse events
/// (1-based coordinates).
pub open spec fn mouse_report(m: MouseEvent) -> Option<Seq<u8>> {
    let col = (m.column + 1) as u16;
    let row = (m.row + 1) as u16;
    match m.kind {
        MouseEventKind::Down(b) => Some(sgr_spec(button_code(b), at_least_one(col), at_least_one(row), true)),
        MouseEventKind::Up(b) => Some(sgr_spec(button_code(b), at_least_one(col), at_least_one(row), false)),
        MouseEventKind::Drag(b) => Some(sgr_spec(button_code(b) + 32, at_least_one(col), at_least_one(row), true)),
        MouseEventKind::ScrollUp => Some(sgr_spec(64, at_least_one(col), at_least_one(row), true)),
        MouseEventKind::ScrollDown => Some(sgr_spec(65, at_least_one(col), at_least_one(row), true)),
        _ => None,
    }
}

/// Returns bytes to forward to the remote (SGR mouse), or None for local
/// handling: a left press starts a selection, a left drag extends it.
/// Shift forces local selection even when the remote wants mouse events.
pub fn handle_mouse(m: MouseEvent, remote_mouse: bool, selection: &mut Selection) -> (r: Option<Vec<u8>>)
    requires
        m.column < u16::MAX,
        m.row < u16::MAX,
    ensures
        remote_mouse && !m.shift ==> {
            &&& match mouse_report(m) {
                Some(b) => r matches Some(v) && v@ == b,
                None => r is None,
            }
            &&& *final(selection) == *old(selection)
        },
        !(remote_mouse && !m.shift) ==> {
            let pos = CellPos { row: m.row as i32, col: m.column as i32 };
            &&& r is None
            &&& m.kind == MouseEventKind::Down(MouseButton::Left) ==> *final(selection) == (Selection {
                anchor: Some(pos),
                head: Some(pos),
            })
            &&& m.kind == MouseEventKind::Drag(MouseButton::Left) ==> *final(selection) == (Selection {
                anchor: old(selection).anchor,
                head: if old(selection).anchor is Some { Some(pos) } else { old(selection).head },
            })
            &&& m.kind != MouseEventKind::Down(MouseButton::Left) && m.kind != MouseEventKind::Drag(
                MouseButton::Left,
            ) ==> *final(selection) == *old(selection)
        },
{
    let col = m.column + 1;
    let row = m.row + 1;
    if remote_mouse && !m.shift {
        return match m.kind {
            MouseEventKind::Down(b) => Some(sgr_button(b, col, row, true)),
            MouseEventKind::Up(b) => Some(sgr_button(b, col, row, false)),
            MouseEventKind::Drag(b) => Some(sgr_drag(b, col, row)),
            MouseEventKind::ScrollUp => Some(sgr_scroll(true, col, row)),
            MouseEventKind::ScrollDown => Some(sgr_scroll(false, col, row)),
            _ => None,
        };
    }
    let pos = CellPos { row: m.row as i32, col: m.column as i32 };
    match m.kind {
        MouseEventKind::Down(MouseButton::Left) => selection.start(pos),
        MouseEventKind::Drag(MouseButton::Left) => selection.drag(pos),
        _ => {},
    }
    None
}

/// Whether the answer to "Reconnect? [Y/n]" asks to reconnect: anything
/// but `n` or `no`, in any ASCII case.
pub open spec fn reconnect_spec(answer: Seq<char>) -> bool {
    !eq_ignore_ascii_case(answer, "n"@) && !eq_ignore_ascii_case(answer, "no"@)
}

/// Decide whether to reconnect from the user's answer.
pub fn wants_reconnect(answer: &str) -> (b: bool)
    ensures
        b == reconnect_spec(answer@),
{
    let v = crate::text::chars_of(answer);
    let n = crate::text::chars_of("n");
    let no = crate::text::chars_of("no");
    !fold_eq(&v, &n) && !fold_eq(&v, &no)
}

fn fold_eq(a: &Vec<char>, b: &Vec<char>) -> (r: bool)
    ensures
        r == eq_ignore_ascii_case(a@, b@),
{
    if a.len() != b.len() {
        return false;
    }
    let mut i: usize = 0;
    while i < a.len()
        invariant
            i <= a.len() == b.len(),
            forall|j: int| 0 <= j < i ==> ascii_lower(a@[j]) == ascii_lower(b@[j]),
        decreases a.len() - i,
    {
        let x = if 'A' <= a[i] && a[i] <= 'Z' { ((a[i] as u8) + 32) as char } else { a[i] };
        let y = if 'A' <= b[i] && b[i] <= 'Z' { ((b[i] as u8) + 32) as char } else { b[i] };
        if x != y {
            return false;
        }
        i += 1;
    }
    true
}

} // verus!
