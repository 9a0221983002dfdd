//! Local input to VT byte-sequence translation for both UI modes.

use vstd::prelude::*;
use vstd::utf8::encode_scalar;
use vstd::utf8::encode_utf8;
use crate::decimal::{dec, push_dec};

verus! {

/// xterm modifier parameter: 1 + Shift(1) + Alt(2) + Ctrl(4).
pub open spec fn modifier_value(shift: bool, alt: bool, ctrl: bool) -> nat {
    1 + (if shift { 1nat } else { 0 }) + (if alt { 2nat } else { 0 }) + (if ctrl { 4nat } else { 0 })
}

fn xterm_modifier(shift: bool, alt: bool, ctrl: bool) -> (m: u8)
    ensures
        m as nat == modifier_value(shift, alt, ctrl),
{
    1 + (if shift { 1u8 } else { 0 }) + (if alt { 2u8 } else { 0 }) + (if ctrl { 4u8 } else { 0 })
}

/// Arrow/navigation sequence: `ESC [ final` unmodified, `ESC [ 1 ; m final` modified.
pub open spec fn modified_seq_spec(final_byte: u8, shift: bool, alt: bool, ctrl: bool) -> Seq<u8> {
    if !shift && !alt && !ctrl {
        seq![0x1bu8, 0x5b, final_byte]
    } else {
        seq![0x1bu8, 0x5b, 0x31, 0x3b] + dec(modifier_value(shift, alt, ctrl)) + seq![final_byte]
    }
}

/// Tilde-style key: `ESC [ n ~` unmodified, `ESC [ n ; m ~` modified.
pub open spec fn tilde_seq_spec(n: u8, shift: bool, alt: bool, ctrl: bool) -> Seq<u8> {
    if !shift && !alt && !ctrl {
        seq![0x1bu8, 0x5b] + dec(n as nat) + seq![0x7eu8]
    } else {
        seq![0x1bu8, 0x5b] + dec(n as nat) + seq![0x3bu8] + dec(modifier_value(shift, alt, ctrl))
            + seq![0x7eu8]
    }
}

/// Arrow/navigation sequence with optional xterm modifiers.
/// `final_byte` is e.g. `A` for Up. Unmodified: `ESC[A`; modified: `ESC[1;5A`.
pub fn modified_seq(final_byte: u8, shift: bool, alt: bool, ctrl: bool) -> (out: Vec<u8>)
    ensures
        out@ == modified_seq_spec(final_byte, shift, alt, ctrl),
{
    let mut out: Vec<u8> = Vec::new();
    out.push(0x1b);
    out.push(0x5b);
    if !shift && !alt && !ctrl {
        out.push(final_byte);
        assert(out@ =~= modified_seq_spec(final_byte, shift, alt, ctrl));
    } else {
        out.push(0x31);
        out.push(0x3b);
        let m = xterm_modifier(shift, alt, ctrl);
        push_dec(&mut out, m as u64);
        out.push(final_byte);
        assert(out@ =~= modified_seq_spec(final_byte, shift, alt, ctrl));
    }
    out
}

/// Tilde-style key (Insert/Delete/PgUp/PgDn/F5..F12) with optional modifiers.
/// Unmodified: `ESC[{n}~`; modified: `ESC[{n};{m}~`.
pub fn tilde_seq(n: u8, shift: bool, alt: bool, ctrl: bool) -> (out: Vec<u8>)
    ensures
        out@ == tilde_seq_spec(n, shift, alt, ctrl),
{
    let mut out: Vec<u8> = Vec::new();
    out.push(0x1b);
    out.push(0x5b);
    push_dec(&mut out, n as u64);
    if !shift && !alt && !ctrl {
        out.push(0x7e);
    } else {
        out.push(0x3b);
        let m = xterm_modifier(shift, alt, ctrl);
        push_dec(&mut out, m as u64);
        out.push(0x7e);
    }
    assert(out@ =~= tilde_seq_spec(n, shift, alt, ctrl));
    out
}

/// Function key sequences F1..F12.
pub open spec fn fkey_spec(n: u8) -> Option<Seq<u8>> {
    if n == 1 {
        Some(seq![0x1bu8, 0x4f, 0x50])
    } else if n == 2 {
        Some(seq![0x1bu8, 0x4f, 0x51])
    } else if n == 3 {
        Some(seq![0x1bu8, 0x4f, 0x52])
    } else if n == 4 {
        Some(seq![0x1bu8, 0x4f, 0x53])
    } else if n == 5 {
        Some(seq![0x1bu8, 0x5b, 0x31, 0x35, 0x7e])
    } else if n == 6 {
        Some(seq![0x1bu8, 0x5b, 0x31, 0x37, 0x7e])
    } else if n == 7 {
        Some(seq![0x1bu8, 0x5b, 0x31, 0x38, 0x7e])
    } else if n == 8 {
        Some(seq![0x1bu8, 0x5b, 0x31, 0x39, 0x7e])
    } else if n == 9 {
        Some(seq![0x1bu8, 0x5b, 0x32, 0x30, 0x7e])
    } else if n == 10 {
        Some(seq![0x1bu8, 0x5b, 0x32, 0x31, 0x7e])
    } else if n == 11 {
        Some(seq![0x1bu8, 0x5b, 0x32, 0x33, 0x7e])
    } else if n == 12 {
        Some(seq![0x1bu8, 0x5b, 0x32, 0x34, 0x7e])
    } else {
        None
    }
}

/// Function key sequences F1..F12.
pub fn fkey_seq(n: u8) -> (out: Option<Vec<u8>>)
    ensures
        match fkey_spec(n) {
            Some(s) => out matches Some(v) && v@ == s,
            None => out is None,
        },
{
    let v: Vec<u8> = if n == 1 {
        vec![0x1b, 0x4f, 0x50]
    } else if n == 2 {
        vec![0x1b, 0x4f, 0x51]
    } else if n == 3 {
        vec![0x1b, 0x4f, 0x52]
    } else if n == 4 {
        vec![0x1b, 0x4f, 0x53]
    } else if n == 5 {
        vec![0x1b, 0x5b, 0x31, 0x35, 0x7e]
    } else if n == 6 {
        vec![0x1b, 0x5b, 0x31, 0x37, 0x7e]
    } else if n == 7 {
        vec![0x1b, 0x5b, 0x31, 0x38, 0x7e]
    } else if n == 8 {
        vec![0x1b, 0x5b, 0x31, 0x39, 0x7e]
    } else if n == 9 {
        vec![0x1b, 0x5b, 0x32, 0x30, 0x7e]
    } else if n == 10 {
        vec![0x1b, 0x5b, 0x32, 0x31, 0x7e]
    } else if n == 11 {
        vec![0x1b, 0x5b, 0x32, 0x33, 0x7e]
    } else if n == 12 {
        vec![0x1b, 0x5b, 0x32, 0x34, 0x7e]
    } else {
        return None;
    };
    assert(v@ =~= fkey_spec(n).unwrap());
    Some(v)
}

/// ASCII lowercase of a character; other characters are unchanged.
pub open spec fn ascii_lower(c: char) -> u32 {
    if 0x41 <= (c as u32) <= 0x5a {
        (c as u32 + 0x20) as u32
    } else {
        c as u32
    }
}

/// Ctrl+letter (and a few symbols) to control byte.
pub open spec fn ctrl_spec(c: char) -> Option<u8> {
    let l = ascii_lower(c);
    if 0x61 <= l <= 0x7a {
        Some((l - 0x60) as u8)
    } else if l == 0x40 || l == 0x20 {
        Some(0x00)
    } else if l == 0x5b {
        Some(0x1b)
    } else if l == 0x5c {
        Some(0x1c)
    } else if l == 0x5d {
        Some(0x1d)
    } else if l == 0x5e {
        Some(0x1e)
    } else if l == 0x5f || l == 0x2f {
        Some(0x1f)
    } else {
        None
    }
}

/// Ctrl+letter (and a few symbols) to control byte.
pub fn ctrl_byte(c: char) -> (b: Option<u8>)
    ensures
        b == ctrl_spec(c),
{
    let u = c as u32;
    let l = if 0x41 <= u && u <= 0x5a {
        u + 0x20
    } else {
        u
    };
    if 0x61 <= l && l <= 0x7a {
        Some((l - 0x60) as u8)
    } else if l == 0x40 || l == 0x20 {
        Some(0x00)
    } else if l == 0x5b {
        Some(0x1b)
    } else if l == 0x5c {
        Some(0x1c)
    } else if l == 0x5d {
        Some(0x1d)
    } else if l == 0x5e {
        Some(0x1e)
    } else if l == 0x5f || l == 0x2f {
        Some(0x1f)
    } else {
        None
    }
}

/// UTF-8 encoding of one character.
pub fn encode_char(c: char) -> (out: Vec<u8>)
    ensures
        out@ == encode_scalar(c as u32),
{
    let u = c as u32;
    let mut out: Vec<u8> = Vec::new();
    if u <= 0x7f {
        out.push((u & 0x7f) as u8);
    } else if u <= 0x7ff {
        out.push(0xc0 | ((u >> 6) & 0x1f) as u8);
        out.push(0x80 | (u & 0x3f) as u8);
    } else if u <= 0xffff && !(0xd800 <= u && u <= 0xdfff) {
        out.push(0xe0 | ((u >> 12) & 0x0f) as u8);
        out.push(0x80 | ((u >> 6) & 0x3f) as u8);
        out.push(0x80 | (u & 0x3f) as u8);
    } else {
        out.push(0xf0 | ((u >> 18) & 0x7) as u8);
        out.push(0x80 | ((u >> 12) & 0x3f) as u8);
        out.push(0x80 | ((u >> 6) & 0x3f) as u8);
        out.push(0x80 | (u & 0x3f) as u8);
    }
    assert(out@ =~= encode_scalar(c as u32));
    out
}

/// A key as the terminal front ends report it.
#[derive(Debug, Clone, Copy, PartialEq, Eq)]
pub enum KeyCode {
    Char(char),
    Enter,
    Backspace,
    Tab,
    BackTab,
    Esc,
    Up,
    Down,
    Left,
    Right,
    Home,
    End,
    PageUp,
    PageDown,
    Insert,
    Delete,
    F(u8),
    /// Any other key; never forwarded.
    Other,
}

/// A key press or release with its modifiers.
#[derive(Debug, Clone, Copy, PartialEq, Eq)]
pub struct KeyEvent {
    pub code: KeyCode,
    pub shift: bool,
    pub alt: bool,
    pub ctrl: bool,
    /// Whether this is a key release (releases are never forwarded).
    pub release: bool,
}

/// The bytes a key stands for, before the Alt prefix.
pub open spec fn key_body(ev: KeyEvent) -> Option<Seq<u8>> {
    match ev.code {
        KeyCode::Char(c) => if ev.ctrl {
            match ctrl_spec(c) {
                Some(b) => Some(seq![b]),
                None => None,
            }
        } else {
            Some(encode_scalar(c as u32))
        },
        KeyCode::Enter => Some(seq![0x0du8]),
        KeyCode::Backspace => Some(seq![0x7fu8]),
        KeyCode::Tab => Some(seq![0x09u8]),
        KeyCode::BackTab => Some(seq![0x1bu8, 0x5b, 0x5a]),
        KeyCode::Esc => Some(seq![0x1bu8]),
        KeyCode::Up => Some(modified_seq_spec(0x41, ev.shift, false, ev.ctrl)),
        KeyCode::Down => Some(modified_seq_spec(0x42, ev.shift, false, ev.ctrl)),
        KeyCode::Right => Some(modified_seq_spec(0x43, ev.shift, false, ev.ctrl)),
        KeyCode::Left => Some(modified_seq_spec(0x44, ev.shift, false, ev.ctrl)),
        KeyCode::Home => Some(modified_seq_spec(0x48, ev.shift, false, ev.ctrl)),
        KeyCode::End => Some(modified_seq_spec(0x46, ev.shift, false, ev.ctrl)),
        KeyCode::PageUp => Some(tilde_seq_spec(5, ev.shift, false, ev.ctrl)),
        KeyCode::PageDown => Some(tilde_seq_spec(6, ev.shift, false, ev.ctrl)),
        KeyCode::Insert => Some(tilde_seq_spec(2, ev.shift, false, ev.ctrl)),
        KeyCode::Delete => Some(tilde_seq_spec(3, ev.shift, false, ev.ctrl)),
        KeyCode::F(n) => fkey_spec(n),
        KeyCode::Other => None,
    }
}

/// The bytes forwarded for a key event: releases are dropped, and Alt
/// prefixes the key's bytes with ESC.
pub open spec fn key_bytes_spec(ev: KeyEvent) -> Option<Seq<u8>> {
    if ev.release {
        None
    } else {
        match key_body(ev) {
            Some(b) => Some(if ev.alt { seq![0x1bu8] + b } else { b }),
            None => None,
        }
    }
}

fn key_body_bytes(ev: &KeyEvent) -> (out: Option<Vec<u8>>)
    ensures
        match key_body(*ev) {
            Some(s) => out matches Some(v) && v@ == s,
            None => out is None,
        },
{
    let shift = ev.shift;
    let ctrl = ev.ctrl;
    match ev.code {
        KeyCode::Char(c) => {
            if ctrl {
                match ctrl_byte(c) {
                    Some(b) => {
                        let v: Vec<u8> = vec![b];
                        assert(v@ =~= seq![b]);
                        Some(v)
                    },
                    None => None,
                }
            } else {
                Some(encode_char(c))
            }
        },
        KeyCode::Enter => {
            let v: Vec<u8> = vec![0x0d];
            assert(v@ =~= seq![0x0du8]);
            Some(v)
        },
        KeyCode::Backspace => {
            let v: Vec<u8> = vec![0x7f];
            assert(v@ =~= seq![0x7fu8]);
            Some(v)
        },
        KeyCode::Tab => {
            let v: Vec<u8> = vec![0x09];
            assert(v@ =~= seq![0x09u8]);
            Some(v)
        },
        KeyCode::BackTab => {
            let v: Vec<u8> = vec![0x1b, 0x5b, 0x5a];
            assert(v@ =~= seq![0x1bu8, 0x5b, 0x5a]);
            Some(v)
        },
        KeyCode::Esc => {
            let v: Vec<u8> = vec![0x1b];
            assert(v@ =~= seq![0x1bu8]);
            Some(v)
        },
        KeyCode::Up => Some(modified_seq(0x41, shift, false, ctrl)),
        KeyCode::Down => Some(modified_seq(0x42, shift, false, ctrl)),
        KeyCode::Right => Some(modified_seq(0x43, shift, false, ctrl)),
        KeyCode::Left => Some(modified_seq(0x44, shift, false, ctrl)),
        KeyCode::Home => Some(modified_seq(0x48, shift, false, ctrl)),
        KeyCode::End => Some(modified_seq(0x46, shift, false, ctrl)),
        KeyCode::PageUp => Some(tilde_seq(5, shift, false, ctrl)),
        KeyCode::PageDown => Some(tilde_seq(6, shift, false, ctrl)),
        KeyCode::Insert => Some(tilde_seq(2, shift, false, ctrl)),
        KeyCode::Delete => Some(tilde_seq(3, shift, false, ctrl)),
        KeyCode::F(n) => fkey_seq(n),
        KeyCode::Other => None,
    }
}

/// Prefix `body` with ESC when `alt` is held.
fn with_alt(alt: bool, body: Vec<u8>) -> (out: Vec<u8>)
    ensures
        out@ == if alt { seq![0x1bu8] + body@ } else { body@ },
{
    if !alt {
        return body;
    }
    let mut out: Vec<u8> = Vec::new();
    out.push(0x1b);
    let mut i: usize = 0;
    while i < body.len()
        invariant
            i <= body.len(),
            out@ == seq![0x1bu8] + body@.subrange(0, i as int),
        decreases body.len() - i,
    {
        out.push(body[i]);
        i += 1;
        assert(out@ =~= seq![0x1bu8] + body@.subrange(0, i as int));
    }
    assert(body@.subrange(0, body@.len() as int) =~= body@);
    out
}

/// Convert a terminal key event into VT bytes for the remote PTY.
/// Returns None when the key should not be forwarded.
pub fn key_to_bytes(ev: &KeyEvent) -> (out: Option<Vec<u8>>)
    ensures
        match key_bytes_spec(*ev) {
            Some(s) => out matches Some(v) && v@ == s,
            None => out is None,
        },
{
    if ev.release {
        return None;
    }
    match key_body_bytes(ev) {
        Some(body) => Some(with_alt(ev.alt, body)),
        None => None,
    }
}

/// Keys of the GUI front end. Printable text arrives separately as text, so
/// only non-text keys and Ctrl combinations are encoded here.
#[derive(Debug, Clone, Copy, PartialEq, Eq)]
pub enum GuiKey {
    Enter,
    Backspace,
    Tab,
    Escape,
    ArrowUp,
    ArrowDown,
    ArrowRight,
    ArrowLeft,
    Home,
    End,
    PageUp,
    PageDown,
    Insert,
    Delete,
    /// F1..F12 (other numbers are not forwarded).
    F(u8),
    /// A key whose name is the single character given (letters, digits,
    /// punctuation keys).
    Named(char),
    /// Any other key.
    Other,
}

/// Modifier state of the GUI front end.
#[derive(Debug, Clone, Copy, PartialEq, Eq)]
pub struct GuiModifiers {
    pub shift: bool,
    pub alt: bool,
    pub ctrl: bool,
    pub command: bool,
}

/// The bytes a GUI key stands for, before the Alt prefix.
pub open spec fn gui_key_body(key: GuiKey, m: GuiModifiers) -> Option<Seq<u8>> {
    let ctrl = m.ctrl || m.command;
    match key {
        GuiKey::Enter => Some(seq![0x0du8]),
        GuiKey::Backspace => Some(seq![0x7fu8]),
        GuiKey::Tab => Some(if m.shift { seq![0x1bu8, 0x5b, 0x5a] } else { seq![0x09u8] }),
        GuiKey::Escape => Some(seq![0x1bu8]),
        GuiKey::ArrowUp => Some(modified_seq_spec(0x41, m.shift, false, ctrl)),
        GuiKey::ArrowDown => Some(modified_seq_spec(0x42, m.shift, false, ctrl)),
        GuiKey::ArrowRight => Some(modified_seq_spec(0x43, m.shift, false, ctrl)),
        GuiKey::ArrowLeft => Some(modified_seq_spec(0x44, m.shift, false, ctrl)),
        GuiKey::Home => Some(modified_seq_spec(0x48, m.shift, false, ctrl)),
        GuiKey::End => Some(modified_seq_spec(0x46, m.shift, false, ctrl)),
        GuiKey::PageUp => Some(tilde_seq_spec(5, m.shift, false, ctrl)),
        GuiKey::PageDown => Some(tilde_seq_spec(6, m.shift, false, ctrl)),
        GuiKey::Insert => Some(tilde_seq_spec(2, m.shift, false, ctrl)),
        GuiKey::Delete => Some(tilde_seq_spec(3, m.shift, false, ctrl)),
        GuiKey::F(n) => if 1 <= n <= 12 {
            fkey_spec(n)
        } else {
            None
        },
        GuiKey::Named(c) => if ctrl {
            match ctrl_spec(c) {
                Some(b) => Some(seq![b]),
                None => None,
            }
        } else {
            None
        },
        GuiKey::Other => None,
    }
}

/// The bytes forwarded for a GUI key: Alt prefixes the key's bytes with ESC.
pub open spec fn gui_key_bytes_spec(key: GuiKey, m: GuiModifiers) -> Option<Seq<u8>> {
    match gui_key_body(key, m) {
        Some(b) => Some(if m.alt { seq![0x1bu8] + b } else { b }),
        None => None,
    }
}

/// Convert a GUI key event into VT bytes.
pub fn egui_key_to_bytes(key: GuiKey, modifiers: GuiModifiers) -> (out: Option<Vec<u8>>)
    ensures
        match gui_key_bytes_spec(key, modifiers) {
            Some(s) => out matches Some(v) && v@ == s,
            None => out is None,
        },
{
    let shift = modifiers.shift;
    let ctrl = modifiers.ctrl || modifiers.command;
    let body: Vec<u8> = match key {
        GuiKey::Enter => {
            let v: Vec<u8> = vec![0x0d];
            assert(v@ =~= seq![0x0du8]);
            v
        },
        GuiKey::Backspace => {
            let v: Vec<u8> = vec![0x7f];
            assert(v@ =~= seq![0x7fu8]);
            v
        },
        GuiKey::Tab => {
            if shift {
                let v: Vec<u8> = vec![0x1b, 0x5b, 0x5a];
                assert(v@ =~= seq![0x1bu8, 0x5b, 0x5a]);
                v
            } else {
                let v: Vec<u8> = vec![0x09];
                assert(v@ =~= seq![0x09u8]);
                v
            }
        },
        GuiKey::Escape => {
            let v: Vec<u8> = vec![0x1b];
            assert(v@ =~= seq![0x1bu8]);
            v
        },
        GuiKey::ArrowUp => modified_seq(0x41, shift, false, ctrl),
        GuiKey::ArrowDown => modified_seq(0x42, shift, false, ctrl),
        GuiKey::ArrowRight => modified_seq(0x43, shift, false, ctrl),
        GuiKey::ArrowLeft => modified_seq(0x44, shift, false, ctrl),
        GuiKey::Home => modified_seq(0x48, shift, false, ctrl),
        GuiKey::End => modified_seq(0x46, shift, false, ctrl),
        GuiKey::PageUp => tilde_seq(5, shift, false, ctrl),
        GuiKey::PageDown => tilde_seq(6, shift, false, ctrl),
        GuiKey::Insert => tilde_seq(2, shift, false, ctrl),
        GuiKey::Delete => tilde_seq(3, shift, false, ctrl),
        GuiKey::F(n) => {
            if n < 1 || n > 12 {
                return None;
            }
            match fkey_seq(n) {
                Some(v) => v,
                None => {
                    return None;
                },
            }
        },
        GuiKey::Named(c) => {
            if !ctrl {
                return None;
            }
            match ctrl_byte(c) {
                Some(b) => {
                    let v: Vec<u8> = vec![b];
                    assert(v@ =~= seq![b]);
                    v
                },
                None => {
                    return None;
                },
            }
        },
        GuiKey::Other => {
            return None;
        },
    };
    Some(with_alt(modifiers.alt, body))
}

/// The contribution of byte `i` to a pasted payload: `\r\n` becomes `\r`,
/// and a lone `\n` becomes `\r`.
pub open spec fn newline_norm_at(b: Seq<u8>, i: int) -> Seq<u8> {
    if b[i] == 0x0a {
        if i > 0 && b[i - 1] == 0x0d {
            Seq::empty()
        } else {
            seq![0x0du8]
        }
    } else {
        seq![b[i]]
    }
}

/// `b[..n]` with newlines normalized to `\r`.
pub open spec fn newline_norm(b: Seq<u8>, n: int) -> Seq<u8>
    decreases n,
{
    if n <= 0 {
        Seq::empty()
    } else {
        newline_norm(b, n - 1) + newline_norm_at(b, n - 1)
    }
}

/// A paste payload: text with newlines normalized, wrapped in
/// `ESC[200~ .. ESC[201~` when bracketed paste is on.
pub open spec fn paste_spec(text: Seq<char>, bracketed: bool) -> Seq<u8> {
    let b = encode_utf8(text);
    let n = newline_norm(b, b.len() as int);
    if bracketed {
        seq![0x1bu8, 0x5b, 0x32, 0x30, 0x30, 0x7e] + n + seq![0x1bu8, 0x5b, 0x32, 0x30, 0x31, 0x7e]
    } else {
        n
    }
}

/// Build a paste payload. Newlines are normalized to `\r`; when the remote
/// has enabled bracketed paste the payload is wrapped in `ESC[200~ .. ESC[201~`.
pub fn paste_payload(text: &str, bracketed: bool) -> (out: Vec<u8>)
    ensures
        out@ == paste_spec(text@, bracketed),
{
    let b = text.as_bytes();
    let ghost bs = b@;
    let mut out: Vec<u8> = Vec::new();
    if bracketed {
        out.push(0x1b);
        out.push(0x5b);
        out.push(0x32);
        out.push(0x30);
        out.push(0x30);
        out.push(0x7e);
    }
    let ghost prefix = out@;
    let mut i: usize = 0;
    while i < b.len()
        invariant
            i <= b.len(),
            b@ == bs,
            out@ == prefix + newline_norm(bs, i as int),
        decreases b.len() - i,
    {
        let c = b[i];
        if c == 0x0a {
            if i > 0 && b[i - 1] == 0x0d {
            } else {
                out.push(0x0d);
            }
        } else {
            out.push(c);
        }
        proof {
            assert(newline_norm(bs, i + 1) == newline_norm(bs, i as int) + newline_norm_at(
                bs,
                i as int,
            ));
        }
        assert(out@ =~= prefix + newline_norm(bs, i + 1));
        i += 1;
    }
    if bracketed {
        out.push(0x1b);
        out.push(0x5b);
        out.push(0x32);
        out.push(0x30);
        out.push(0x31);
        out.push(0x7e);
    }
    assert(out@ =~= paste_spec(text@, bracketed));
    out
}

proof fn lemma_norm_has_no_line_feed(b: Seq<u8>, n: int)
    requires
        0 <= n <= b.len(),
    ensures
        forall|k: int| 0 <= k < newline_norm(b, n).len() ==> #[trigger] newline_norm(b, n)[k] != 0x0a,
    decreases n,
{
    if n > 0 {
        lemma_norm_has_no_line_feed(b, n - 1);
        let prev = newline_norm(b, n - 1);
        let cur = newline_norm(b, n);
        assert forall|k: int| 0 <= k < cur.len() implies #[trigger] cur[k] != 0x0a by {
            if k >= prev.len() {
                assert(cur[k] == newline_norm_at(b, n - 1)[k - prev.len()]);
            } else {
                assert(cur[k] == prev[k]);
            }
        }
    }
}

/// A paste never sends a line feed: every newline of the text, `\n` or
/// `\r\n`, reaches the remote as a single `\r`.
pub proof fn lemma_paste_has_no_line_feed(text: Seq<char>, bracketed: bool)
    ensures
        forall|k: int| 0 <= k < paste_spec(text, bracketed).len() ==> #[trigger] paste_spec(text, bracketed)[k]
            != 0x0a,
{
    let b = encode_utf8(text);
    let n = newline_norm(b, b.len() as int);
    lemma_norm_has_no_line_feed(b, b.len() as int);
    if bracketed {
        let open = seq![0x1bu8, 0x5b, 0x32, 0x30, 0x30, 0x7e];
        let close = seq![0x1bu8, 0x5b, 0x32, 0x30, 0x31, 0x7e];
        let p = paste_spec(text, bracketed);
        assert(p == open + n + close);
        assert forall|k: int| 0 <= k < p.len() implies #[trigger] p[k] != 0x0a by {
            if k < 6 {
                assert(p[k] == open[k]);
            } else if k < 6 + n.len() {
                assert(p[k] == n[k - 6]);
            } else {
                assert(p[k] == close[k - 6 - n.len()]);
            }
        }
    }
}


/// **Page Up and Page Down are told apart.** Whatever modifiers are held,
/// both keys are sent, their sequences have the same length and agree
/// everywhere except the key's number, `5` for Page Up and `6` for Page
/// Down (just after `ESC [`, behind the `ESC` that Alt adds). Unmodified,
/// Page Down is `ESC [ 6 ~`.
pub proof fn lemma_page_keys_differ_in_code(shift: bool, alt: bool, ctrl: bool)
    ensures
        ({
            let up = key_bytes_spec(KeyEvent { code: KeyCode::PageUp, shift, alt, ctrl, release: false });
            let down = key_bytes_spec(KeyEvent { code: KeyCode::PageDown, shift, alt, ctrl, release: false });
            let p: int = if alt { 3 } else { 2 };
            &&& up is Some && down is Some
            &&& up->0.len() == down->0.len()
            &&& up->0[p] == 0x35 && down->0[p] == 0x36
            &&& forall|i: int| 0 <= i < up->0.len() && i != p ==> up->0[i] == down->0[i]
        }),
        !shift && !alt && !ctrl ==> key_bytes_spec(
            KeyEvent { code: KeyCode::PageDown, shift, alt, ctrl, release: false },
        ) == Some(seq![0x1bu8, 0x5b, 0x36, 0x7e]),
{
    assert(dec(5) == seq![0x35u8]);
    assert(dec(6) == seq![0x36u8]);
    let a = tilde_seq_spec(5, shift, false, ctrl);
    let b = tilde_seq_spec(6, shift, false, ctrl);
    assert(a.len() == b.len());
    assert(a[2] == 0x35 && b[2] == 0x36);
    assert(forall|i: int| 0 <= i < a.len() && i != 2 ==> a[i] == b[i]);
    if alt {
        let ua = seq![0x1bu8] + a;
        let ub = seq![0x1bu8] + b;
        assert(forall|i: int| 0 <= i < ua.len() && i != 3 ==> ua[i] == ub[i]) by {
            assert forall|i: int| 0 <= i < ua.len() && i != 3 implies ua[i] == ub[i] by {
                if i > 0 {
                    assert(ua[i] == a[i - 1] && ub[i] == b[i - 1]);
                }
            }
        }
    }
    if !shift && !alt && !ctrl {
        assert(b =~= seq![0x1bu8, 0x5b, 0x36, 0x7e]);
    }
}

} // verus!
