use ssh4::terminal::input::{
    ctrl_byte, egui_key_to_bytes, fkey_seq, key_to_bytes, modified_seq, paste_payload, tilde_seq,
    GuiKey, GuiModifiers, KeyCode, KeyEvent,
};

fn key(code: KeyCode, shift: bool, alt: bool, ctrl: bool) -> KeyEvent {
    KeyEvent { code, shift, alt, ctrl, release: false }
}

fn plain(code: KeyCode) -> KeyEvent {
    key(code, false, false, false)
}

#[test]
fn printable_char() {
    assert_eq!(key_to_bytes(&plain(KeyCode::Char('a'))).unwrap(), b"a");
    assert_eq!(key_to_bytes(&plain(KeyCode::Char('é'))).unwrap(), "é".as_bytes());
}

#[test]
fn ctrl_letters() {
    assert_eq!(key_to_bytes(&key(KeyCode::Char('c'), false, false, true)).unwrap(), vec![0x03]);
    assert_eq!(key_to_bytes(&key(KeyCode::Char('d'), false, false, true)).unwrap(), vec![0x04]);
    assert_eq!(key_to_bytes(&key(KeyCode::Char('z'), false, false, true)).unwrap(), vec![0x1a]);
}

#[test]
fn alt_prefix() {
    assert_eq!(key_to_bytes(&key(KeyCode::Char('b'), false, true, false)).unwrap(), vec![0x1b, b'b']);
}

#[test]
fn shift_tab() {
    assert_eq!(key_to_bytes(&key(KeyCode::BackTab, true, false, false)).unwrap(), b"\x1b[Z");
}

#[test]
fn plain_arrows() {
    assert_eq!(key_to_bytes(&plain(KeyCode::Up)).unwrap(), b"\x1b[A");
    assert_eq!(key_to_bytes(&plain(KeyCode::Left)).unwrap(), b"\x1b[D");
}

#[test]
fn modified_arrows() {
    assert_eq!(key_to_bytes(&key(KeyCode::Up, false, false, true)).unwrap(), b"\x1b[1;5A");
    assert_eq!(key_to_bytes(&key(KeyCode::Right, true, false, false)).unwrap(), b"\x1b[1;2C");
    assert_eq!(key_to_bytes(&key(KeyCode::Down, true, false, true)).unwrap(), b"\x1b[1;6B");
}

#[test]
fn function_keys() {
    assert_eq!(key_to_bytes(&plain(KeyCode::F(1))).unwrap(), b"\x1bOP");
    assert_eq!(key_to_bytes(&plain(KeyCode::F(5))).unwrap(), b"\x1b[15~");
    assert_eq!(key_to_bytes(&plain(KeyCode::F(12))).unwrap(), b"\x1b[24~");
}

#[test]
fn navigation_keys() {
    assert_eq!(key_to_bytes(&plain(KeyCode::Home)).unwrap(), b"\x1b[H");
    assert_eq!(key_to_bytes(&plain(KeyCode::End)).unwrap(), b"\x1b[F");
    assert_eq!(key_to_bytes(&plain(KeyCode::PageUp)).unwrap(), b"\x1b[5~");
    assert_eq!(key_to_bytes(&plain(KeyCode::Delete)).unwrap(), b"\x1b[3~");
    assert_eq!(key_to_bytes(&plain(KeyCode::Insert)).unwrap(), b"\x1b[2~");
}

#[test]
fn paste_plain_normalizes_newlines() {
    assert_eq!(paste_payload("a\r\nb\nc", false), b"a\rb\rc");
}

#[test]
fn paste_bracketed_wraps() {
    assert_eq!(paste_payload("hi\nthere", true), b"\x1b[200~hi\rthere\x1b[201~");
}

#[test]
fn releases_and_unknown_keys_are_not_forwarded() {
    let mut k = plain(KeyCode::Char('a'));
    k.release = true;
    assert_eq!(key_to_bytes(&k), None);
    assert_eq!(key_to_bytes(&plain(KeyCode::F(13))), None);
    assert_eq!(key_to_bytes(&plain(KeyCode::Other)), None);
}

#[test]
fn sequence_helpers() {
    assert_eq!(modified_seq(b'A', false, false, false), b"\x1b[A");
    assert_eq!(modified_seq(b'A', true, true, true), b"\x1b[1;8A");
    assert_eq!(tilde_seq(3, false, false, false), b"\x1b[3~");
    assert_eq!(tilde_seq(5, false, true, false), b"\x1b[5;3~");
    assert_eq!(fkey_seq(4), Some(b"\x1bOS".to_vec()));
    assert_eq!(fkey_seq(0), None);
    assert_eq!(ctrl_byte('a'), Some(1));
    assert_eq!(ctrl_byte('@'), Some(0));
    assert_eq!(ctrl_byte('['), Some(0x1b));
    assert_eq!(ctrl_byte('?'), None);
    assert_eq!(ctrl_byte('A'), Some(1));
    assert_eq!(ctrl_byte(' '), Some(0));
    assert_eq!(ctrl_byte('/'), Some(0x1f));
    assert_eq!(ctrl_byte('1'), None);
}

#[test]
fn gui_keys_encode_like_terminal_keys() {
    let none = GuiModifiers { shift: false, alt: false, ctrl: false, command: false };
    let ctrl = GuiModifiers { shift: false, alt: false, ctrl: true, command: false };
    assert_eq!(egui_key_to_bytes(GuiKey::Enter, none), Some(vec![b'\r']));
    assert_eq!(egui_key_to_bytes(GuiKey::ArrowUp, ctrl), Some(b"\x1b[1;5A".to_vec()));
    assert_eq!(egui_key_to_bytes(GuiKey::F(12), none), Some(b"\x1b[24~".to_vec()));
    assert_eq!(egui_key_to_bytes(GuiKey::Named('c'), ctrl), Some(vec![0x03]));
}
