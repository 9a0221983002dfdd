//! What the terminal canvas does with keyboard and pointer input: which
//! bytes go to the remote, when the selection is copied, started, extended
//! or cleared, what a Ctrl-click on a link does, and how the wheel moves
//! through the scrollback.

use vstd::prelude::*;
use vstd::utf8::encode_utf8;
use crate::gui::render::{link_at, link_at_spec, starts_with};
use crate::gui::session::SCROLLBACK_LINES;
use crate::terminal::input::{GuiKey, GuiModifiers, egui_key_to_bytes, gui_key_bytes_spec, paste_payload, paste_spec};
use crate::terminal::mouse::{MouseButton, at_least_one, button_code, sgr_button, sgr_drag, sgr_scroll, sgr_spec};
use crate::terminal::selection::{CellPos, Selection};
use crate::text::{chars_of, find_char, first_index, lemma_first_index};

verus! {

/// Input the canvas receives from the keyboard.
pub enum CanvasEvent {
    /// Typed text.
    Text(String),
    /// Text pasted from the clipboard.
    Paste(String),
    /// The copy command.
    Copy,
    /// A key pressed, with the modifiers held.
    Key(GuiKey, GuiModifiers),
}

/// What a keyboard event asks for.
pub enum KeyboardAction {
    /// Send these bytes to the remote.
    Send(Vec<u8>),
    /// Send these bytes and show the live screen again.
    SendLive(Vec<u8>),
    /// A paste of several lines: ask before sending it.
    ConfirmPaste(String),
    /// Copy the selection to the clipboard.
    Copy,
    /// Copy the selection, then clear it.
    CopyAndClear,
    /// Upload the clipboard image.
    UploadImage,
    /// Nothing to do.
    Ignore,
}

/// The key is the letter `c`, in either case.
pub open spec fn is_letter(key: GuiKey, c: char) -> bool {
    match key {
        GuiKey::Named(k) => k == c || k as u32 + 0x20 == c as u32,
        _ => false,
    }
}

fn letter(key: GuiKey, c: char) -> (b: bool)
    requires
        0x61 <= c as u32 <= 0x7a,
    ensures
        b == is_letter(key, c),
{
    match key {
        GuiKey::Named(k) => k == c || (k as u32) + 0x20 == c as u32,
        _ => false,
    }
}

/// How a pressed key is handled: Ctrl+C and Enter copy an active
/// selection and clear it; Ctrl+P uploads the clipboard image; Ctrl+V,
/// Ctrl+C and Ctrl+X are left to the paste and copy events; any other key
/// is sent as the bytes it stands for, showing the live screen again.
pub open spec fn key_action_spec(key: GuiKey, m: GuiModifiers, selection_active: bool, a: KeyboardAction) -> bool {
    let ctrl = m.ctrl || m.command;
    if ctrl && is_letter(key, 'c') && selection_active {
        a is CopyAndClear
    } else if key is Enter && selection_active {
        a is CopyAndClear
    } else if ctrl && is_letter(key, 'p') {
        a is UploadImage
    } else if ctrl && (is_letter(key, 'v') || is_letter(key, 'c') || is_letter(key, 'x')) {
        a is Ignore
    } else {
        match gui_key_bytes_spec(key, m) {
            Some(b) => a matches KeyboardAction::SendLive(v) && v@ == b,
            None => a is Ignore,
        }
    }
}

/// What a keyboard event does: nothing while terminal input is not
/// enabled; else typed text is sent as its UTF-8 bytes, a paste holding a
/// line feed waits for confirmation and any other is sent as a paste
/// payload, the copy command copies, and a key goes by `key_action_spec`.
pub open spec fn keyboard_spec(ev: CanvasEvent, enabled: bool, selection_active: bool, bracketed: bool, a: KeyboardAction) -> bool {
    &&& !enabled ==> a is Ignore
    &&& enabled ==> match ev {
        CanvasEvent::Text(t) => a matches KeyboardAction::Send(b) && b@ == encode_utf8(t@),
        CanvasEvent::Paste(t) => if first_index(t@, '\n') is Some {
            a matches KeyboardAction::ConfirmPaste(p) && p@ == t@
        } else {
            a matches KeyboardAction::Send(b) && b@ == paste_spec(t@, bracketed)
        },
        CanvasEvent::Copy => a is Copy,
        CanvasEvent::Key(key, m) => key_action_spec(key, m, selection_active, a),
    }
}

/// Decide what a keyboard event does. While terminal input is not enabled
/// (a modal is open or the find bar has the focus) nothing is done. Typed
/// text is sent as its UTF-8 bytes; a paste holding a line feed waits for confirmation, any other is
/// sent as a paste payload (bracketed when the remote asked for it).
pub fn keyboard_action(ev: CanvasEvent, enabled: bool, selection_active: bool, bracketed: bool) -> (a: KeyboardAction)
    ensures
        keyboard_spec(ev, enabled, selection_active, bracketed, a),
{
    if !enabled {
        return KeyboardAction::Ignore;
    }
    match ev {
        CanvasEvent::Text(t) => KeyboardAction::Send(t.as_str().as_bytes_vec()),
        CanvasEvent::Paste(t) => {
            let v = chars_of(t.as_str());
            let nl = find_char(&v, '\n', 0, v.len());
            proof {
                assert(v@.subrange(0, v@.len() as int) =~= v@);
                lemma_first_index(
                    v@,
                    '\n',
                    match nl {
                        Some(i) => Some(i as int),
                        None => None,
                    },
                );
            }
            if nl.is_some() {
                KeyboardAction::ConfirmPaste(t)
            } else {
                KeyboardAction::Send(paste_payload(t.as_str(), bracketed))
            }
        },
        CanvasEvent::Copy => KeyboardAction::Copy,
        CanvasEvent::Key(key, m) => {
            let ctrl = m.ctrl || m.command;
            let is_enter = match key {
                GuiKey::Enter => true,
                _ => false,
            };
            if ctrl && letter(key, 'c') && selection_active {
                KeyboardAction::CopyAndClear
            } else if is_enter && selection_active {
                KeyboardAction::CopyAndClear
            } else if ctrl && letter(key, 'p') {
                KeyboardAction::UploadImage
            } else if ctrl && (letter(key, 'v') || letter(key, 'c') || letter(key, 'x')) {
                KeyboardAction::Ignore
            } else {
                match egui_key_to_bytes(key, m) {
                    Some(b) => KeyboardAction::SendLive(b),
                    None => KeyboardAction::Ignore,
                }
            }
        },
    }
}


/// What the pointer did over the canvas in one frame.
#[derive(Clone, Copy, Debug, PartialEq, Eq, Structural)]
pub enum Gesture {
    /// A drag with the primary button began.
    DragStarted,
    /// The primary button is dragging.
    Dragged,
    /// A drag with the primary button ended.
    DragStopped,
    /// A primary click.
    Clicked,
    /// A secondary click.
    SecondaryClicked,
    /// The pointer only hovered.
    Hover,
}

/// What a pointer gesture asks for beyond the selection.
pub enum PointerOutcome {
    /// Forward these mouse reports to the remote, one write each.
    Report(Vec<Vec<u8>>),
    /// Open this web link.
    OpenUrl(String),
    /// Copy this path to the clipboard.
    CopyPath(String),
    /// Handled on the canvas: the selection may have changed.
    Local,
}

/// The reports a gesture sends when the remote program reads the mouse,
/// at 1-based column `c` and row `r`.
pub open spec fn remote_reports(g: Gesture, c: u16, r: u16) -> Seq<Seq<u8>> {
    let left = button_code(MouseButton::Left);
    let right = button_code(MouseButton::Right);
    let (cc, rr) = (at_least_one(c), at_least_one(r));
    match g {
        Gesture::DragStarted => seq![sgr_spec(left, cc, rr, true)],
        Gesture::Dragged => seq![sgr_spec(left + 32, cc, rr, true)],
        Gesture::DragStopped => seq![sgr_spec(left, cc, rr, false)],
        Gesture::Clicked => seq![sgr_spec(left, cc, rr, true), sgr_spec(left, cc, rr, false)],
        Gesture::SecondaryClicked => seq![sgr_spec(right, cc, rr, true), sgr_spec(right, cc, rr, false)],
        Gesture::Hover => Seq::empty(),
    }
}

/// A pointer coordinate as a 1-based terminal coordinate, at least 1.
pub open spec fn one_based(v: i32) -> u16 {
    if v + 1 < 1 {
        1
    } else {
        (v + 1) as u16
    }
}

/// The link a Ctrl-click at (`row`, `col`) acts on, given the text of
/// that row: none off the grid.
pub open spec fn clicked_link(ctrl: bool, g: Gesture, row: i32, col: i32, row_text: Seq<char>) -> Option<Seq<char>> {
    if ctrl && g == Gesture::Clicked && row >= 0 && col >= 0 {
        link_at_spec(row_text, col as usize)
    } else {
        None
    }
}

fn one_based_of(v: i32) -> (r: u16)
    requires
        v < u16::MAX,
    ensures
        r == one_based(v),
{
    if v + 1 < 1 {
        1
    } else {
        (v + 1) as u16
    }
}

/// What a pointer gesture does, from selection `sel0` to `sel1`: see
/// `pointer_action`.
pub open spec fn pointer_spec(
    g: Gesture,
    enabled: bool,
    remote_mouse: bool,
    ctrl: bool,
    row: i32,
    col: i32,
    row_text: Seq<char>,
    sel0: Selection,
    sel1: Selection,
    o: PointerOutcome,
) -> bool {
    &&& (remote_mouse && !enabled ==> o is Local && sel1 == sel0)
    &&& (remote_mouse && enabled ==> {
            &&& o matches PointerOutcome::Report(w) && w@.map_values(|b: Vec<u8>| b@) == remote_reports(
                g,
                one_based(col),
                one_based(row),
            )
            &&& sel1 == sel0
        })
    &&& (!remote_mouse ==> match clicked_link(ctrl, g, row, col, row_text) {
            Some(l) => {
                &&& sel1 == sel0
                &&& if starts_with(l, "http"@) {
                    o matches PointerOutcome::OpenUrl(u) && u@ == l
                } else {
                    o matches PointerOutcome::CopyPath(p) && p@ == l
                }
            },
            None => {
                let pos = CellPos { row, col };
                &&& o is Local
                &&& g == Gesture::DragStarted ==> sel1 == (Selection {
                    anchor: Some(pos),
                    head: Some(pos),
                })
                &&& g == Gesture::Dragged ==> sel1 == (Selection {
                    anchor: sel0.anchor,
                    head: if sel0.anchor is Some {
                        Some(pos)
                    } else {
                        sel0.head
                    },
                })
                &&& g == Gesture::Clicked ==> sel1.anchor is None
                    && sel1.head is None
                &&& (g == Gesture::DragStopped || g == Gesture::SecondaryClicked || g
                    == Gesture::Hover) ==> sel1 == sel0
            },
        })
}

/// Handle a pointer gesture at cell (`row`, `col`); `row_text` is the text
/// of that row. When the remote program reads the mouse (and Shift is not
/// held), the gesture is reported to it, but only while terminal input is
/// enabled (no modal open, find bar closed); else nothing happens. Otherwise a Ctrl-click on a web
/// link opens it and on a path copies it; else a drag starts or extends
/// the selection and a click clears it.
pub fn pointer_action(
    g: Gesture,
    enabled: bool,
    remote_mouse: bool,
    ctrl: bool,
    row: i32,
    col: i32,
    row_text: &str,
    selection: &mut Selection,
) -> (o: PointerOutcome)
    requires
        row < u16::MAX,
        col < u16::MAX,
    ensures
        pointer_spec(g, enabled, remote_mouse, ctrl, row, col, row_text@, *old(selection), *final(selection), o),
{
    let c1 = one_based_of(col);
    let r1 = one_based_of(row);
    if remote_mouse && !enabled {
        return PointerOutcome::Local;
    }
    if remote_mouse {
        let mut w: Vec<Vec<u8>> = Vec::new();
        match g {
            Gesture::DragStarted => {
                w.push(sgr_button(MouseButton::Left, c1, r1, true));
            },
            Gesture::Dragged => {
                w.push(sgr_drag(MouseButton::Left, c1, r1));
            },
            Gesture::DragStopped => {
                w.push(sgr_button(MouseButton::Left, c1, r1, false));
            },
            Gesture::Clicked => {
                w.push(sgr_button(MouseButton::Left, c1, r1, true));
                w.push(sgr_button(MouseButton::Left, c1, r1, false));
            },
            Gesture::SecondaryClicked => {
                w.push(sgr_button(MouseButton::Right, c1, r1, true));
                w.push(sgr_button(MouseButton::Right, c1, r1, false));
            },
            Gesture::Hover => {},
        }
        assert(w@.map_values(|b: Vec<u8>| b@) =~= remote_reports(g, c1, r1));
        return PointerOutcome::Report(w);
    }
    if ctrl && g == Gesture::Clicked && row >= 0 && col >= 0 {
        if let Some(span) = link_at(row_text, col as usize) {
            let v = chars_of(span.as_str());
            if has_http(&v) {
                return PointerOutcome::OpenUrl(span);
            } else {
                return PointerOutcome::CopyPath(span);
            }
        }
    }
    let pos = CellPos { row, col };
    match g {
        Gesture::DragStarted => selection.start(pos),
        Gesture::Dragged => selection.drag(pos),
        Gesture::Clicked => selection.clear(),
        _ => {},
    }
    PointerOutcome::Local
}

fn has_http(v: &Vec<char>) -> (b: bool)
    ensures
        b == starts_with(v@, "http"@),
{
    crate::gui::render::has_prefix(v, "http")
}

/// The scrollback after the wheel moved `lines` lines while the remote
/// program does not read the mouse: up goes further back, at most
/// `SCROLLBACK_LINES`; down goes towards the live screen, not past it. The
/// alternate screen has no scrollback.
pub open spec fn wheel_scrollback(scrollback: usize, lines: usize, up: bool, alt_screen: bool) -> usize {
    if alt_screen {
        scrollback
    } else if up {
        if scrollback + lines < SCROLLBACK_LINES {
            (scrollback + lines) as usize
        } else {
            SCROLLBACK_LINES
        }
    } else if scrollback >= lines {
        (scrollback - lines) as usize
    } else {
        0
    }
}

/// What the wheel does: see `wheel_action`.
pub open spec fn wheel_spec(
    up: bool,
    enabled: bool,
    remote_mouse: bool,
    alt_screen: bool,
    at: Option<(u16, u16)>,
    lines: usize,
    scrollback: usize,
    r: (Option<Vec<u8>>, usize),
) -> bool {
    &&& remote_mouse && !enabled ==> r.0 is None && r.1 == scrollback
    &&& remote_mouse && enabled ==> r.1 == scrollback && match at {
        Some(p) => r.0 matches Some(b) && b@ == sgr_spec(
            if up {
                64
            } else {
                65
            },
            at_least_one((p.1 + 1) as u16),
            at_least_one((p.0 + 1) as u16),
            true,
        ),
        None => r.0 is None,
    }
    &&& !remote_mouse ==> r.0 is None && r.1 == wheel_scrollback(scrollback, lines, up, alt_screen)
}

/// What the wheel does: when the remote program reads the mouse, a wheel
/// report at the hovered cell `at` (row, column; none when the pointer is
/// not over a cell), and nothing while terminal input is not enabled; else
/// the new scrollback.
pub fn wheel_action(up: bool, enabled: bool, remote_mouse: bool, alt_screen: bool, at: Option<(u16, u16)>, lines: usize, scrollback: usize) -> (r: (Option<Vec<u8>>, usize))
    requires
        scrollback + lines <= usize::MAX,
        at matches Some(p) ==> p.0 < u16::MAX && p.1 < u16::MAX,
    ensures
        wheel_spec(up, enabled, remote_mouse, alt_screen, at, lines, scrollback, r),
{
    if remote_mouse && !enabled {
        (None, scrollback)
    } else if remote_mouse {
        match at {
            Some((row, col)) => (Some(sgr_scroll(up, col + 1, row + 1)), scrollback),
            None => (None, scrollback),
        }
    } else if alt_screen {
        (None, scrollback)
    } else if up {
        let s = scrollback + lines;
        (None, if s < SCROLLBACK_LINES { s } else { SCROLLBACK_LINES })
    } else {
        (None, scrollback.saturating_sub(lines))
    }
}

} // verus!
