//! SGR mouse protocol encoding (mode 1006). Coordinates are 1-based.

use vstd::prelude::*;
use crate::decimal::{dec, push_dec};

verus! {

#[derive(Debug, Clone, Copy, PartialEq, Eq, Structural)]
pub enum MouseButton {
    Left,
    Middle,
    Right,
}

/// The SGR button code of a mouse button.
pub open spec fn button_code(b: MouseButton) -> nat {
    match b {
        MouseButton::Left => 0,
        MouseButton::Middle => 1,
        MouseButton::Right => 2,
    }
}

impl MouseButton {
    fn code(self) -> (c: u8)
        ensures
            c as nat == button_code(self),
    {
        match self {
            MouseButton::Left => 0,
            MouseButton::Middle => 1,
            MouseButton::Right => 2,
        }
    }
}

/// `ESC [ < btn ; col ; row (M | m)`.
pub open spec fn sgr_spec(btn: nat, col: nat, row: nat, press: bool) -> Seq<u8> {
    seq![0x1bu8, 0x5bu8, 0x3cu8] + dec(btn) + seq![0x3bu8] + dec(col) + seq![0x3bu8] + dec(row)
        + seq![if press { 0x4du8 } else { 0x6du8 }]
}

/// A coordinate clamped to at least 1.
pub open spec fn at_least_one(v: u16) -> nat {
    if v < 1 { 1 } else { v as nat }
}

fn sgr(btn: u16, col: u16, row: u16, press: bool) -> (out: Vec<u8>)
    ensures
        out@ == sgr_spec(btn as nat, col as nat, row as nat, press),
{
    let mut out: Vec<u8> = Vec::new();
    out.push(0x1b);
    out.push(0x5b);
    out.push(0x3c);
    push_dec(&mut out, btn as u64);
    out.push(0x3b);
    push_dec(&mut out, col as u64);
    out.push(0x3b);
    push_dec(&mut out, row as u64);
    out.push(if press { 0x4d } else { 0x6d });
    assert(out@ =~= sgr_spec(btn as nat, col as nat, row as nat, press));
    out
}

/// Button press/release. `press = false` emits the release form (`m`).
pub fn sgr_button(button: MouseButton, col: u16, row: u16, press: bool) -> (out: Vec<u8>)
    ensures
        out@ == sgr_spec(button_code(button), at_least_one(col), at_least_one(row), press),
{
    sgr(button.code() as u16, col.max(1), row.max(1), press)
}

/// Drag motion with a button held (motion flag 32).
pub fn sgr_drag(button: MouseButton, col: u16, row: u16) -> (out: Vec<u8>)
    ensures
        out@ == sgr_spec(button_code(button) + 32, at_least_one(col), at_least_one(row), true),
{
    sgr(button.code() as u16 + 32, col.max(1), row.max(1), true)
}

/// Motion with no button held (only relevant in any-event mode 1003).
pub fn sgr_move(col: u16, row: u16) -> (out: Vec<u8>)
    ensures
        out@ == sgr_spec(35, at_least_one(col), at_least_one(row), true),
{
    sgr(35, col.max(1), row.max(1), true)
}

/// Scroll wheel: up = 64, down = 65. Wheel events are always presses.
pub fn sgr_scroll(up: bool, col: u16, row: u16) -> (out: Vec<u8>)
    ensures
        out@ == sgr_spec(if up { 64 } else { 65 }, at_least_one(col), at_least_one(row), true),
{
    sgr(if up { 64 } else { 65 }, col.max(1), row.max(1), true)
}

} // verus!
