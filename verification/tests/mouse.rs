use ssh4::terminal::mouse::{sgr_button, sgr_drag, sgr_move, sgr_scroll, MouseButton};

#[test]
fn press_release() {
    assert_eq!(sgr_button(MouseButton::Left, 1, 1, true), b"\x1b[<0;1;1M");
    assert_eq!(sgr_button(MouseButton::Left, 1, 1, false), b"\x1b[<0;1;1m");
    assert_eq!(sgr_button(MouseButton::Right, 10, 5, true), b"\x1b[<2;10;5M");
}

#[test]
fn drag_adds_motion_flag() {
    assert_eq!(sgr_drag(MouseButton::Left, 3, 4), b"\x1b[<32;3;4M");
    assert_eq!(sgr_drag(MouseButton::Middle, 3, 4), b"\x1b[<33;3;4M");
}

#[test]
fn scroll_codes() {
    assert_eq!(sgr_scroll(true, 2, 2), b"\x1b[<64;2;2M");
    assert_eq!(sgr_scroll(false, 2, 2), b"\x1b[<65;2;2M");
}

#[test]
fn coordinates_clamped_to_one() {
    assert_eq!(sgr_button(MouseButton::Left, 0, 0, true), b"\x1b[<0;1;1M");
}

#[test]
fn motion_without_button_and_large_coordinates() {
    assert_eq!(sgr_move(7, 9), b"\x1b[<35;7;9M");
    assert_eq!(sgr_button(MouseButton::Middle, 65535, 300, true), b"\x1b[<1;65535;300M");
}
