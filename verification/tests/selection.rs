use ssh4::terminal::selection::{CellPos, Selection};

fn pos(row: i32, col: i32) -> CellPos {
    CellPos { row, col }
}

#[test]
fn empty_selection_inactive() {
    let s = Selection::default();
    assert!(!s.is_active());
    assert_eq!(s.normalized(), None);
}

#[test]
fn zero_width_selection_inactive() {
    let mut s = Selection::default();
    s.start(pos(1, 1));
    assert!(!s.is_active());
}

#[test]
fn normalizes_backwards_drag() {
    let mut s = Selection::default();
    s.start(pos(5, 10));
    s.drag(pos(2, 3));
    let (a, b) = s.normalized().unwrap();
    assert_eq!(a, pos(2, 3));
    assert_eq!(b, pos(5, 10));
}

#[test]
fn contains_linear_order() {
    let mut s = Selection::default();
    s.start(pos(1, 5));
    s.drag(pos(2, 2));
    assert!(s.contains(1, 5));
    assert!(s.contains(1, 70));
    assert!(s.contains(2, 0));
    assert!(s.contains(2, 2));
    assert!(!s.contains(2, 3));
    assert!(!s.contains(0, 9));
}

#[test]
fn extract_single_row() {
    let mut s = Selection::default();
    s.start(pos(0, 2));
    s.drag(pos(0, 4));
    let text = s.extract_text(|_| "hello world".to_string());
    assert_eq!(text, "llo");
}

#[test]
fn extract_multi_row_trims_trailing() {
    let mut s = Selection::default();
    s.start(pos(0, 6));
    s.drag(pos(1, 2));
    let rows = ["first   ", "second"];
    let text = s.extract_text(|r| rows[r as usize].to_string());
    assert_eq!(text, "\nsec");
}

#[test]
fn selection_is_the_same_either_direction() {
    let mut a = Selection::default();
    a.start(pos(3, 1));
    a.drag(pos(0, 7));
    let mut b = Selection::default();
    b.start(pos(0, 7));
    b.drag(pos(3, 1));
    assert_eq!(a.normalized(), b.normalized());
    for row in 0..4 {
        for col in 0..10 {
            assert_eq!(a.contains(row, col), b.contains(row, col));
        }
    }
}

#[test]
fn clear_deactivates() {
    let mut s = Selection::default();
    s.start(pos(0, 0));
    s.drag(pos(0, 3));
    assert!(s.is_active());
    s.clear();
    assert!(!s.is_active());
    assert_eq!(s.extract_text(|_| "abc".to_string()), "");
}

#[test]
fn extraction_counts_display_cells() {
    let mut s = Selection::default();
    s.start(CellPos { row: 0, col: 1 });
    s.drag(CellPos { row: 0, col: 2 });
    assert_eq!(s.extract_text(|_| "你好ab".to_string()), "你好");
    let mut t = Selection::default();
    t.start(CellPos { row: 0, col: 4 });
    t.drag(CellPos { row: 0, col: 5 });
    assert_eq!(t.extract_text(|_| "你好ab".to_string()), "ab");
    let mut u = Selection::default();
    u.start(CellPos { row: 0, col: 3 });
    u.drag(CellPos { row: 1, col: 0 });
    assert_eq!(u.extract_text(|r| if r == 0 { "你好ab".to_string() } else { "中x".to_string() }), "好ab\n中");
}
