use ssh4::gui::search::{row_matches, sort_matches, Match, SearchState};

fn m(scrollback: usize, row: u16, col: u16) -> Match {
    Match { scrollback, row, col, len: 2 }
}

#[test]
fn navigation_wraps() {
    let mut s = SearchState::default();
    s.next();
    assert_eq!(s.active, 0);
    s.matches = vec![m(0, 0, 0), m(0, 1, 0), m(0, 2, 0)];
    s.active = 2;
    s.next();
    assert_eq!(s.active, 0);
    s.prev();
    assert_eq!(s.active, 2);
    s.prev();
    assert_eq!(s.active, 1);
}

#[test]
fn row_matches_are_non_overlapping() {
    let hay: Vec<char> = "aaaa xaa".chars().collect();
    let needle: Vec<char> = "aa".chars().collect();
    let got = row_matches(&hay, &needle, 3, 7);
    assert_eq!(got, vec![m(3, 7, 0), m(3, 7, 2), m(3, 7, 6)]);
    assert_eq!(row_matches(&hay, &Vec::new(), 0, 0), vec![]);
}

#[test]
fn matches_sort_top_to_bottom() {
    let sorted = sort_matches(vec![m(0, 1, 4), m(24, 0, 0), m(0, 1, 2), m(0, 0, 9)]);
    assert_eq!(sorted, vec![m(24, 0, 0), m(0, 0, 9), m(0, 1, 2), m(0, 1, 4)]);
}

#[test]
fn refresh_rebuilds_only_when_something_changed() {
    let mut s = SearchState::default();
    s.query = "Err".to_string();
    assert!(s.begin_refresh(1));
    s.add_row(0, 0, "no ERROR here, err");
    s.add_row(5, 1, "err");
    s.finish_refresh();
    assert_eq!(
        s.matches,
        vec![Match { scrollback: 5, row: 1, col: 0, len: 3 }, Match { scrollback: 0, row: 0, col: 3, len: 3 }, Match { scrollback: 0, row: 0, col: 15, len: 3 }]
    );
    assert_eq!(s.active, 2);
    assert!(!s.begin_refresh(1));
    assert_eq!(s.matches.len(), 3);
    s.case_sensitive = true;
    assert!(s.begin_refresh(1));
    assert!(s.matches.is_empty());
    s.invalidate();
    s.query.clear();
    assert!(!s.begin_refresh(1));
}

#[test]
fn the_active_match_is_revealed() {
    let mut s = SearchState::new();
    assert_eq!(s.reveal_active(), None);
    s.matches = vec![m(0, 1, 2), m(7, 0, 0)];
    s.active = 1;
    assert_eq!(s.reveal_active(), Some(7));
    s.active = 0;
    assert_eq!(s.reveal_active(), Some(0));
}

#[test]
fn match_columns_are_display_cells() {
    let hay: Vec<char> = "你好 foo 好".chars().collect();
    let got = row_matches(&hay, &"foo".chars().collect(), 0, 2);
    assert_eq!(got, vec![Match { scrollback: 0, row: 2, col: 5, len: 3 }]);
    let wide = row_matches(&hay, &"好".chars().collect(), 0, 2);
    assert_eq!(wide, vec![Match { scrollback: 0, row: 2, col: 2, len: 2 }, Match { scrollback: 0, row: 2, col: 9, len: 2 }]);
}
