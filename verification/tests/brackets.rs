use ssh4::terminal::brackets::match_bracket;

fn grid(lines: &[&str]) -> Vec<Vec<char>> {
    lines.iter().map(|l| l.chars().collect()).collect()
}

#[test]
fn matches_simple_pair_same_row() {
    let g = grid(&["fn main() {}"]);
    assert_eq!(match_bracket(&g, 0, 7), Some((0, 8)));
    assert_eq!(match_bracket(&g, 0, 8), Some((0, 7)));
}

#[test]
fn matches_nested_pairs() {
    let g = grid(&["((a) (b))"]);
    assert_eq!(match_bracket(&g, 0, 0), Some((0, 8)));
    assert_eq!(match_bracket(&g, 0, 1), Some((0, 3)));
    assert_eq!(match_bracket(&g, 0, 5), Some((0, 7)));
}

#[test]
fn matches_across_rows() {
    let g = grid(&["if x {", "  y();", "}"]);
    assert_eq!(match_bracket(&g, 0, 5), Some((2, 0)));
    assert_eq!(match_bracket(&g, 2, 0), Some((0, 5)));
}

#[test]
fn non_bracket_and_unbalanced_return_none() {
    let g = grid(&["abc (def"]);
    assert_eq!(match_bracket(&g, 0, 0), None);
    assert_eq!(match_bracket(&g, 0, 4), None);
    assert_eq!(match_bracket(&g, 9, 0), None);
}

#[test]
fn angle_brackets_match() {
    let g = grid(&["Vec<Option<u8>>"]);
    assert_eq!(match_bracket(&g, 0, 3), Some((0, 14)));
    assert_eq!(match_bracket(&g, 0, 10), Some((0, 13)));
}

#[test]
fn match_is_symmetric_on_examples() {
    let g = grid(&["[a{b(c)d}e]", "<x>"]);
    for (r, row) in g.iter().enumerate() {
        for c in 0..row.len() {
            if let Some((r2, c2)) = match_bracket(&g, r, c) {
                assert_eq!(match_bracket(&g, r2, c2), Some((r, c)));
            }
        }
    }
}
