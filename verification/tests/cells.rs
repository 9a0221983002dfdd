use ssh4::gui::cells::{
    cell_style, cursor_cells, grid_char, link_underlines, row_runs, row_styles, visible_highlights,
    CellStyle, ScreenCell, ScreenPalette,
};
use ssh4::gui::search::Match;
use ssh4::gui::theme::{ansi_palette, Rgb, VtColor};
use ssh4::terminal::selection::{CellPos, Selection};

fn rgb(r: u8, g: u8, b: u8) -> Rgb {
    Rgb { r, g, b }
}

fn palette() -> ScreenPalette {
    ScreenPalette {
        term_fg: rgb(200, 200, 200),
        term_bg: rgb(10, 10, 10),
        selection_bg: rgb(50, 60, 70),
        ansi: ansi_palette(0),
    }
}

fn cell(text: &str) -> ScreenCell {
    ScreenCell {
        contents: text.to_string(),
        fg: VtColor::Default,
        bg: VtColor::Default,
        bold: false,
        underline: false,
        inverse: false,
        wide: false,
        wide_continuation: false,
    }
}

#[test]
fn cell_styles_apply_selection_and_inverse() {
    let p = palette();
    let plain = cell("a");
    let s = cell_style(&plain, false, &p);
    assert_eq!(s, CellStyle { fg: p.term_fg, bg: None, bold: false, underline: false });
    let sel = cell_style(&plain, true, &p);
    assert_eq!(sel.bg, Some(p.selection_bg));
    let mut inv = cell("b");
    inv.inverse = true;
    let i = cell_style(&inv, false, &p);
    assert_eq!(i.fg, p.term_bg);
    assert_eq!(i.bg, Some(p.term_fg));
    let mut rgbcell = cell("c");
    rgbcell.fg = VtColor::Rgb(1, 2, 3);
    rgbcell.bg = VtColor::Rgb(4, 5, 6);
    rgbcell.inverse = true;
    let j = cell_style(&rgbcell, true, &p);
    assert_eq!(j.fg, p.selection_bg);
    assert_eq!(j.bg, Some(rgb(1, 2, 3)));
}

#[test]
fn row_styles_follow_the_selection() {
    let p = palette();
    let cells = vec![cell("a"), cell("b"), cell("c")];
    let mut sel = Selection::default();
    sel.start(CellPos { row: 2, col: 1 });
    sel.drag(CellPos { row: 2, col: 2 });
    let st = row_styles(2, &cells, &sel, &p);
    assert_eq!(st[0].bg, None);
    assert_eq!(st[1].bg, Some(p.selection_bg));
    assert_eq!(st[2].bg, Some(p.selection_bg));
    let other = row_styles(3, &cells, &sel, &p);
    assert!(other.iter().all(|s| s.bg.is_none()));
}

#[test]
fn cells_group_into_runs_by_style() {
    let p = palette();
    let mut wide = cell("界");
    wide.wide = true;
    let mut cont = cell("");
    cont.wide_continuation = true;
    let mut bold = cell("x");
    bold.bold = true;
    let cells = vec![cell("a"), cell(""), wide, cont, cell("b"), cell("c"), bold, cell("d")];
    let sel = Selection::default();
    let styles = row_styles(0, &cells, &sel, &p);
    let runs = row_runs(&cells, &styles);
    let got: Vec<(u16, u16, &str, bool)> =
        runs.iter().map(|r| (r.start, r.cells, r.text.as_str(), r.wide)).collect();
    assert_eq!(
        got,
        vec![(0, 2, "a ", false), (2, 2, "界", true), (4, 2, "bc", false), (6, 1, "x", false), (7, 1, "d", false)]
    );
    let text: String = runs.iter().map(|r| r.text.as_str()).collect();
    assert_eq!(text, "a 界bcxd");
}

#[test]
fn web_links_are_underlined() {
    let u = link_underlines("see https://a.b/c and http://x ok /tmp");
    assert_eq!(u, vec![(4, 13), (22, 8)]);
    assert!(link_underlines("no links here").is_empty());
}

#[test]
fn highlights_and_cursor() {
    let ms = vec![
        Match { scrollback: 0, row: 1, col: 2, len: 3 },
        Match { scrollback: 5, row: 0, col: 0, len: 1 },
        Match { scrollback: 0, row: 4, col: 0, len: 2 },
    ];
    assert_eq!(visible_highlights(&ms, 0, 2), vec![(1, 2, 3, false), (4, 0, 2, true)]);
    assert_eq!(visible_highlights(&ms, 5, 1), vec![(0, 0, 1, true)]);
    assert_eq!(cursor_cells(0, false, true, true), Some(2));
    assert_eq!(cursor_cells(0, false, true, false), Some(1));
    assert_eq!(cursor_cells(1, false, true, false), None);
    assert_eq!(cursor_cells(0, true, true, false), None);
    assert_eq!(cursor_cells(0, false, false, false), None);
    assert_eq!(grid_char(""), ' ');
    assert_eq!(grid_char("(x"), '(');
}

#[test]
fn runs_cover_the_row_without_drift() {
    let p = palette();
    let mut wide = cell("中");
    wide.wide = true;
    let mut cont = cell("");
    cont.wide_continuation = true;
    let cells = vec![cell("a"), wide, cont, cell("b")];
    let styles = row_styles(0, &cells, &Selection::default(), &p);
    let runs = row_runs(&cells, &styles);
    let mut next = 0u16;
    for r in &runs {
        assert_eq!(r.start, next);
        next = r.start + r.cells;
    }
    assert_eq!(next as usize, cells.len());
}
