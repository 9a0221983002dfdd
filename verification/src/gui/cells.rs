//! How the terminal screen is drawn, decided cell by cell: the colours a
//! cell is painted with, and how the cells of a row are grouped into runs
//! that share a style, so that each run is painted with one text call.
//! Wide (CJK) glyphs get a run of their own, two cells wide, so a run's
//! monospace advance never drifts from the grid.

use vstd::prelude::*;
use crate::gui::theme::{Rgb, VtColor, vt_color, vt_color_spec};
use crate::terminal::selection::{Selection, contains_spec};
use crate::text::{chars_of, push_str_chars};
use crate::gui::render::{tokenize, tokenize_spec, token_views, starts_with, has_prefix, display_width, str_width};
use crate::gui::search::Match;

verus! {

/// The style a run of text is painted with.
#[derive(Clone, Copy, Debug, PartialEq, Eq, Structural)]
pub struct CellStyle {
    pub fg: Rgb,
    /// No background means the terminal background shows through.
    pub bg: Option<Rgb>,
    pub bold: bool,
    pub underline: bool,
}

/// A screen cell as the emulator holds it.
pub struct ScreenCell {
    /// What the cell shows; empty for a blank cell.
    pub contents: String,
    pub fg: VtColor,
    pub bg: VtColor,
    pub bold: bool,
    pub underline: bool,
    pub inverse: bool,
    /// The cell holds a glyph two columns wide.
    pub wide: bool,
    /// The cell is the right half of a wide glyph.
    pub wide_continuation: bool,
}

/// The colours of the terminal canvas.
pub struct ScreenPalette {
    pub term_fg: Rgb,
    pub term_bg: Rgb,
    pub selection_bg: Rgb,
    /// The sixteen ANSI colours.
    pub ansi: [Rgb; 16],
}

/// Foreground and background of a cell: its own colours mapped through the
/// palette; a default background stays transparent.
pub open spec fn cell_colors_spec(c: ScreenCell, p: ScreenPalette) -> (Rgb, Option<Rgb>) {
    (
        vt_color_spec(c.fg, p.term_fg, p.ansi@),
        match c.bg {
            VtColor::Default => None,
            other => Some(vt_color_spec(other, p.term_bg, p.ansi@)),
        },
    )
}

/// The style a cell is painted with: a selected cell takes the selection
/// background, and an inverse cell swaps foreground and background (a
/// transparent background becoming the terminal background).
pub open spec fn cell_style_spec(c: ScreenCell, selected: bool, p: ScreenPalette) -> CellStyle {
    let (fg, bg0) = cell_colors_spec(c, p);
    let bg = if selected {
        Some(p.selection_bg)
    } else {
        bg0
    };
    if c.inverse {
        CellStyle {
            fg: match bg {
                Some(b) => b,
                None => p.term_bg,
            },
            bg: Some(fg),
            bold: c.bold,
            underline: c.underline,
        }
    } else {
        CellStyle { fg, bg, bold: c.bold, underline: c.underline }
    }
}

/// The colours of a cell.
pub fn cell_colors(c: &ScreenCell, p: &ScreenPalette) -> (r: (Rgb, Option<Rgb>))
    ensures
        r == cell_colors_spec(*c, *p),
{
    let fg = vt_color(c.fg, p.term_fg, &p.ansi);
    let bg = match c.bg {
        VtColor::Default => None,
        other => Some(vt_color(other, p.term_bg, &p.ansi)),
    };
    (fg, bg)
}

/// The style of a cell, selected or not.
pub fn cell_style(c: &ScreenCell, selected: bool, p: &ScreenPalette) -> (s: CellStyle)
    ensures
        s == cell_style_spec(*c, selected, *p),
{
    let (fg, bg0) = cell_colors(c, p);
    let bg = if selected {
        Some(p.selection_bg)
    } else {
        bg0
    };
    if c.inverse {
        let inv_fg = match bg {
            Some(b) => b,
            None => p.term_bg,
        };
        CellStyle { fg: inv_fg, bg: Some(fg), bold: c.bold, underline: c.underline }
    } else {
        CellStyle { fg, bg, bold: c.bold, underline: c.underline }
    }
}

/// The styles of the cells of screen row `row`, with `selection` applied.
pub fn row_styles(row: i32, cells: &Vec<ScreenCell>, selection: &Selection, p: &ScreenPalette) -> (s: Vec<CellStyle>)
    requires
        cells.len() <= i32::MAX,
    ensures
        s.len() == cells.len(),
        forall|i: int|
            0 <= i < cells.len() ==> #[trigger] s@[i] == cell_style_spec(
                cells@[i],
                contains_spec(*selection, row as int, i),
                *p,
            ),
{
    let mut s: Vec<CellStyle> = Vec::new();
    let mut i: usize = 0;
    while i < cells.len()
        invariant
            i <= cells.len() <= i32::MAX,
            s.len() == i,
            forall|k: int|
                0 <= k < i ==> #[trigger] s@[k] == cell_style_spec(
                    cells@[k],
                    contains_spec(*selection, row as int, k),
                    *p,
                ),
        decreases cells.len() - i,
    {
        let selected = selection.contains(row, i as i32);
        s.push(cell_style(&cells[i], selected, p));
        i += 1;
    }
    s
}


/// A run of cells painted with one call: the column it starts at, how many
/// cells it covers, its text and style, and whether it is one wide glyph.
pub struct Run {
    pub start: u16,
    pub cells: u16,
    pub text: String,
    pub style: CellStyle,
    pub wide: bool,
}

/// A run as plain values.
pub struct RunView {
    pub start: nat,
    pub cells: nat,
    pub text: Seq<char>,
    pub style: CellStyle,
    pub wide: bool,
}

impl View for Run {
    type V = RunView;

    open spec fn view(&self) -> RunView {
        RunView {
            start: self.start as nat,
            cells: self.cells as nat,
            text: self.text@,
            style: self.style,
            wide: self.wide,
        }
    }
}

/// What a cell puts on the screen: its contents, or a space when blank.
pub open spec fn shown(c: ScreenCell) -> Seq<char> {
    if c.contents@.len() == 0 {
        seq![' ']
    } else {
        c.contents@
    }
}

/// The runs of the first `n` cells of a row, each cell styled by `styles`.
/// A wide cell's right half is skipped; a wide glyph is a run of its own,
/// two cells wide; any other cell extends the last run when that run is
/// not a wide glyph and has the cell's style, and else starts a new run.
pub open spec fn runs_upto(cells: Seq<ScreenCell>, styles: Seq<CellStyle>, n: int) -> Seq<RunView>
    decreases n,
{
    if n <= 0 {
        Seq::empty()
    } else {
        let prev = runs_upto(cells, styles, n - 1);
        let c = cells[n - 1];
        let st = styles[n - 1];
        if c.wide_continuation {
            prev
        } else if c.wide {
            prev.push(RunView { start: (n - 1) as nat, cells: 2, text: shown(c), style: st, wide: true })
        } else if prev.len() > 0 && !prev.last().wide && prev.last().style == st {
            let last = prev.last();
            prev.update(
                prev.len() - 1,
                RunView {
                    start: last.start,
                    cells: last.cells + 1,
                    text: last.text + shown(c),
                    style: last.style,
                    wide: false,
                },
            )
        } else {
            prev.push(RunView { start: (n - 1) as nat, cells: 1, text: shown(c), style: st, wide: false })
        }
    }
}

/// The runs a whole row is painted with.
pub open spec fn row_runs_spec(cells: Seq<ScreenCell>, styles: Seq<CellStyle>) -> Seq<RunView> {
    runs_upto(cells, styles, cells.len() as int)
}

fn shown_text(c: &ScreenCell) -> (t: String)
    ensures
        t@ == shown(*c),
{
    if c.contents.as_str().is_empty() {
        let mut t = String::new();
        t.push(' ');
        assert(t@ =~= seq![' ']);
        t
    } else {
        c.contents.clone()
    }
}

/// Group the cells of a row, styled by `styles`, into the runs they are
/// painted with.
pub fn row_runs(cells: &Vec<ScreenCell>, styles: &Vec<CellStyle>) -> (runs: Vec<Run>)
    requires
        styles.len() == cells.len(),
        cells.len() <= u16::MAX,
    ensures
        runs@.map_values(|r: Run| r@) == row_runs_spec(cells@, styles@),
{
    let mut runs: Vec<Run> = Vec::new();
    let mut col: usize = 0;
    while col < cells.len()
        invariant
            col <= cells.len() <= u16::MAX,
            styles.len() == cells.len(),
            runs@.map_values(|r: Run| r@) == runs_upto(cells@, styles@, col as int),
            forall|k: int|
                0 <= k < runs.len() ==> (#[trigger] runs@[k]).wide || runs@[k].cells <= col,
        decreases cells.len() - col,
    {
        let ghost before = runs@.map_values(|r: Run| r@);
        let c = &cells[col];
        let st = styles[col];
        if c.wide_continuation {
        } else if c.wide {
            let text = shown_text(c);
            runs.push(Run { start: col as u16, cells: 2, text, style: st, wide: true });
            assert(runs@.map_values(|r: Run| r@) =~= before.push(
                RunView { start: col as nat, cells: 2, text: shown(*c), style: st, wide: true },
            ));
        } else {
            let n = runs.len();
            if n > 0 && !runs[n - 1].wide && runs[n - 1].style == st {
                let mut last = runs.pop().unwrap();
                assert(last@ == before.last());
                let more = shown_text(c);
                push_str_chars(&mut last.text, more.as_str());
                last.cells = last.cells + 1;
                runs.push(last);
                assert(runs@.map_values(|r: Run| r@) =~= before.update(
                    before.len() - 1,
                    RunView {
                        start: before.last().start,
                        cells: before.last().cells + 1,
                        text: before.last().text + shown(*c),
                        style: before.last().style,
                        wide: false,
                    },
                ));
            } else {
                let text = shown_text(c);
                runs.push(Run { start: col as u16, cells: 1, text, style: st, wide: false });
                assert(runs@.map_values(|r: Run| r@) =~= before.push(
                    RunView { start: col as nat, cells: 1, text: shown(*c), style: st, wide: false },
                ));
            }
        }
        col += 1;
    }
    runs
}


/// The texts of `runs`, one after another.
pub open spec fn runs_text(runs: Seq<RunView>) -> Seq<char>
    decreases runs.len(),
{
    if runs.len() == 0 {
        Seq::empty()
    } else {
        runs_text(runs.drop_last()) + runs.last().text
    }
}

/// What the first `n` cells of a row show, right halves of wide glyphs
/// left out.
pub open spec fn shown_upto(cells: Seq<ScreenCell>, n: int) -> Seq<char>
    decreases n,
{
    if n <= 0 {
        Seq::empty()
    } else {
        shown_upto(cells, n - 1) + if cells[n - 1].wide_continuation {
            Seq::empty()
        } else {
            shown(cells[n - 1])
        }
    }
}

/// Two neighbouring runs that are not wide glyphs never share a style.
pub open spec fn runs_maximal(runs: Seq<RunView>) -> bool {
    forall|i: int|
        0 <= i < runs.len() - 1 && !(#[trigger] runs[i]).wide && !runs[i + 1].wide ==> runs[i].style
            != runs[i + 1].style
}

proof fn lemma_runs_upto(cells: Seq<ScreenCell>, styles: Seq<CellStyle>, n: int)
    requires
        0 <= n <= cells.len(),
        styles.len() == cells.len(),
    ensures
        runs_text(runs_upto(cells, styles, n)) == shown_upto(cells, n),
        runs_maximal(runs_upto(cells, styles, n)),
    decreases n,
{
    if n > 0 {
        lemma_runs_upto(cells, styles, n - 1);
        let prev = runs_upto(cells, styles, n - 1);
        let cur = runs_upto(cells, styles, n);
        let c = cells[n - 1];
        if c.wide_continuation {
            assert(shown_upto(cells, n) =~= shown_upto(cells, n - 1));
        } else if c.wide {
            assert(cur.drop_last() =~= prev);
        } else if prev.len() > 0 && !prev.last().wide && prev.last().style == styles[n - 1] {
            assert(cur.drop_last() =~= prev.drop_last());
            assert(runs_text(prev) == runs_text(prev.drop_last()) + prev.last().text);
            assert(runs_text(cur) =~= runs_text(prev) + shown(c));
            assert forall|i: int|
                0 <= i < cur.len() - 1 && !(#[trigger] cur[i]).wide && !cur[i + 1].wide implies cur[i].style
                != cur[i + 1].style by {
                assert(cur[i] == prev[i]);
                assert(cur[i + 1].style == prev[i + 1].style);
                assert(!prev[i + 1].wide);
            }
        } else {
            assert(cur.drop_last() =~= prev);
            assert forall|i: int|
                0 <= i < cur.len() - 1 && !(#[trigger] cur[i]).wide && !cur[i + 1].wide implies cur[i].style
                != cur[i + 1].style by {
                if i < prev.len() - 1 {
                    assert(cur[i] == prev[i] && cur[i + 1] == prev[i + 1]);
                } else {
                    assert(cur[i] == prev.last());
                }
            }
        }
    }
}

/// Painting a row by runs shows exactly what its cells show: the runs'
/// texts, one after another, are the cells' texts with the right halves
/// of wide glyphs left out.
pub proof fn lemma_runs_keep_text(cells: Seq<ScreenCell>, styles: Seq<CellStyle>)
    requires
        styles.len() == cells.len(),
    ensures
        runs_text(row_runs_spec(cells, styles)) == shown_upto(cells, cells.len() as int),
{
    lemma_runs_upto(cells, styles, cells.len() as int);
}

/// The runs of a row are as long as they can be: two neighbouring runs
/// that are not wide glyphs have different styles.
pub proof fn lemma_runs_are_maximal(cells: Seq<ScreenCell>, styles: Seq<CellStyle>)
    requires
        styles.len() == cells.len(),
    ensures
        runs_maximal(row_runs_spec(cells, styles)),
{
    lemma_runs_upto(cells, styles, cells.len() as int);
}


/// A token the row underlines as a web link.
pub open spec fn is_web_link(t: Seq<char>) -> bool {
    starts_with(t, "http://"@) || starts_with(t, "https://"@)
}

/// The underlines of the first `k` tokens: start column and width of each
/// web link among them.
pub open spec fn underlines_upto(toks: Seq<(usize, Seq<char>)>, k: int) -> Seq<(usize, usize)>
    decreases k,
{
    if k <= 0 {
        Seq::empty()
    } else {
        let prev = underlines_upto(toks, k - 1);
        let t = toks[k - 1];
        if is_web_link(t.1) {
            prev.push((t.0, str_width(t.1)))
        } else {
            prev
        }
    }
}

/// The web links a row's text underlines: the start column and display
/// width of each whitespace-separated token that begins with `http://` or
/// `https://`, in order.
pub open spec fn link_underlines_spec(text: Seq<char>) -> Seq<(usize, usize)> {
    underlines_upto(tokenize_spec(text), tokenize_spec(text).len() as int)
}

/// Where a row's web links are underlined.
pub fn link_underlines(text: &str) -> (r: Vec<(usize, usize)>)
    ensures
        r@ == link_underlines_spec(text@),
{
    let toks = tokenize(text);
    let ghost tv = tokenize_spec(text@);
    let mut r: Vec<(usize, usize)> = Vec::new();
    let mut k: usize = 0;
    while k < toks.len()
        invariant
            k <= toks.len(),
            token_views(toks@) == tv,
            tv == tokenize_spec(text@),
            r@ == underlines_upto(tv, k as int),
        decreases toks.len() - k,
    {
        let (start, tok) = (toks[k].0, &toks[k].1);
        assert(tv[k as int] == (start, tok@));
        let v = chars_of(tok.as_str());
        if has_prefix(&v, "http://") || has_prefix(&v, "https://") {
            r.push((start, display_width(tok.as_str())));
        }
        k += 1;
    }
    r
}

/// The search matches drawn on the view `scrollback` rows above the live
/// screen, among the first `k`: row, column, length, and whether it is the
/// active match.
pub open spec fn highlights_upto(ms: Seq<Match>, scrollback: usize, active: usize, k: int) -> Seq<(u16, u16, u16, bool)>
    decreases k,
{
    if k <= 0 {
        Seq::empty()
    } else {
        let prev = highlights_upto(ms, scrollback, active, k - 1);
        let m = ms[k - 1];
        if m.scrollback == scrollback {
            prev.push((m.row, m.col, m.len, k - 1 == active))
        } else {
            prev
        }
    }
}

/// The search highlights of the view shown, in match order.
pub fn visible_highlights(matches: &Vec<Match>, scrollback: usize, active: usize) -> (r: Vec<(u16, u16, u16, bool)>)
    ensures
        r@ == highlights_upto(matches@, scrollback, active, matches.len() as int),
{
    let mut r: Vec<(u16, u16, u16, bool)> = Vec::new();
    let mut i: usize = 0;
    while i < matches.len()
        invariant
            i <= matches.len(),
            r@ == highlights_upto(matches@, scrollback, active, i as int),
        decreases matches.len() - i,
    {
        let m = &matches[i];
        if m.scrollback == scrollback {
            r.push((m.row, m.col, m.len, i == active));
        }
        i += 1;
    }
    r
}

/// The cursor box: drawn only on the live screen of a connected session
/// when the program has not hidden the cursor, two cells wide over a wide
/// glyph and one cell otherwise.
pub fn cursor_cells(scrollback: usize, hidden: bool, connected: bool, on_wide: bool) -> (r: Option<u16>)
    ensures
        r == if scrollback == 0 && !hidden && connected {
            Some(if on_wide {
                2u16
            } else {
                1u16
            })
        } else {
            None::<u16>
        },
{
    if scrollback == 0 && !hidden && connected {
        Some(if on_wide {
            2
        } else {
            1
        })
    } else {
        None
    }
}

/// The character a cell stands for when brackets are matched: its first
/// character, or a space when blank.
pub fn grid_char(contents: &str) -> (c: char)
    ensures
        c == if contents@.len() == 0 {
            ' '
        } else {
            contents@[0]
        },
{
    let v = chars_of(contents);
    if v.len() == 0 {
        ' '
    } else {
        v[0]
    }
}


/// A row as the emulator lays it out: a cell is the right half of a wide
/// glyph exactly when the cell before it holds one, and no cell is both.
pub open spec fn row_well_formed(cells: Seq<ScreenCell>) -> bool {
    forall|i: int|
        0 <= i < cells.len() ==> {
            &&& !((#[trigger] cells[i]).wide && cells[i].wide_continuation)
            &&& cells[i].wide_continuation == (i > 0 && cells[i - 1].wide)
        }
}

/// The runs cover columns `0..end` one after another, without gap or
/// overlap.
pub open spec fn runs_tile(runs: Seq<RunView>, end: int) -> bool {
    &&& runs.len() == 0 ==> end == 0
    &&& runs.len() > 0 ==> runs[0].start == 0 && runs.last().start + runs.last().cells == end
    &&& forall|i: int| 0 <= i < runs.len() - 1 ==> #[trigger] runs[i].start + runs[i].cells == runs[i + 1].start
}

/// Where the runs of the first `n` cells end: one column further when the
/// last of them is a wide glyph, whose right half comes next.
pub open spec fn runs_end(cells: Seq<ScreenCell>, n: int) -> int {
    if n > 0 && cells[n - 1].wide {
        n + 1
    } else {
        n
    }
}

proof fn lemma_runs_tile_upto(cells: Seq<ScreenCell>, styles: Seq<CellStyle>, n: int)
    requires
        0 <= n <= cells.len(),
        styles.len() == cells.len(),
        row_well_formed(cells),
    ensures
        runs_tile(runs_upto(cells, styles, n), runs_end(cells, n)),
    decreases n,
{
    if n > 0 {
        lemma_runs_tile_upto(cells, styles, n - 1);
        let prev = runs_upto(cells, styles, n - 1);
        let cur = runs_upto(cells, styles, n);
        let c = cells[n - 1];
        assert(!(c.wide && c.wide_continuation));
        assert(c.wide_continuation == (n - 1 > 0 && cells[n - 2].wide));
        if c.wide_continuation {
        } else if c.wide {
            assert(forall|i: int| 0 <= i < prev.len() ==> cur[i] == prev[i]);
        } else if prev.len() > 0 && !prev.last().wide && prev.last().style == styles[n - 1] {
            assert(forall|i: int| 0 <= i < prev.len() - 1 ==> cur[i] == prev[i]);
        } else {
            assert(forall|i: int| 0 <= i < prev.len() ==> cur[i] == prev[i]);
        }
    }
}

/// A row's runs never drift from the grid: on a well-formed row they cover
/// its columns one after another from the first, without gap or overlap,
/// ending at the row's width (one column beyond it when the last cell holds
/// a wide glyph).
pub proof fn lemma_runs_tile_row(cells: Seq<ScreenCell>, styles: Seq<CellStyle>)
    requires
        styles.len() == cells.len(),
        row_well_formed(cells),
    ensures
        runs_tile(row_runs_spec(cells, styles), runs_end(cells, cells.len() as int)),
{
    lemma_runs_tile_upto(cells, styles, cells.len() as int);
}

} // verus!
