//! Terminal grid selection model, shared by CLI and GUI. Rows/cols are
//! 0-based grid coordinates; the model is independent of any renderer.

use vstd::prelude::*;
use crate::text::{trim_end, trim_end_index, chars_of, string_from_chars};
use crate::text::{display_width, char_cells, cell_of};

verus! {

#[derive(Debug, Clone, Copy, PartialEq, Eq, Structural)]
pub struct CellPos {
    pub row: i32,
    pub col: i32,
}

#[derive(Debug, Clone, Copy, PartialEq, Eq, Structural)]
pub struct Selection {
    pub anchor: Option<CellPos>,
    pub head: Option<CellPos>,
}

impl Default for Selection {
    fn default() -> (s: Self)
        ensures
            s.anchor is None && s.head is None,
    {
        Selection { anchor: None, head: None }
    }
}

/// Reading order on cells: row first, then column.
pub open spec fn pos_le(a: CellPos, b: CellPos) -> bool {
    a.row < b.row || (a.row == b.row && a.col <= b.col)
}

/// Reading order between a cell and a coordinate pair.
pub open spec fn cell_le(ar: int, ac: int, br: int, bc: int) -> bool {
    ar < br || (ar == br && ac <= bc)
}

/// Start and end of a selection in reading order; `None` when there is no
/// anchor or head, or they coincide.
pub open spec fn normalized_spec(s: Selection) -> Option<(CellPos, CellPos)> {
    match (s.anchor, s.head) {
        (Some(a), Some(h)) => if a == h {
            None
        } else if pos_le(a, h) {
            Some((a, h))
        } else {
            Some((h, a))
        },
        _ => None,
    }
}

/// A selection is active when it has an anchor and a head that differ.
pub open spec fn is_active_spec(s: Selection) -> bool {
    match (s.anchor, s.head) {
        (Some(a), Some(h)) => a != h,
        _ => false,
    }
}

/// Whether a cell falls inside the selection (linear reading order).
pub open spec fn contains_spec(s: Selection, row: int, col: int) -> bool {
    match normalized_spec(s) {
        Some((a, b)) => cell_le(a.row as int, a.col as int, row, col) && cell_le(
            row,
            col,
            b.row as int,
            b.col as int,
        ),
        None => false,
    }
}

/// Lines joined with `\n`.
pub open spec fn join_lines(ls: Seq<Seq<char>>) -> Seq<char>
    decreases ls.len(),
{
    if ls.len() == 0 {
        Seq::empty()
    } else if ls.len() == 1 {
        ls[0]
    } else {
        join_lines(ls.drop_last()) + seq!['\n'] + ls.last()
    }
}

/// The first cell character `k` covers; a zero-width character belongs to
/// the cell before it.
pub open spec fn first_cell(chars: Seq<char>, k: int) -> int {
    let c = cell_of(chars, k) as int;
    if char_cells(chars[k]) == 0 && c > 0 {
        c - 1
    } else {
        c
    }
}

/// The last cell character `k` covers: a wide character covers two.
pub open spec fn last_cell(chars: Seq<char>, k: int) -> int {
    if char_cells(chars[k]) == 0 {
        first_cell(chars, k)
    } else {
        cell_of(chars, k) + char_cells(chars[k]) - 1
    }
}

/// A selection covering cells `from` through `to` (`None`: to the end of
/// the row) takes character `k` when it touches any cell of it.
pub open spec fn picked(chars: Seq<char>, k: int, from: int, to: Option<int>) -> bool {
    last_cell(chars, k) >= from && match to {
        Some(t) => first_cell(chars, k) <= t,
        None => true,
    }
}

/// The characters among the first `n` of a row that the selection takes.
pub open spec fn picked_upto(chars: Seq<char>, n: int, from: int, to: Option<int>) -> Seq<char>
    decreases n,
{
    if n <= 0 {
        Seq::empty()
    } else {
        picked_upto(chars, n - 1, from, to) + if picked(chars, n - 1, from, to) {
            seq![chars[n - 1]]
        } else {
            Seq::empty()
        }
    }
}

/// The part of row `row`'s text (`chars`) covered by a selection from `s`
/// to `e`, with trailing white space trimmed. Columns are display cells: a
/// wide character is taken when either of its cells is selected.
pub open spec fn row_slice(chars: Seq<char>, row: int, s: CellPos, e: CellPos) -> Seq<char> {
    let from = if row == s.row {
        if s.col < 0 { 0 } else { s.col as int }
    } else {
        0
    };
    let to = if row == e.row {
        Some(e.col as int)
    } else {
        None
    };
    trim_end(picked_upto(chars, chars.len() as int, from, to))
}

/// The characters of a row that a selection covering cells `from` through
/// `to` (`None`: to the end of the row) takes.
fn row_cut(chars: &Vec<char>, from: i32, to: Option<i32>) -> (r: Vec<char>)
    ensures
        r@ == picked_upto(
            chars@,
            chars@.len() as int,
            from as int,
            match to {
                Some(t) => Some(t as int),
                None => None,
            },
        ),
{
    let ghost tv = match to {
        Some(t) => Some(t as int),
        None => None,
    };
    let mut r: Vec<char> = Vec::new();
    let mut col: usize = 0;
    let mut k: usize = 0;
    while k < chars.len()
        invariant
            k <= chars.len(),
            col == cell_of(chars@, k as int),
            tv == match to {
                Some(t) => Some(t as int),
                None => None::<int>,
            },
            r@ == picked_upto(chars@, k as int, from as int, tv),
        decreases chars.len() - k,
    {
        let c = chars[k];
        let mut one = String::new();
        one.push(c);
        assert(one@ =~= seq![c]);
        let w = display_width(one.as_str());
        let first: i128 = if w == 0 && col > 0 {
            col as i128 - 1
        } else {
            col as i128
        };
        let last: i128 = if w == 0 {
            first
        } else {
            col as i128 + w as i128 - 1
        };
        let take = last >= from as i128 && match to {
            Some(t) => first <= t as i128,
            None => true,
        };
        assert(take == picked(chars@, k as int, from as int, tv));
        if take {
            r.push(c);
        }
        col = col.saturating_add(w);
        k += 1;
    }
    r
}

/// The selected text, given the text of each selected row (`texts[i]` is
/// the text of row `s.row + i`).
pub open spec fn extract_spec(texts: Seq<Seq<char>>, s: CellPos, e: CellPos) -> Seq<char> {
    join_lines(Seq::new(texts.len(), |i: int| row_slice(texts[i], s.row + i, s, e)))
}

/// `texts[i]` is something `row_text` may return for row `start + i`.
pub open spec fn texts_from<F: Fn(i32) -> String>(row_text: F, start: int, texts: Seq<String>) -> bool {
    forall|i: int|
        0 <= i < texts.len() ==> call_ensures(row_text, ((start + i) as i32,), #[trigger] texts[i])
}

/// The characters of each string.
pub open spec fn chars_of_all(texts: Seq<String>) -> Seq<Seq<char>> {
    Seq::new(texts.len(), |i: int| texts[i]@)
}

impl Selection {
    pub fn start(&mut self, pos: CellPos)
        ensures
            final(self).anchor == Some(pos),
            final(self).head == Some(pos),
    {
        self.anchor = Some(pos);
        self.head = Some(pos);
    }

    pub fn drag(&mut self, pos: CellPos)
        ensures
            final(self).anchor == old(self).anchor,
            final(self).head == if old(self).anchor is Some {
                Some(pos)
            } else {
                old(self).head
            },
    {
        if self.anchor.is_some() {
            self.head = Some(pos);
        }
    }

    pub fn clear(&mut self)
        ensures
            final(self).anchor is None,
            final(self).head is None,
    {
        self.anchor = None;
        self.head = None;
    }

    pub fn is_active(&self) -> (b: bool)
        ensures
            b == is_active_spec(*self),
    {
        match (self.anchor, self.head) {
            (Some(a), Some(h)) => a != h,
            _ => false,
        }
    }

    /// Normalized (start, end) in reading order, inclusive.
    pub fn normalized(&self) -> (r: Option<(CellPos, CellPos)>)
        ensures
            r == normalized_spec(*self),
    {
        let a = match self.anchor {
            Some(a) => a,
            None => {
                return None;
            },
        };
        let h = match self.head {
            Some(h) => h,
            None => {
                return None;
            },
        };
        if a == h {
            return None;
        }
        if a.row < h.row || (a.row == h.row && a.col <= h.col) {
            Some((a, h))
        } else {
            Some((h, a))
        }
    }

    /// Whether a cell falls inside the selection (linear reading order).
    pub fn contains(&self, row: i32, col: i32) -> (b: bool)
        ensures
            b == contains_spec(*self, row as int, col as int),
    {
        match self.normalized() {
            Some((s, e)) => (s.row < row || (s.row == row && s.col <= col)) && (row < e.row || (row
                == e.row && col <= e.col)),
            None => false,
        }
    }

    /// Extract selected text given a row-text lookup. Trailing whitespace per
    /// row is trimmed; rows are joined with `\n`.
    pub fn extract_text<F: Fn(i32) -> String>(&self, row_text: F) -> (text: String)
        requires
            forall|r: i32| call_requires(row_text, (r,)),
        ensures
            match normalized_spec(*self) {
                None => text@ == Seq::<char>::empty(),
                Some((s, e)) => exists|texts: Seq<String>|
                    texts.len() == e.row - s.row + 1 && texts_from(row_text, s.row as int, texts)
                        && text@ == extract_spec(chars_of_all(texts), s, e),
            },
    {
        let (s, e) = match self.normalized() {
            Some(p) => p,
            None => {
                return String::new();
            },
        };
        let mut out: Vec<char> = Vec::new();
        let mut row: i32 = s.row;
        let ghost mut texts: Seq<String> = Seq::empty();
        let ghost mut lines: Seq<Seq<char>> = Seq::empty();
        loop
            invariant_except_break
                s.row <= row <= e.row,
                texts.len() == row - s.row,
            invariant
                pos_le(s, e),
                lines.len() == texts.len(),
                texts_from(row_text, s.row as int, texts),
                forall|i: int| 0 <= i < texts.len() ==> #[trigger] lines[i] == row_slice(texts[i]@, s.row + i, s, e),
                forall|r: i32| call_requires(row_text, (r,)),
                out@ == join_lines(lines),
            ensures
                texts.len() == e.row - s.row + 1,
            decreases e.row - row,
        {
            let text = row_text(row);
            let chars = chars_of(text.as_str());
            let from: i32 = if row == s.row {
                if s.col < 0 { 0 } else { s.col }
            } else {
                0
            };
            let to: Option<i32> = if row == e.row {
                Some(e.col)
            } else {
                None
            };
            let cut = row_cut(&chars, from, to);
            let end = trim_end_index(&cut, 0, cut.len());
            if row != s.row {
                out.push('\n');
            }
            let mut k: usize = 0;
            let ghost before = out@;
            while k < end
                invariant
                    k <= end <= cut.len(),
                    out@ == before + cut@.subrange(0, k as int),
                decreases end - k,
            {
                out.push(cut[k]);
                k += 1;
                assert(out@ =~= before + cut@.subrange(0, k as int));
            }
            proof {
                let ghost line = row_slice(text@, row as int, s, e);
                assert(chars@ == text@);
                assert(cut@.subrange(0, cut@.len() as int) =~= cut@);
                assert(cut@.subrange(0, end as int) == line);
                let old_lines = lines;
                let old_texts = texts;
                texts = texts.push(text);
                lines = lines.push(line);
                assert forall|i: int| 0 <= i < texts.len() implies call_ensures(row_text, ((s.row + i) as i32,), #[trigger] texts[i]) by {
                    if i < old_texts.len() {
                        assert(texts[i] == old_texts[i]);
                    } else {
                        assert(((s.row + i) as i32) == row);
                    }
                }
                assert forall|i: int| 0 <= i < texts.len() implies #[trigger] lines[i] == row_slice(texts[i]@, s.row + i, s, e) by {
                    if i < old_texts.len() {
                        assert(texts[i] == old_texts[i]);
                        assert(lines[i] == old_lines[i]);
                    }
                }
                if old_lines.len() == 0 {
                    assert(lines =~= seq![line]);
                } else {
                    assert(lines.drop_last() =~= old_lines);
                }
            }
            if row >= e.row {
                break;
            }
            row = row + 1;
        }
        proof {
            assert(Seq::new(chars_of_all(texts).len(), |i: int| row_slice(chars_of_all(texts)[i], s.row + i, s, e)) =~= lines);
        }
        string_from_chars(&out, 0, out.len())
    }
}

/// **Activity is having a range.** A selection is active exactly when it
/// has a normalized range.
pub proof fn lemma_active_iff_range(s: Selection)
    ensures
        is_active_spec(s) <==> normalized_spec(s) is Some,
{
}

/// **Range order.** A normalized range starts no later than it ends, and
/// both ends lie inside the selection.
pub proof fn lemma_range_ordered(s: Selection)
    ensures
        normalized_spec(s) matches Some((a, b)) ==> pos_le(a, b) && contains_spec(
            s,
            a.row as int,
            a.col as int,
        ) && contains_spec(s, b.row as int, b.col as int),
{
}

/// **Starting a selection selects nothing.** After `start`, the selection
/// is inactive and contains no cell, until a drag moves the head.
pub proof fn lemma_start_is_empty(pos: CellPos, row: int, col: int)
    ensures
        !is_active_spec(Selection { anchor: Some(pos), head: Some(pos) }),
        !contains_spec(Selection { anchor: Some(pos), head: Some(pos) }, row, col),
{
}

/// **Direction does not matter.** Dragging from `a` to `b` selects the same
/// cells as dragging from `b` to `a`.
pub proof fn lemma_selection_symmetric(a: CellPos, b: CellPos, row: int, col: int)
    ensures
        contains_spec(Selection { anchor: Some(a), head: Some(b) }, row, col) == contains_spec(
            Selection { anchor: Some(b), head: Some(a) },
            row,
            col,
        ),
        normalized_spec(Selection { anchor: Some(a), head: Some(b) }) == normalized_spec(
            Selection { anchor: Some(b), head: Some(a) },
        ),
{
}


/// Where a selection starts, in reading order.
pub open spec fn sel_start(sel: Selection) -> CellPos {
    match normalized_spec(sel) {
        Some((a, _)) => a,
        None => CellPos { row: 0, col: 0 },
    }
}

/// Where a selection ends, in reading order.
pub open spec fn sel_end(sel: Selection) -> CellPos {
    match normalized_spec(sel) {
        Some((_, b)) => b,
        None => CellPos { row: 0, col: 0 },
    }
}

/// The selection touches character `k` of row `row`: some cell the
/// character covers is one that `contains_spec` reports.
pub open spec fn touched(chars: Seq<char>, k: int, sel: Selection, row: int) -> bool {
    exists|c: int| first_cell(chars, k) <= c <= last_cell(chars, k) && #[trigger] contains_spec(sel, row, c)
}

/// The characters among the first `n` of row `row` that the selection
/// touches, in order.
pub open spec fn touched_upto(chars: Seq<char>, n: int, sel: Selection, row: int) -> Seq<char>
    decreases n,
{
    if n <= 0 {
        Seq::empty()
    } else {
        touched_upto(chars, n - 1, sel, row) + if touched(chars, n - 1, sel, row) {
            seq![chars[n - 1]]
        } else {
            Seq::empty()
        }
    }
}

proof fn lemma_cells_ordered(chars: Seq<char>, k: int)
    requires
        0 <= k < chars.len(),
    ensures
        0 <= first_cell(chars, k) <= last_cell(chars, k),
{
}

proof fn lemma_touched_iff_picked(chars: Seq<char>, k: int, sel: Selection, row: int)
    requires
        0 <= k < chars.len(),
        normalized_spec(sel) is Some,
        sel_start(sel).row <= row <= sel_end(sel).row,
    ensures
        ({
            let (s, e) = (sel_start(sel), sel_end(sel));
            let from = if row == s.row {
                if s.col < 0 { 0 } else { s.col as int }
            } else {
                0
            };
            let to = if row == e.row {
                Some(e.col as int)
            } else {
                None
            };
            touched(chars, k, sel, row) <==> picked(chars, k, from, to)
        }),
{
    let (s, e) = (sel_start(sel), sel_end(sel));
    let from = if row == s.row {
        if s.col < 0 { 0 } else { s.col as int }
    } else {
        0
    };
    let to = if row == e.row {
        Some(e.col as int)
    } else {
        None::<int>
    };
    lemma_cells_ordered(chars, k);
    let first = first_cell(chars, k);
    let last = last_cell(chars, k);
    if picked(chars, k, from, to) {
        let c0 = if first < from { from } else { first };
        assert(contains_spec(sel, row, c0));
    }
    if touched(chars, k, sel, row) {
        let c = choose|c: int| first <= c <= last && #[trigger] contains_spec(sel, row, c);
        assert(first <= c <= last && contains_spec(sel, row, c));
    }
}

proof fn lemma_touched_upto(chars: Seq<char>, n: int, sel: Selection, row: int)
    requires
        0 <= n <= chars.len(),
        normalized_spec(sel) is Some,
        sel_start(sel).row <= row <= sel_end(sel).row,
    ensures
        ({
            let (s, e) = (sel_start(sel), sel_end(sel));
            let from = if row == s.row {
                if s.col < 0 { 0 } else { s.col as int }
            } else {
                0
            };
            let to = if row == e.row {
                Some(e.col as int)
            } else {
                None
            };
            touched_upto(chars, n, sel, row) == picked_upto(chars, n, from, to)
        }),
    decreases n,
{
    if n > 0 {
        lemma_touched_upto(chars, n - 1, sel, row);
        lemma_touched_iff_picked(chars, n - 1, sel, row);
    }
}

/// **What is copied is what is selected.** For every row of a selection,
/// the text taken from it is exactly the characters that cover a cell the
/// selection contains (`contains_spec`), in order, with trailing white space
/// trimmed; a row strictly between the first and the last is taken whole.
pub proof fn lemma_copied_cells_are_selected(chars: Seq<char>, sel: Selection, row: int)
    requires
        normalized_spec(sel) is Some,
        sel_start(sel).row <= row <= sel_end(sel).row,
    ensures
        row_slice(chars, row, sel_start(sel), sel_end(sel)) == trim_end(
            touched_upto(chars, chars.len() as int, sel, row),
        ),
        sel_start(sel).row < row < sel_end(sel).row ==> row_slice(
            chars,
            row,
            sel_start(sel),
            sel_end(sel),
        ) == trim_end(chars),
{
    lemma_touched_upto(chars, chars.len() as int, sel, row);
    let (s, e) = (sel_start(sel), sel_end(sel));
    if s.row < row < e.row {
        lemma_whole_row(chars, chars.len() as int);
        assert(chars.take(chars.len() as int) =~= chars);
    }
}

proof fn lemma_whole_row(chars: Seq<char>, n: int)
    requires
        0 <= n <= chars.len(),
    ensures
        picked_upto(chars, n, 0, None) == chars.take(n),
    decreases n,
{
    if n > 0 {
        lemma_whole_row(chars, n - 1);
        lemma_cells_ordered(chars, n - 1);
        assert(chars.take(n) =~= chars.take(n - 1).push(chars[n - 1]));
    } else {
        assert(chars.take(0) =~= Seq::<char>::empty());
    }
}

/// **The selected text is the selected cells.** The text a selection copies
/// (`extract_spec`, given the text of each of its rows) is the characters of
/// each row that cover a cell the selection contains, trailing white space
/// trimmed, the rows joined by newlines.
pub proof fn lemma_extract_is_selected_cells(texts: Seq<Seq<char>>, sel: Selection)
    requires
        normalized_spec(sel) is Some,
        texts.len() == sel_end(sel).row - sel_start(sel).row + 1,
    ensures
        extract_spec(texts, sel_start(sel), sel_end(sel)) == join_lines(
            Seq::new(
                texts.len(),
                |i: int| trim_end(touched_upto(texts[i], texts[i].len() as int, sel, sel_start(sel).row + i)),
            ),
        ),
{
    let (s, e) = (sel_start(sel), sel_end(sel));
    assert forall|i: int| 0 <= i < texts.len() implies row_slice(texts[i], s.row + i, s, e) == trim_end(
        touched_upto(texts[i], texts[i].len() as int, sel, s.row + i),
    ) by {
        lemma_copied_cells_are_selected(texts[i], sel, s.row + i);
    }
    assert(Seq::new(texts.len(), |i: int| row_slice(texts[i], s.row + i, s, e)) =~= Seq::new(
        texts.len(),
        |i: int| trim_end(touched_upto(texts[i], texts[i].len() as int, sel, s.row + i)),
    ));
}

} // verus!
