//! Bracket matching over the visible screen grid.
//!
//! Pure text logic: given the screen rows and a cursor cell, find the
//! matching bracket in linear reading order. The renderer paints both cells.

use vstd::prelude::*;

verus! {

/// The closing bracket for an opening one: `()`, `[]`, `{}`, `<>`.
pub open spec fn close_of(c: char) -> Option<char> {
    if c == '(' {
        Some(')')
    } else if c == '[' {
        Some(']')
    } else if c == '{' {
        Some('}')
    } else if c == '<' {
        Some('>')
    } else {
        None
    }
}

/// The opening bracket for a closing one.
pub open spec fn open_of(c: char) -> Option<char> {
    if c == ')' {
        Some('(')
    } else if c == ']' {
        Some('[')
    } else if c == '}' {
        Some('{')
    } else if c == '>' {
        Some('<')
    } else {
        None
    }
}

fn open_for(c: char) -> (r: Option<char>)
    ensures
        r == open_of(c),
{
    if c == ')' {
        Some('(')
    } else if c == ']' {
        Some('[')
    } else if c == '}' {
        Some('{')
    } else if c == '>' {
        Some('<')
    } else {
        None
    }
}

fn close_for(c: char) -> (r: Option<char>)
    ensures
        r == close_of(c),
{
    if c == '(' {
        Some(')')
    } else if c == '[' {
        Some(']')
    } else if c == '{' {
        Some('}')
    } else if c == '<' {
        Some('>')
    } else {
        None
    }
}

/// The cells of one row: (row, col, char).
pub open spec fn row_cells(line: Seq<char>, r: int) -> Seq<(usize, usize, char)> {
    Seq::new(line.len(), |c: int| (r as usize, c as usize, line[c]))
}

/// The cells of the first `n` rows in reading order.
pub open spec fn cells_upto(rows: Seq<Vec<char>>, n: int) -> Seq<(usize, usize, char)>
    decreases n,
{
    if n <= 0 {
        Seq::empty()
    } else {
        cells_upto(rows, n - 1) + row_cells(rows[n - 1]@, n - 1)
    }
}

/// All cells of the grid in reading order.
pub open spec fn cells(rows: Seq<Vec<char>>) -> Seq<(usize, usize, char)> {
    cells_upto(rows, rows.len() as int)
}

/// Number of cells in `cs[lo..hi]` holding `ch`.
pub open spec fn count(cs: Seq<(usize, usize, char)>, ch: char, lo: int, hi: int) -> int
    decreases hi - lo,
{
    if hi <= lo {
        0
    } else {
        count(cs, ch, lo, hi - 1) + if cs[hi - 1].2 == ch {
            1int
        } else {
            0
        }
    }
}

/// `t` closes the opening bracket at `k`: the brackets strictly between
/// them are balanced.
pub open spec fn is_fwd_match(cs: Seq<(usize, usize, char)>, k: int, open: char, close: char, t: int) -> bool {
    k < t < cs.len() && cs[t].2 == close && count(cs, open, k + 1, t) == count(cs, close, k + 1, t)
}

/// `t` opens the closing bracket at `k`: the brackets strictly between
/// them are balanced.
pub open spec fn is_bwd_match(cs: Seq<(usize, usize, char)>, k: int, open: char, close: char, t: int) -> bool {
    0 <= t < k && cs[t].2 == open && count(cs, open, t + 1, k) == count(cs, close, t + 1, k)
}

/// The first closing match after `k`.
pub open spec fn first_fwd(cs: Seq<(usize, usize, char)>, k: int, open: char, close: char) -> Option<int> {
    if exists|t: int|
        is_fwd_match(cs, k, open, close, t) && forall|u: int|
            k < u < t ==> !is_fwd_match(cs, k, open, close, u) {
        Some(
            choose|t: int|
                is_fwd_match(cs, k, open, close, t) && forall|u: int|
                    k < u < t ==> !is_fwd_match(cs, k, open, close, u),
        )
    } else {
        None
    }
}

/// The last opening match before `k`.
pub open spec fn last_bwd(cs: Seq<(usize, usize, char)>, k: int, open: char, close: char) -> Option<int> {
    if exists|t: int|
        is_bwd_match(cs, k, open, close, t) && forall|u: int|
            t < u < k ==> !is_bwd_match(cs, k, open, close, u) {
        Some(
            choose|t: int|
                is_bwd_match(cs, k, open, close, t) && forall|u: int|
                    t < u < k ==> !is_bwd_match(cs, k, open, close, u),
        )
    } else {
        None
    }
}

/// The grid fits in memory: its row count and row lengths are `usize` values.
pub open spec fn grid_fits(rows: Seq<Vec<char>>) -> bool {
    &&& rows.len() <= usize::MAX
    &&& forall|r: int| 0 <= r < rows.len() ==> #[trigger] rows[r]@.len() <= usize::MAX
}

/// Index of cell `(row, col)` in reading order.
pub open spec fn cell_index(rows: Seq<Vec<char>>, row: int, col: int) -> int {
    cells_upto(rows, row).len() + col
}

/// The cell matching the bracket at `(row, col)`, if any.
pub open spec fn match_spec(rows: Seq<Vec<char>>, row: int, col: int) -> Option<(usize, usize)> {
    if 0 <= row < rows.len() && 0 <= col < rows[row]@.len() {
        let cs = cells(rows);
        let k = cell_index(rows, row, col);
        let at = rows[row]@[col];
        match close_of(at) {
            Some(close) => match first_fwd(cs, k, at, close) {
                Some(t) => Some((cs[t].0, cs[t].1)),
                None => None,
            },
            None => match open_of(at) {
                Some(open) => match last_bwd(cs, k, open, at) {
                    Some(t) => Some((cs[t].0, cs[t].1)),
                    None => None,
                },
                None => None,
            },
        }
    } else {
        None
    }
}

// ---------------------------------------------------------------------------
// Lemmas
// ---------------------------------------------------------------------------

proof fn lemma_cells_upto_len(rows: Seq<Vec<char>>, n: int)
    requires
        0 <= n <= rows.len(),
    ensures
        cells_upto(rows, n).len() >= 0,
        forall|m: int| 0 <= m <= n ==> cells_upto(rows, m).len() <= cells_upto(rows, n).len(),
    decreases n,
{
    if n > 0 {
        lemma_cells_upto_len(rows, n - 1);
    }
}

/// The cells of rows `0..n` are a prefix of the cells of rows `0..m` for `n <= m`.
proof fn lemma_cells_prefix(rows: Seq<Vec<char>>, n: int, m: int)
    requires
        0 <= n <= m <= rows.len(),
    ensures
        cells_upto(rows, n) == cells_upto(rows, m).take(cells_upto(rows, n).len() as int),
        cells_upto(rows, n).len() <= cells_upto(rows, m).len(),
    decreases m - n,
{
    if n < m {
        lemma_cells_prefix(rows, n, m - 1);
        let a = cells_upto(rows, m - 1);
        assert(cells_upto(rows, m) == a + row_cells(rows[m - 1]@, m - 1));
        assert((a + row_cells(rows[m - 1]@, m - 1)).take(cells_upto(rows, n).len() as int) =~= a.take(
            cells_upto(rows, n).len() as int,
        ));
    } else {
        assert(cells_upto(rows, n).take(cells_upto(rows, n).len() as int) =~= cells_upto(rows, n));
    }
}

/// Cell `(row, col)` sits at `cell_index` in reading order.
proof fn lemma_cell_at(rows: Seq<Vec<char>>, row: int, col: int)
    requires
        grid_fits(rows),
        0 <= row < rows.len(),
        0 <= col < rows[row]@.len(),
    ensures
        0 <= cell_index(rows, row, col) < cells(rows).len(),
        cells(rows)[cell_index(rows, row, col)] == (row as usize, col as usize, rows[row]@[col]),
{
    lemma_cells_prefix(rows, row + 1, rows.len() as int);
    let base = cells_upto(rows, row);
    assert(cells_upto(rows, row + 1) == base + row_cells(rows[row]@, row));
    assert(cells_upto(rows, row + 1)[base.len() + col] == (row as usize, col as usize, rows[row]@[col]));
}

proof fn lemma_count_front(cs: Seq<(usize, usize, char)>, ch: char, lo: int, hi: int)
    requires
        lo < hi,
    ensures
        count(cs, ch, lo, hi) == count(cs, ch, lo + 1, hi) + if cs[lo].2 == ch {
            1int
        } else {
            0
        },
    decreases hi - lo,
{
    if lo + 1 < hi {
        lemma_count_front(cs, ch, lo, hi - 1);
        assert(count(cs, ch, lo + 1, hi) == count(cs, ch, lo + 1, hi - 1) + if cs[hi - 1].2 == ch {
            1int
        } else {
            0
        });
    } else {
        assert(count(cs, ch, lo, lo) == 0);
        assert(count(cs, ch, lo + 1, hi) == 0);
    }
}

proof fn lemma_count_split(cs: Seq<(usize, usize, char)>, ch: char, lo: int, mid: int, hi: int)
    requires
        lo <= mid <= hi,
    ensures
        count(cs, ch, lo, hi) == count(cs, ch, lo, mid) + count(cs, ch, mid, hi),
    decreases hi - mid,
{
    if mid < hi {
        lemma_count_split(cs, ch, lo, mid, hi - 1);
    }
}

/// Before the first closing match, the brackets after `k` never close more
/// than they open.
proof fn lemma_fwd_prefix_balance(cs: Seq<(usize, usize, char)>, k: int, open: char, close: char, t: int, q: int)
    requires
        open != close,
        k < t <= q < cs.len(),
        forall|u: int| k < u < q ==> !is_fwd_match(cs, k, open, close, u),
    ensures
        count(cs, open, k + 1, t) >= count(cs, close, k + 1, t),
    decreases t - k,
{
    if t > k + 1 {
        lemma_fwd_prefix_balance(cs, k, open, close, t - 1, q);
        if cs[t - 1].2 == close && count(cs, open, k + 1, t - 1) == count(cs, close, k + 1, t - 1) {
            assert(is_fwd_match(cs, k, open, close, t - 1));
        }
    }
}

/// Before the last opening match, the brackets before `k` never open more
/// than they close.
proof fn lemma_bwd_suffix_balance(cs: Seq<(usize, usize, char)>, k: int, open: char, close: char, t: int, q: int)
    requires
        open != close,
        0 <= q < t <= k <= cs.len(),
        forall|u: int| q < u < k ==> !is_bwd_match(cs, k, open, close, u),
    ensures
        count(cs, close, t, k) >= count(cs, open, t, k),
    decreases k - t,
{
    if t < k {
        lemma_bwd_suffix_balance(cs, k, open, close, t + 1, q);
        lemma_count_front(cs, open, t, k);
        lemma_count_front(cs, close, t, k);
        if cs[t].2 == open && count(cs, open, t + 1, k) == count(cs, close, t + 1, k) {
            assert(is_bwd_match(cs, k, open, close, t));
        }
    }
}

proof fn lemma_first_fwd_is(cs: Seq<(usize, usize, char)>, k: int, open: char, close: char, t: int)
    requires
        is_fwd_match(cs, k, open, close, t),
        forall|u: int| k < u < t ==> !is_fwd_match(cs, k, open, close, u),
    ensures
        first_fwd(cs, k, open, close) == Some(t),
{
    let c = choose|t2: int|
        is_fwd_match(cs, k, open, close, t2) && forall|u: int|
            k < u < t2 ==> !is_fwd_match(cs, k, open, close, u);
    if c < t {
        assert(!is_fwd_match(cs, k, open, close, c));
    }
    if t < c {
        assert(!is_fwd_match(cs, k, open, close, t));
    }
}

proof fn lemma_last_bwd_is(cs: Seq<(usize, usize, char)>, k: int, open: char, close: char, t: int)
    requires
        is_bwd_match(cs, k, open, close, t),
        forall|u: int| t < u < k ==> !is_bwd_match(cs, k, open, close, u),
    ensures
        last_bwd(cs, k, open, close) == Some(t),
{
    let c = choose|t2: int|
        is_bwd_match(cs, k, open, close, t2) && forall|u: int|
            t2 < u < k ==> !is_bwd_match(cs, k, open, close, u);
    if c < t {
        assert(!is_bwd_match(cs, k, open, close, t));
    }
    if t < c {
        assert(!is_bwd_match(cs, k, open, close, c));
    }
}

/// A closing match of `k` has `k` as its opening match, and back.
pub proof fn lemma_fwd_bwd(cs: Seq<(usize, usize, char)>, k: int, open: char, close: char, q: int)
    requires
        open != close,
        0 <= k < cs.len(),
        cs[k].2 == open,
        first_fwd(cs, k, open, close) == Some(q),
    ensures
        last_bwd(cs, q, open, close) == Some(k),
{
    let w = choose|t: int|
        is_fwd_match(cs, k, open, close, t) && forall|u: int|
            k < u < t ==> !is_fwd_match(cs, k, open, close, u);
    assert(w == q);
    assert(is_bwd_match(cs, q, open, close, k));
    assert forall|u: int| k < u < q implies !is_bwd_match(cs, q, open, close, u) by {
        if is_bwd_match(cs, q, open, close, u) {
            lemma_fwd_prefix_balance(cs, k, open, close, u, q);
            lemma_count_split(cs, open, k + 1, u, q);
            lemma_count_split(cs, close, k + 1, u, q);
            lemma_count_front(cs, open, u, q);
            lemma_count_front(cs, close, u, q);
        }
    }
    lemma_last_bwd_is(cs, q, open, close, k);
}

/// An opening match of `k` has `k` as its closing match, and back.
pub proof fn lemma_bwd_fwd(cs: Seq<(usize, usize, char)>, k: int, open: char, close: char, q: int)
    requires
        open != close,
        0 <= k < cs.len(),
        cs[k].2 == close,
        last_bwd(cs, k, open, close) == Some(q),
    ensures
        first_fwd(cs, q, open, close) == Some(k),
{
    let w = choose|t: int|
        is_bwd_match(cs, k, open, close, t) && forall|u: int|
            t < u < k ==> !is_bwd_match(cs, k, open, close, u);
    assert(w == q);
    assert(is_fwd_match(cs, q, open, close, k));
    assert forall|u: int| q < u < k implies !is_fwd_match(cs, q, open, close, u) by {
        if is_fwd_match(cs, q, open, close, u) {
            lemma_bwd_suffix_balance(cs, k, open, close, u + 1, q);
            lemma_count_split(cs, open, q + 1, u, k);
            lemma_count_split(cs, close, q + 1, u, k);
            lemma_count_front(cs, open, u, k);
            lemma_count_front(cs, close, u, k);
        }
    }
    lemma_first_fwd_is(cs, q, open, close, k);
}

/// **Matching is symmetric.** When the bracket at `(row, col)` matches the
/// cell `(r2, c2)`, the bracket there matches `(row, col)`.
pub proof fn lemma_match_symmetric(rows: Seq<Vec<char>>, row: int, col: int)
    requires
        grid_fits(rows),
    ensures
        match_spec(rows, row, col) matches Some((r2, c2)) ==> match_spec(rows, r2 as int, c2 as int)
            == Some((row as usize, col as usize)),
{
    if let Some((r2, c2)) = match_spec(rows, row, col) {
        let cs = cells(rows);
        let k = cell_index(rows, row, col);
        lemma_cell_at(rows, row, col);
        let at = rows[row]@[col];
        let t = if close_of(at) is Some {
            first_fwd(cs, k, at, close_of(at).unwrap()).unwrap()
        } else {
            last_bwd(cs, k, open_of(at).unwrap(), at).unwrap()
        };
        if close_of(at) is Some {
            let w = choose|t2: int|
                is_fwd_match(cs, k, at, close_of(at).unwrap(), t2) && forall|u: int|
                    k < u < t2 ==> !is_fwd_match(cs, k, at, close_of(at).unwrap(), u);
            assert(t == w);
        } else {
            let w = choose|t2: int|
                is_bwd_match(cs, k, open_of(at).unwrap(), at, t2) && forall|u: int|
                    t2 < u < k ==> !is_bwd_match(cs, k, open_of(at).unwrap(), at, u);
            assert(t == w);
        }
        assert(0 <= t < cs.len());
        lemma_cell_position(rows, t);
        let (rr, cc) = (cs[t].0 as int, cs[t].1 as int);
        assert(cell_index(rows, rr, cc) == t);
        lemma_cell_at(rows, rr, cc);
        if close_of(at) is Some {
            let close = close_of(at).unwrap();
            assert(rows[rr]@[cc] == close);
            lemma_fwd_bwd(cs, k, at, close, t);
        } else {
            let open = open_of(at).unwrap();
            assert(rows[rr]@[cc] == open);
            lemma_bwd_fwd(cs, k, open, at, t);
        }
    }
}

/// Every cell index holds a valid position whose index it is.
proof fn lemma_cell_position(rows: Seq<Vec<char>>, t: int)
    requires
        grid_fits(rows),
        0 <= t < cells(rows).len(),
    ensures
        0 <= cells(rows)[t].0 < rows.len(),
        0 <= cells(rows)[t].1 < rows[cells(rows)[t].0 as int]@.len(),
        cell_index(rows, cells(rows)[t].0 as int, cells(rows)[t].1 as int) == t,
        cells(rows)[t].2 == rows[cells(rows)[t].0 as int]@[cells(rows)[t].1 as int],
{
    lemma_cell_position_upto(rows, rows.len() as int, t);
}

proof fn lemma_cell_position_upto(rows: Seq<Vec<char>>, n: int, t: int)
    requires
        grid_fits(rows),
        0 <= n <= rows.len(),
        0 <= t < cells_upto(rows, n).len(),
    ensures
        0 <= cells_upto(rows, n)[t].0 < n,
        0 <= cells_upto(rows, n)[t].1 < rows[cells_upto(rows, n)[t].0 as int]@.len(),
        cells_upto(rows, cells_upto(rows, n)[t].0 as int).len() + cells_upto(rows, n)[t].1 == t,
        cells_upto(rows, n)[t].2 == rows[cells_upto(rows, n)[t].0 as int]@[cells_upto(rows, n)[t].1 as int],
        cells_upto(rows, n)[t] == cells(rows)[t],
    decreases n,
{
    if n > 0 {
        lemma_cells_prefix(rows, n, rows.len() as int);
        let prev = cells_upto(rows, n - 1);
        let line = row_cells(rows[n - 1]@, n - 1);
        assert(cells_upto(rows, n) == prev + line);
        if t < prev.len() {
            lemma_cell_position_upto(rows, n - 1, t);
            assert(cells_upto(rows, n)[t] == prev[t]);
        } else {
            let c = line[t - prev.len()];
            assert(cells_upto(rows, n)[t] == c);
            assert(c.0 == (n - 1) as usize);
            assert(c.1 == (t - prev.len()) as usize);
            assert(c.2 == rows[n - 1]@[t - prev.len()]);
        }
    }
}

// ---------------------------------------------------------------------------
// Executable search
// ---------------------------------------------------------------------------

/// All cells of the grid in reading order, with their positions.
fn reading_order_cells(rows: &[Vec<char>]) -> (out: Vec<(usize, usize, char)>)
    ensures
        out@ == cells(rows@),
{
    let mut out: Vec<(usize, usize, char)> = Vec::new();
    let mut r: usize = 0;
    while r < rows.len()
        invariant
            r <= rows.len(),
            out@ == cells_upto(rows@, r as int),
        decreases rows.len() - r,
    {
        let line = &rows[r];
        let ghost before = out@;
        let mut c: usize = 0;
        while c < line.len()
            invariant
                c <= line.len(),
                line@ == rows@[r as int]@,
                r < rows.len(),
                out@ == before + row_cells(line@, r as int).take(c as int),
            decreases line.len() - c,
        {
            out.push((r, c, line[c]));
            c += 1;
            assert(out@ =~= before + row_cells(line@, r as int).take(c as int));
        }
        assert(row_cells(line@, r as int).take(c as int) =~= row_cells(line@, r as int));
        r += 1;
    }
    out
}

/// Find the cell matching the bracket at `(row, col)`, scanning the whole
/// grid in reading order. Returns `None` when the cell is not a bracket or
/// the match is off-screen/unbalanced.
pub fn match_bracket(rows: &[Vec<char>], row: usize, col: usize) -> (r: Option<(usize, usize)>)
    ensures
        r == match_spec(rows@, row as int, col as int),
{
    if row >= rows.len() || col >= rows[row].len() {
        return None;
    }
    let at = rows[row][col];
    proof {
        assert forall|r: int| 0 <= r < rows@.len() implies #[trigger] rows@[r]@.len() <= usize::MAX by {
            assert(rows@[r].len() == rows@[r]@.len());
        }
        assert(grid_fits(rows@));
    }
    let cs = reading_order_cells(rows);
    let ghost k = cell_index(rows@, row as int, col as int);
    proof {
        lemma_cell_at(rows@, row as int, col as int);
    }
    // Position of the bracket in reading order.
    let mut base: usize = 0;
    let mut rr: usize = 0;
    while rr < row
        invariant
            rr <= row < rows.len(),
            base as int == cells_upto(rows@, rr as int).len(),
            cells_upto(rows@, row as int).len() <= cs.len(),
        decreases row - rr,
    {
        proof {
            lemma_cells_prefix(rows@, rr + 1, row as int);
        }
        base = base + rows[rr].len();
        rr += 1;
    }
    proof {
        lemma_cells_prefix(rows@, row as int, rows@.len() as int);
    }
    let k_exec = base + col;
    assert(k_exec == k);
    match close_for(at) {
        Some(close) => {
            let mut depth: usize = 0;
            let mut t = k_exec + 1;
            while t < cs.len()
                invariant
                    k < t <= cs.len(),
                    cs@ == cells(rows@),
                    cs@[k].2 == at,
                    close_of(at) == Some(close),
                    depth as int == count(cs@, at, k + 1, t as int) - count(cs@, close, k + 1, t as int),
                    depth as int <= t - k,
                    forall|u: int| k < u < t ==> !is_fwd_match(cs@, k, at, close, u),
                    k == cell_index(rows@, row as int, col as int),
                    grid_fits(rows@),
                    row < rows@.len(),
                    col < rows@[row as int]@.len(),
                    rows@[row as int]@[col as int] == at,
                decreases cs.len() - t,
            {
                let ch = cs[t].2;
                if ch == at {
                    depth = depth + 1;
                } else if ch == close {
                    if depth == 0 {
                        proof {
                            assert(is_fwd_match(cs@, k, at, close, t as int));
                            lemma_first_fwd_is(cs@, k, at, close, t as int);
                            assert(match_spec(rows@, row as int, col as int) == Some((cs@[t as int].0, cs@[t as int].1)));
                        }
                        return Some((cs[t].0, cs[t].1));
                    }
                    depth = depth - 1;
                }
                t += 1;
            }
            proof {
                if first_fwd(cs@, k, at, close) is Some {
                    let w = choose|t2: int|
                        is_fwd_match(cs@, k, at, close, t2) && forall|u: int|
                            k < u < t2 ==> !is_fwd_match(cs@, k, at, close, u);
                    assert(!is_fwd_match(cs@, k, at, close, w));
                }
            }
            None
        },
        None => match open_for(at) {
            Some(open) => {
                let mut depth: usize = 0;
                let mut t = k_exec;
                while t > 0
                    invariant
                        0 <= t <= k,
                        k < cs.len(),
                        cs@ == cells(rows@),
                        cs@[k].2 == at,
                        open_of(at) == Some(open),
                        close_of(at) is None,
                        depth as int == count(cs@, at, t as int, k) - count(cs@, open, t as int, k),
                        depth <= k - t,
                        forall|u: int| t <= u < k ==> !is_bwd_match(cs@, k, open, at, u),
                        k == cell_index(rows@, row as int, col as int),
                        grid_fits(rows@),
                        row < rows@.len(),
                        col < rows@[row as int]@.len(),
                        rows@[row as int]@[col as int] == at,
                    decreases t,
                {
                    let u = t - 1;
                    let ch = cs[u].2;
                    proof {
                        lemma_count_front(cs@, at, u as int, k);
                        lemma_count_front(cs@, open, u as int, k);
                    }
                    if ch == at {
                        depth = depth + 1;
                    } else if ch == open {
                        if depth == 0 {
                            proof {
                                assert(is_bwd_match(cs@, k, open, at, u as int));
                                lemma_last_bwd_is(cs@, k, open, at, u as int);
                                assert(match_spec(rows@, row as int, col as int) == Some((cs@[u as int].0, cs@[u as int].1)));
                            }
                            return Some((cs[u].0, cs[u].1));
                        }
                        depth = depth - 1;
                    }
                    t = u;
                }
                proof {
                    if last_bwd(cs@, k, open, at) is Some {
                        let w = choose|t2: int|
                            is_bwd_match(cs@, k, open, at, t2) && forall|u: int|
                                t2 < u < k ==> !is_bwd_match(cs@, k, open, at, u);
                        assert(!is_bwd_match(cs@, k, open, at, w));
                    }
                }
                None
            },
            None => None,
        },
    }
}

} // verus!
