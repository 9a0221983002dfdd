//! Terminal find bar: the matches of a query over the visible screen plus
//! scrollback, their order, and navigation between them. Match IDs are
//! (distance-from-bottom row, col) so navigation survives scroll changes.
//!
//! Walking the emulator's screens is the caller's part: it starts a rebuild
//! with [`SearchState::begin_refresh`], hands each row's text to
//! [`SearchState::add_row`], and ends with [`SearchState::finish_refresh`].

use vstd::prelude::*;
use vstd::arithmetic::div_mod::{lemma_small_mod, lemma_mod_self_0, lemma_mod_add_multiples_vanish};
use crate::text::{chars_of, lowercase, to_lowercase, cell_of, cell_columns, lemma_cell_of_monotone};

verus! {

#[derive(Debug, Clone, Copy, PartialEq, Eq, Structural)]
pub struct Match {
    /// Rows above the live bottom screen (0 = visible screen at bottom).
    pub scrollback: usize,
    /// Row within that screen view.
    pub row: u16,
    pub col: u16,
    pub len: u16,
}

pub struct SearchState {
    pub open: bool,
    pub query: String,
    pub case_sensitive: bool,
    pub matches: Vec<Match>,
    pub active: usize,
    /// Session generation, query and case flag the cache was built against.
    pub cached_generation: Option<(u64, String, bool)>,
}

/// The next match index after `a` among `n`, wrapping to the first.
pub open spec fn next_index(a: int, n: int) -> int {
    (a + 1) % n
}

/// The match index before `a` among `n`, wrapping to the last.
pub open spec fn prev_index(a: int, n: int) -> int {
    (a + n - 1) % n
}

/// The text a query is looked for in: as typed, or lower-cased.
pub open spec fn folded(s: Seq<char>, case_sensitive: bool) -> Seq<char> {
    if case_sensitive {
        s
    } else {
        lowercase(s)
    }
}

/// `needle` occurs in `hay` at `i`.
pub open spec fn occurs_at(hay: Seq<char>, needle: Seq<char>, i: int) -> bool {
    0 <= i && i + needle.len() <= hay.len() && hay.subrange(i, i + needle.len()) == needle
}

/// The first occurrence of `needle` in `hay` at or after `from`.
pub open spec fn first_from(hay: Seq<char>, needle: Seq<char>, from: int) -> Option<int>
    decreases hay.len() - from,
{
    if from < 0 || from + needle.len() > hay.len() {
        None
    } else if occurs_at(hay, needle, from) {
        Some(from)
    } else if from < hay.len() {
        first_from(hay, needle, from + 1)
    } else {
        None
    }
}

/// The starts of the non-overlapping occurrences of a non-empty `needle` in
/// `hay` at or after `from`, found left to right.
pub open spec fn occurrences(hay: Seq<char>, needle: Seq<char>, from: int) -> Seq<int>
    decreases hay.len() - from,
{
    if needle.len() == 0 {
        Seq::empty()
    } else {
        match first_from(hay, needle, from) {
            Some(i) => if i >= from && i + needle.len() <= hay.len() {
                seq![i] + occurrences(hay, needle, i + needle.len())
            } else {
                Seq::empty()
            },
            None => Seq::empty(),
        }
    }
}

/// The match at the occurrence starting at character `i` of `hay`: its
/// column and length are display cells of the searched text (kept as
/// `u16`, truncated).
pub open spec fn match_at(hay: Seq<char>, needle: Seq<char>, scrollback: usize, row: u16, i: int) -> Match {
    Match {
        scrollback,
        row,
        col: cell_of(hay, i) as u16,
        len: (cell_of(hay, i + needle.len()) - cell_of(hay, i)) as u16,
    }
}

/// The matches one row contributes: one per occurrence.
pub open spec fn row_matches_spec(
    hay: Seq<char>,
    needle: Seq<char>,
    scrollback: usize,
    row: u16,
) -> Seq<Match> {
    occurrences(hay, needle, 0).map_values(|i: int| match_at(hay, needle, scrollback, row, i))
}

/// Match `a` is shown before match `b`: top to bottom (more scrollback
/// first), then by row, then by column.
pub open spec fn match_before(a: Match, b: Match) -> bool {
    a.scrollback > b.scrollback || (a.scrollback == b.scrollback && (a.row < b.row || (a.row
        == b.row && a.col < b.col)))
}

/// No match is shown strictly before a match that precedes it.
pub open spec fn matches_sorted(s: Seq<Match>) -> bool {
    forall|i: int, j: int| 0 <= i < j < s.len() ==> !match_before(#[trigger] s[j], #[trigger] s[i])
}

/// How many times `m` occurs in `s`.
pub open spec fn count_of(s: Seq<Match>, m: Match) -> nat {
    s.filter(|x: Match| x == m).len()
}

/// Moving from one match to the next and back returns to it.
pub proof fn lemma_next_prev_inverse(a: int, n: int)
    requires
        0 <= a < n,
    ensures
        0 <= next_index(a, n) < n,
        0 <= prev_index(a, n) < n,
        prev_index(next_index(a, n), n) == a,
        next_index(prev_index(a, n), n) == a,
{
    // next_index(a, n)
    if a + 1 == n {
        lemma_mod_self_0(n);
        assert(next_index(a, n) == 0);
        // prev_index(0, n) == n - 1 == a
        lemma_small_mod((n - 1) as nat, n as nat);
        assert(prev_index(0, n) == a);
    } else {
        lemma_small_mod((a + 1) as nat, n as nat);
        assert(next_index(a, n) == a + 1);
        // prev_index(a + 1, n) == (n + a) % n == a
        lemma_mod_add_multiples_vanish(a, n);
        lemma_small_mod(a as nat, n as nat);
        assert(prev_index(a + 1, n) == a);
    }
    // prev_index(a, n)
    if a == 0 {
        lemma_small_mod((n - 1) as nat, n as nat);
        assert(prev_index(a, n) == n - 1);
        lemma_mod_self_0(n);
        assert(next_index(n - 1, n) == a);
    } else {
        lemma_mod_add_multiples_vanish(a - 1, n);
        lemma_small_mod((a - 1) as nat, n as nat);
        assert(prev_index(a, n) == a - 1);
        lemma_small_mod(a as nat, n as nat);
        assert(next_index(a - 1, n) == a);
    }
}

impl SearchState {
    /// The query, generation and case flag of the last rebuild, if any.
    pub open spec fn cache(&self) -> Option<(u64, Seq<char>, bool)> {
        match self.cached_generation {
            Some(k) => Some((k.0, k.1@, k.2)),
            None => None,
        }
    }

    pub fn new() -> (s: Self)
        ensures
            !s.open,
            s.query@.len() == 0,
            !s.case_sensitive,
            s.matches@.len() == 0,
            s.active == 0,
            s.cache() is None,
    {
        SearchState {
            open: false,
            query: String::new(),
            case_sensitive: false,
            matches: Vec::new(),
            active: 0,
            cached_generation: None,
        }
    }

    /// Forget the cache, so the next refresh rebuilds the matches.
    pub fn invalidate(&mut self)
        ensures
            final(self).cache() is None,
            final(self).open == old(self).open,
            final(self).query@ == old(self).query@,
            final(self).case_sensitive == old(self).case_sensitive,
            final(self).matches@ == old(self).matches@,
            final(self).active == old(self).active,
    {
        self.cached_generation = None;
    }

    /// Make the next match active, wrapping to the first.
    pub fn next(&mut self)
        requires
            old(self).matches.len() > 0 ==> old(self).active < usize::MAX,
        ensures
            final(self).active == if old(self).matches.len() > 0 {
                next_index(old(self).active as int, old(self).matches.len() as int) as usize
            } else {
                old(self).active
            },
            final(self).open == old(self).open,
            final(self).query@ == old(self).query@,
            final(self).case_sensitive == old(self).case_sensitive,
            final(self).matches@ == old(self).matches@,
            final(self).cache() == old(self).cache(),
    {
        if self.matches.len() > 0 {
            self.active = (self.active + 1) % self.matches.len();
        }
    }

    /// Make the previous match active, wrapping to the last.
    pub fn prev(&mut self)
        requires
            old(self).matches.len() > 0 ==> old(self).active + old(self).matches.len() <= usize::MAX,
        ensures
            final(self).active == if old(self).matches.len() > 0 {
                prev_index(old(self).active as int, old(self).matches.len() as int) as usize
            } else {
                old(self).active
            },
            final(self).open == old(self).open,
            final(self).query@ == old(self).query@,
            final(self).case_sensitive == old(self).case_sensitive,
            final(self).matches@ == old(self).matches@,
            final(self).cache() == old(self).cache(),
    {
        if self.matches.len() > 0 {
            self.active = (self.active + self.matches.len() - 1) % self.matches.len();
        }
    }

    /// The scrollback that shows the active match, when there is one: the
    /// view jumps there.
    pub fn reveal_active(&self) -> (r: Option<usize>)
        ensures
            r == if self.active < self.matches@.len() {
                Some(self.matches@[self.active as int].scrollback)
            } else {
                None::<usize>
            },
    {
        if self.active < self.matches.len() {
            Some(self.matches[self.active].scrollback)
        } else {
            None
        }
    }

    /// Start a rebuild for the terminal contents of `generation`. Returns
    /// whether the rows must be walked: not when the cache already holds
    /// this generation, query and case flag (nothing changes then), nor for
    /// an empty query (the matches are then cleared).
    pub fn begin_refresh(&mut self, generation: u64) -> (walk: bool)
        ensures
            old(self).cache() == Some((generation, old(self).query@, old(self).case_sensitive)) ==> {
                &&& !walk
                &&& final(self).matches@ == old(self).matches@
                &&& final(self).active == old(self).active
                &&& final(self).cache() == old(self).cache()
            },
            old(self).cache() != Some((generation, old(self).query@, old(self).case_sensitive)) ==> {
                &&& walk == (old(self).query@.len() > 0)
                &&& final(self).matches@.len() == 0
                &&& final(self).active == 0
                &&& final(self).cache() == Some(
                    (generation, old(self).query@, old(self).case_sensitive),
                )
            },
            final(self).open == old(self).open,
            final(self).query@ == old(self).query@,
            final(self).case_sensitive == old(self).case_sensitive,
    {
        let hit = match &self.cached_generation {
            Some(k) => k.0 == generation && k.2 == self.case_sensitive && same_text(&k.1, &self.query),
            None => false,
        };
        if hit {
            return false;
        }
        let q = copy_string(&self.query);
        self.cached_generation = Some((generation, q, self.case_sensitive));
        self.matches = Vec::new();
        self.active = 0;
        !self.query.as_str().is_empty()
    }

    /// The text the query is looked for in.
    pub fn needle(&self) -> (n: Vec<char>)
        ensures
            n@ == folded(self.query@, self.case_sensitive),
    {
        if self.case_sensitive {
            chars_of(self.query.as_str())
        } else {
            chars_of(to_lowercase(self.query.as_str()).as_str())
        }
    }

    /// Add the matches of one row's text, seen `scrollback` rows above the
    /// live screen.
    pub fn add_row(&mut self, scrollback: usize, row: u16, text: &str)
        ensures
            final(self).matches@ == old(self).matches@ + row_matches_spec(
                folded(text@, old(self).case_sensitive),
                folded(old(self).query@, old(self).case_sensitive),
                scrollback,
                row,
            ),
            final(self).open == old(self).open,
            final(self).query@ == old(self).query@,
            final(self).case_sensitive == old(self).case_sensitive,
            final(self).active == old(self).active,
            final(self).cache() == old(self).cache(),
    {
        let needle = self.needle();
        let hay = if self.case_sensitive {
            chars_of(text)
        } else {
            chars_of(to_lowercase(text).as_str())
        };
        let found = row_matches(&hay, &needle, scrollback, row);
        let mut i: usize = 0;
        let ghost start = self.matches@;
        while i < found.len()
            invariant
                i <= found.len(),
                self.matches@ == start + found@.take(i as int),
                self.open == old(self).open,
                self.query@ == old(self).query@,
                self.case_sensitive == old(self).case_sensitive,
                self.active == old(self).active,
                self.cache() == old(self).cache(),
            decreases found.len() - i,
        {
            self.matches.push(found[i]);
            assert(found@.take(i + 1) =~= found@.take(i as int).push(found@[i as int]));
            i += 1;
        }
        assert(found@.take(found.len() as int) =~= found@);
    }

    /// End a rebuild: order the matches top to bottom and make the last
    /// (most recent) one active.
    pub fn finish_refresh(&mut self)
        ensures
            matches_sorted(final(self).matches@),
            forall|m: Match| count_of(final(self).matches@, m) == count_of(old(self).matches@, m),
            final(self).active == if final(self).matches@.len() > 0 {
                (final(self).matches@.len() - 1) as usize
            } else {
                old(self).active
            },
            final(self).open == old(self).open,
            final(self).query@ == old(self).query@,
            final(self).case_sensitive == old(self).case_sensitive,
            final(self).cache() == old(self).cache(),
    {
        let mut ms: Vec<Match> = Vec::new();
        std::mem::swap(&mut ms, &mut self.matches);
        let sorted = sort_matches(ms);
        self.matches = sorted;
        if self.matches.len() > 0 {
            self.active = self.matches.len() - 1;
        }
    }
}

impl Default for SearchState {
    fn default() -> (s: Self)
        ensures
            !s.open,
            s.query@.len() == 0,
            !s.case_sensitive,
            s.matches@.len() == 0,
            s.active == 0,
            s.cache() is None,
    {
        SearchState::new()
    }
}

fn same_text(a: &String, b: &String) -> (r: bool)
    ensures
        r == (a@ == b@),
{
    let x = chars_of(a.as_str());
    let y = chars_of(b.as_str());
    if x.len() != y.len() {
        return false;
    }
    let mut i: usize = 0;
    while i < x.len()
        invariant
            i <= x.len() == y.len(),
            x@ == a@,
            y@ == b@,
            forall|j: int| 0 <= j < i ==> x@[j] == y@[j],
        decreases x.len() - i,
    {
        if x[i] != y[i] {
            return false;
        }
        i += 1;
    }
    assert(x@ =~= y@);
    true
}

fn copy_string(s: &String) -> (r: String)
    ensures
        r@ == s@,
{
    let mut r = String::new();
    crate::text::push_str_chars(&mut r, s.as_str());
    r
}

/// Whether `needle` occurs in `hay` at `i`.
fn occurs_at_exec(hay: &Vec<char>, needle: &Vec<char>, i: usize) -> (b: bool)
    requires
        i + needle.len() <= hay.len(),
    ensures
        b == occurs_at(hay@, needle@, i as int),
{
    let mut j: usize = 0;
    while j < needle.len()
        invariant
            j <= needle.len(),
            i + needle.len() <= hay.len(),
            forall|m: int| 0 <= m < j ==> hay@[i + m] == needle@[m],
        decreases needle.len() - j,
    {
        if hay[i + j] != needle[j] {
            assert(hay@.subrange(i as int, i + needle.len())[j as int] != needle@[j as int]);
            return false;
        }
        j += 1;
    }
    assert(hay@.subrange(i as int, i + needle.len()) =~= needle@);
    true
}

/// The matches of `needle` in one row's text `hay`.
pub fn row_matches(hay: &Vec<char>, needle: &Vec<char>, scrollback: usize, row: u16) -> (r: Vec<
    Match,
>)
    ensures
        r@ == row_matches_spec(hay@, needle@, scrollback, row),
{
    let mut out: Vec<Match> = Vec::new();
    if needle.len() == 0 || needle.len() > hay.len() {
        proof {
            if needle.len() > 0 {
                assert(first_from(hay@, needle@, 0) is None);
            }
        }
        assert(out@ =~= row_matches_spec(hay@, needle@, scrollback, row));
        return out;
    }
    let n = needle.len();
    let cols = cell_columns(hay);
    let ghost all = occurrences(hay@, needle@, 0);
    let mut from: usize = 0;
    let mut i: usize = 0;
    let ghost mut done: Seq<int> = Seq::empty();
    while i <= hay.len() - n
        invariant
            n == needle.len() > 0,
            n <= hay.len(),
            from <= i,
            i <= hay.len(),
            all == done + occurrences(hay@, needle@, from as int),
            first_from(hay@, needle@, from as int) == first_from(hay@, needle@, i as int),
            cols@.len() == hay@.len() + 1,
            forall|k: int| 0 <= k <= hay@.len() ==> #[trigger] cols@[k] == cell_of(hay@, k),
            out@ == done.map_values(|k: int| match_at(hay@, needle@, scrollback, row, k)),
        decreases hay.len() - i,
    {
        if occurs_at_exec(hay, needle, i) {
            proof {
                assert(first_from(hay@, needle@, i as int) == Some(i as int));
                assert(occurrences(hay@, needle@, from as int) =~= seq![i as int] + occurrences(
                    hay@,
                    needle@,
                    i + n,
                ));
                lemma_cell_of_monotone(hay@, i as int, i + n);
            }
            let a = cols[i];
            let b = cols[i + n];
            let m = Match { scrollback, row, col: a as u16, len: (b - a) as u16 };
            assert(m == match_at(hay@, needle@, scrollback, row, i as int));
            let ghost old_out = out@;
            proof {
                done = done.push(i as int);
            }
            out.push(m);
            assert(out@ =~= done.map_values(|k: int| match_at(hay@, needle@, scrollback, row, k)));
            from = i + n;
            i = i + n;
        } else {
            i = i + 1;
        }
    }
    proof {
        assert(first_from(hay@, needle@, i as int) is None);
        assert(occurrences(hay@, needle@, from as int) =~= Seq::<int>::empty());
        assert(all =~= done);
    }
    out
}

proof fn lemma_count_push(s: Seq<Match>, x: Match, m: Match)
    ensures
        count_of(s.push(x), m) == count_of(s, m) + if x == m {
            1nat
        } else {
            0nat
        },
{
    reveal(Seq::filter);
    assert(s.push(x).drop_last() =~= s);
}

proof fn lemma_count_concat(a: Seq<Match>, b: Seq<Match>, m: Match)
    ensures
        count_of(a + b, m) == count_of(a, m) + count_of(b, m),
    decreases b.len(),
{
    if b.len() == 0 {
        assert(a + b =~= a);
        reveal(Seq::filter);
    } else {
        let c = b.drop_last();
        assert(a + b =~= (a + c).push(b.last()));
        assert(b =~= c.push(b.last()));
        lemma_count_push(a + c, b.last(), m);
        lemma_count_push(c, b.last(), m);
        lemma_count_concat(a, c, m);
    }
}

/// Order matches top to bottom, then by row and column.
pub fn sort_matches(ms: Vec<Match>) -> (r: Vec<Match>)
    ensures
        matches_sorted(r@),
        forall|m: Match| count_of(r@, m) == count_of(ms@, m),
{
    let mut out: Vec<Match> = Vec::new();
    let mut k: usize = 0;
    assert(out@ =~= ms@.take(0));
    while k < ms.len()
        invariant
            k <= ms.len(),
            matches_sorted(out@),
            forall|m: Match| count_of(out@, m) == count_of(ms@.take(k as int), m),
        decreases ms.len() - k,
    {
        let x = ms[k];
        let mut p: usize = 0;
        while p < out.len() && !match_less(x, out[p])
            invariant
                p <= out.len(),
                forall|j: int| 0 <= j < p ==> !match_before(x, #[trigger] out@[j]),
            decreases out.len() - p,
        {
            p += 1;
        }
        let ghost olds = out@;
        proof {
            assert forall|j: int| p <= j < olds.len() implies !match_before(#[trigger] olds[j], x) by {
                if j > p {
                    assert(!match_before(olds[j], olds[p as int]));
                }
            }
        }
        out.insert(p, x);
        proof {
            let news = out@;
            assert(news =~= olds.insert(p as int, x));
            assert forall|i: int, j: int| 0 <= i < j < news.len() implies !match_before(
                #[trigger] news[j],
                #[trigger] news[i],
            ) by {
                if j < p {
                    assert(news[i] == olds[i] && news[j] == olds[j]);
                } else if j == p {
                    assert(news[i] == olds[i]);
                } else if i == p {
                    assert(news[j] == olds[j - 1]);
                } else if i < p {
                    assert(news[i] == olds[i] && news[j] == olds[j - 1]);
                } else {
                    assert(news[i] == olds[i - 1] && news[j] == olds[j - 1]);
                }
            }
            let a = olds.take(p as int);
            let b = olds.skip(p as int);
            assert(olds =~= a + b);
            assert(news =~= a.push(x) + b);
            assert(ms@.take(k + 1) =~= ms@.take(k as int).push(x));
            assert forall|m: Match| count_of(news, m) == count_of(ms@.take(k + 1), m) by {
                lemma_count_concat(a.push(x), b, m);
                lemma_count_concat(a, b, m);
                lemma_count_push(a, x, m);
                lemma_count_push(ms@.take(k as int), x, m);
            }
        }
        k += 1;
    }
    assert(ms@.take(ms.len() as int) =~= ms@);
    out
}

/// Whether match `a` is shown strictly before match `b`.
fn match_less(a: Match, b: Match) -> (r: bool)
    ensures
        r == match_before(a, b),
{
    a.scrollback > b.scrollback || (a.scrollback == b.scrollback && (a.row < b.row || (a.row
        == b.row && a.col < b.col)))
}

} // verus!
