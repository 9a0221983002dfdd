//! Parsing of long-format `ls -la` listings into entries, and the order in
//! which a listing is shown.

use vstd::prelude::*;
use vstd::utf8::{encode_utf8, encode_scalar};
use super::order::{sort_entries, listing_sorted, with_key, entry_views};
use crate::text::{chars_of, is_ws, is_whitespace, trim_end, trim_end_index, parse_unsigned,
    parse_unsigned_range, push_chars, string_from_chars};

verus! {

broadcast use vstd::utf8::char_is_scalar;

/// One entry from a remote `ls -la` listing.
#[derive(Debug, Clone, PartialEq)]
pub struct RemoteEntry {
    pub name: String,
    pub is_dir: bool,
    pub is_link: bool,
    pub size: u64,
    /// rwx permission string without the type char, e.g. `rwxr-xr-x`.
    pub perms: String,
    /// Modification date as printed by `ls` (three fields).
    pub modified: String,
}

/// An entry with its strings as character sequences.
pub struct EntryView {
    pub name: Seq<char>,
    pub is_dir: bool,
    pub is_link: bool,
    pub size: u64,
    pub perms: Seq<char>,
    pub modified: Seq<char>,
}

impl View for RemoteEntry {
    type V = EntryView;

    open spec fn view(&self) -> EntryView {
        EntryView {
            name: self.name@,
            is_dir: self.is_dir,
            is_link: self.is_link,
            size: self.size,
            perms: self.perms@,
            modified: self.modified@,
        }
    }
}

/// The spans `[start, end)` of the words of `s`: the maximal runs of
/// characters that are not Unicode white space, as `str::split_whitespace`
/// yields them.
pub open spec fn word_spans(s: Seq<char>) -> Seq<(int, int)>
    decreases s.len(),
{
    if s.len() == 0 {
        Seq::empty()
    } else {
        let p = word_spans(s.drop_last());
        let i = s.len() - 1;
        if is_ws(s[i]) {
            p
        } else if i > 0 && !is_ws(s[i - 1]) && p.len() > 0 {
            p.update(p.len() - 1, (p.last().0, i + 1))
        } else {
            p.push((i, i + 1))
        }
    }
}

/// The `k`-th word of `s`.
pub open spec fn ls_field(s: Seq<char>, k: int) -> Seq<char> {
    s.subrange(word_spans(s)[k].0, word_spans(s)[k].1)
}

/// The white space that `u8::is_ascii_whitespace` reports.
pub open spec fn is_ascii_ws(c: char) -> bool {
    c == ' ' || c == '\t' || c == '\n' || c == '\x0c' || c == '\r'
}

/// The positions at which a field separated by ASCII white space starts.
pub open spec fn field_starts(s: Seq<char>) -> Seq<int>
    decreases s.len(),
{
    if s.len() == 0 {
        Seq::empty()
    } else {
        let i = s.len() - 1;
        let p = field_starts(s.drop_last());
        if !is_ascii_ws(s[i]) && (i == 0 || is_ascii_ws(s[i - 1])) {
            p.push(i)
        } else {
            p
        }
    }
}

/// Where the name of a listing row starts: at its ninth ASCII-separated
/// field, or at the start of the line when there is none.
pub open spec fn name_start(s: Seq<char>) -> int {
    let f = field_starts(s);
    if f.len() >= 9 {
        f[8]
    } else {
        0
    }
}

/// `s` holds the link marker ` -> ` at `i`.
pub open spec fn arrow_at(s: Seq<char>, i: int) -> bool {
    0 <= i && i + 4 <= s.len() && s[i] == ' ' && s[i + 1] == '-' && s[i + 2] == '>' && s[i + 3]
        == ' '
}

/// The first position of ` -> ` in `s`.
#[verifier::opaque]
pub open spec fn first_arrow(s: Seq<char>) -> Option<int> {
    if exists|i: int| arrow_at(s, i) {
        Some(choose|i: int| arrow_at(s, i) && forall|j: int| 0 <= j < i ==> !arrow_at(s, j))
    } else {
        None
    }
}

/// Length in bytes of the UTF-8 encoding of `s`.
pub open spec fn byte_len(s: Seq<char>) -> nat {
    encode_utf8(s).len()
}

/// The number of characters of `mode` whose encoding is exactly ten bytes
/// long, when there is such a prefix.
pub open spec fn perms_end(mode: Seq<char>) -> Option<int> {
    if exists|k: int| 0 <= k <= mode.len() && byte_len(mode.take(k)) == 10 {
        Some(choose|k: int| 0 <= k <= mode.len() && byte_len(mode.take(k)) == 10)
    } else {
        None
    }
}

/// The file-type characters of a listing row.
pub open spec fn is_row_kind(c: char) -> bool {
    c == '-' || c == 'd' || c == 'l' || c == 'b' || c == 'c' || c == 'p' || c == 's'
}

/// A line shaped like a listing row: at least nine words, the first of
/// which starts with a file-type character and is at least ten bytes long.
pub open spec fn ls_row_shape(s: Seq<char>) -> bool {
    word_spans(s).len() >= 9 && is_row_kind(ls_field(s, 0)[0]) && byte_len(ls_field(s, 0)) >= 10
}

/// The name of a listing row: from its name start to the end of the line,
/// trailing white space dropped; for a link, only what stands before
/// ` -> `.
pub open spec fn ls_name(s: Seq<char>) -> Seq<char> {
    row_name(s, ls_field(s, 0)[0] == 'l')
}

/// The name of a row that is a link or is not.
pub open spec fn row_name(s: Seq<char>, is_link: bool) -> Seq<char> {
    let n = trim_end(s.skip(name_start(s)));
    if is_link {
        match first_arrow(n) {
            Some(p) => n.take(p),
            None => n,
        }
    } else {
        n
    }
}

/// A name that a listing shows: not empty, `.` or `..`.
pub open spec fn is_listed_name(n: Seq<char>) -> bool {
    n.len() > 0 && n != seq!['.'] && n != seq!['.', '.']
}

/// What one `ls -la` line gives: nothing for the `total` line, `.`/`..`
/// and anything not shaped like a row (a mode whose tenth byte ends inside
/// a character among them); else the entry, with the size `0` where the
/// fifth word is not a `u64`.
pub open spec fn ls_line_spec(s: Seq<char>) -> Option<EntryView> {
    if ls_row_shape(s) && is_listed_name(ls_name(s)) && perms_end(ls_field(s, 0)) is Some {
        let mode = ls_field(s, 0);
        Some(
            EntryView {
                name: ls_name(s),
                is_dir: mode[0] == 'd',
                is_link: mode[0] == 'l',
                size: match parse_unsigned(ls_field(s, 4), u64::MAX as nat) {
                    Some(n) => n as u64,
                    None => 0,
                },
                perms: mode.subrange(1, perms_end(mode).unwrap()),
                modified: ls_field(s, 5) + seq![' '] + ls_field(s, 6) + seq![' '] + ls_field(s, 7),
            },
        )
    } else {
        None
    }
}

/// The spans of the words of `v`.
fn word_spans_of(v: &Vec<char>) -> (r: Vec<(usize, usize)>)
    ensures
        r.len() == word_spans(v@).len(),
        forall|k: int|
            0 <= k < r.len() ==> (#[trigger] r@[k]).0 as int == word_spans(v@)[k].0 && r@[k].1
                as int == word_spans(v@)[k].1 && r@[k].0 < r@[k].1 <= v.len(),
{
    let mut r: Vec<(usize, usize)> = Vec::new();
    let mut i: usize = 0;
    while i < v.len()
        invariant
            i <= v.len(),
            r.len() == word_spans(v@.take(i as int)).len(),
            forall|k: int|
                0 <= k < r.len() ==> (#[trigger] r@[k]).0 as int == word_spans(v@.take(i as int))[k].0
                    && r@[k].1 as int == word_spans(v@.take(i as int))[k].1 && r@[k].0 < r@[k].1
                    <= i,
            i > 0 && !is_ws(v@[i - 1]) ==> r.len() > 0 && r@[r.len() - 1].1 == i,
        decreases v.len() - i,
    {
        let ghost s = v@.take(i + 1);
        proof {
            assert(s.drop_last() =~= v@.take(i as int));
            assert(s[i as int] == v@[i as int]);
            if i > 0 {
                assert(s[i - 1] == v@[i - 1]);
            }
        }
        let c = v[i];
        if is_whitespace(c) {
        } else if i > 0 && !is_whitespace(v[i - 1]) {
            let last = r.len() - 1;
            let start = r[last].0;
            r.set(last, (start, i + 1));
        } else {
            r.push((i, i + 1));
        }
        i += 1;
    }
    assert(v@.take(v.len() as int) =~= v@);
    r
}

fn is_ascii_whitespace(c: char) -> (b: bool)
    ensures
        b == is_ascii_ws(c),
{
    c == ' ' || c == '\t' || c == '\n' || c == '\x0c' || c == '\r'
}

/// Where the name of the listing row `v` starts.
fn name_start_of(v: &Vec<char>) -> (r: usize)
    ensures
        r == name_start(v@),
        r <= v.len(),
{
    let mut count: usize = 0;
    let mut idx: usize = 0;
    let mut i: usize = 0;
    while i < v.len()
        invariant
            i <= v.len(),
            count == field_starts(v@.take(i as int)).len(),
            count <= i,
            forall|k: int|
                0 <= k < count ==> 0 <= #[trigger] field_starts(v@.take(i as int))[k] < i,
            idx == (if count >= 9 {
                field_starts(v@.take(i as int))[8]
            } else {
                0
            }),
        decreases v.len() - i,
    {
        let ghost p = field_starts(v@.take(i as int));
        let ghost s = v@.take(i + 1);
        proof {
            assert(s.drop_last() =~= v@.take(i as int));
            assert(s[i as int] == v@[i as int]);
            if i > 0 {
                assert(s[i - 1] == v@[i - 1]);
            }
        }
        if !is_ascii_whitespace(v[i]) && (i == 0 || is_ascii_whitespace(v[i - 1])) {
            count += 1;
            if count == 9 {
                idx = i;
            }
            assert(field_starts(s) == p.push(i as int));
        } else {
            assert(field_starts(s) == p);
        }
        i += 1;
    }
    assert(v@.take(v.len() as int) =~= v@);
    idx
}

/// The first position of ` -> ` in `v[from..to]`, counted from `from`.
fn find_arrow(v: &Vec<char>, from: usize, to: usize) -> (r: Option<usize>)
    requires
        from <= to <= v.len(),
    ensures
        match first_arrow(v@.subrange(from as int, to as int)) {
            Some(p) => r is Some && r.unwrap() as int == p,
            None => r is None,
        },
        r is Some ==> r.unwrap() + 4 <= to - from,
{
    let ghost n = v@.subrange(from as int, to as int);
    proof {
        reveal(first_arrow);
    }
    let mut i: usize = from;
    while to - i >= 4
        invariant
            from <= i <= to <= v.len(),
            n == v@.subrange(from as int, to as int),
            forall|j: int| 0 <= j < i - from ==> !arrow_at(n, j),
        decreases to - i,
    {
        if v[i] == ' ' && v[i + 1] == '-' && v[i + 2] == '>' && v[i + 3] == ' ' {
            let ghost p = i - from;
            proof {
                reveal(first_arrow);
                assert(arrow_at(n, p));
                let q = choose|q: int| arrow_at(n, q) && forall|j: int| 0 <= j < q ==> !arrow_at(n, j);
                assert(arrow_at(n, q) && forall|j: int| 0 <= j < q ==> !arrow_at(n, j));
                if q < p {
                    assert(!arrow_at(n, q));
                }
                if q > p {
                    assert(!arrow_at(n, p));
                }
                assert(q == p);
            }
            return Some(i - from);
        }
        assert(!arrow_at(n, i - from));
        i += 1;
    }
    proof {
        reveal(first_arrow);
        assert forall|j: int| !arrow_at(n, j) by {
            if 0 <= j < i - from {
            } else if j >= i - from && arrow_at(n, j) {
                assert(j + 4 <= n.len());
            }
        }
    }
    None
}

proof fn lemma_encode_push(s: Seq<char>, c: char)
    ensures
        encode_utf8(s.push(c)) == encode_utf8(s) + encode_scalar(c as u32),
    decreases s.len(),
{
    if s.len() == 0 {
        assert(s.push(c).drop_first() =~= Seq::<char>::empty());
        assert(s.push(c)[0] == c);
        assert(encode_utf8(Seq::<char>::empty()) =~= Seq::<u8>::empty());
        assert(encode_utf8(s) =~= Seq::<u8>::empty());
        assert(encode_utf8(s.push(c)) =~= encode_scalar(c as u32));
    } else {
        assert(s.push(c).drop_first() =~= s.drop_first().push(c));
        lemma_encode_push(s.drop_first(), c);
        assert(encode_utf8(s.push(c)) =~= encode_utf8(s) + encode_scalar(c as u32));
    }
}

/// Each character adds its UTF-8 width to the byte length.
proof fn lemma_byte_len_step(s: Seq<char>, k: int)
    requires
        0 <= k < s.len(),
    ensures
        byte_len(s.take(k + 1)) == byte_len(s.take(k)) + encode_scalar(s[k] as u32).len(),
        encode_scalar(s[k] as u32).len() >= 1,
{
    assert(s.take(k + 1) =~= s.take(k).push(s[k]));
    lemma_encode_push(s.take(k), s[k]);
}

/// Longer prefixes take strictly more bytes.
proof fn lemma_byte_len_increasing(s: Seq<char>, a: int, b: int)
    requires
        0 <= a < b <= s.len(),
    ensures
        byte_len(s.take(a)) < byte_len(s.take(b)),
    decreases b - a,
{
    lemma_byte_len_step(s, b - 1);
    if a < b - 1 {
        lemma_byte_len_increasing(s, a, b - 1);
    }
}

/// UTF-8 width of one character.
fn utf8_width(c: char) -> (w: usize)
    ensures
        w == encode_scalar(c as u32).len(),
        1 <= w <= 4,
{
    let u = c as u32;
    if u < 0x80 {
        1
    } else if u < 0x800 {
        2
    } else if u < 0x10000 {
        3
    } else {
        4
    }
}

/// Whether the word `v[from..to]` is at least ten bytes long, and if so, the
/// number of its characters that make exactly ten bytes, when there is such
/// a prefix.
fn ten_byte_prefix(v: &Vec<char>, from: usize, to: usize) -> (r: (bool, Option<usize>))
    requires
        from <= to <= v.len(),
    ensures
        r.0 == (byte_len(v@.subrange(from as int, to as int)) >= 10),
        r.0 ==> match perms_end(v@.subrange(from as int, to as int)) {
            Some(k) => r.1 == Some(k as usize),
            None => r.1 is None,
        },
        r.1 is Some ==> r.1.unwrap() <= to - from,
{
    let ghost m = v@.subrange(from as int, to as int);
    let mut total: usize = 0;
    let mut k: usize = from;
    while k < to && total < 10
        invariant
            from <= k <= to <= v.len(),
            m == v@.subrange(from as int, to as int),
            total == byte_len(m.take(k - from)),
            forall|j: int| 0 <= j < k - from ==> byte_len(#[trigger] m.take(j)) < 10,
        decreases to - k,
    {
        proof {
            lemma_byte_len_step(m, k - from);
            assert(m[k - from] == v@[k as int]);
        }
        total = total + utf8_width(v[k]);
        k += 1;
    }
    proof {
        if k - from < m.len() {
            lemma_byte_len_increasing(m, k - from, m.len() as int);
        }
        assert(m.take(m.len() as int) =~= m);
    }
    if total < 10 {
        return (false, None);
    }
    let j = k - from;
    if total == 10 {
        proof {
            let q = choose|q: int| 0 <= q <= m.len() && byte_len(m.take(q)) == 10;
            assert(0 <= q <= m.len() && byte_len(m.take(q)) == 10);
            if q < j {
                lemma_byte_len_increasing(m, q, j as int);
            }
            if q > j {
                lemma_byte_len_increasing(m, j as int, q);
            }
        }
        (true, Some(j))
    } else {
        proof {
            assert forall|q: int| 0 <= q <= m.len() implies byte_len(#[trigger] m.take(q)) != 10 by {
                if q > j {
                    lemma_byte_len_increasing(m, j as int, q);
                }
            }
        }
        (true, None)
    }
}

/// The span of the name of the row `v`.
fn row_name_span(v: &Vec<char>, is_link: bool) -> (r: (usize, usize))
    ensures
        r.0 <= r.1 <= v.len(),
        v@.subrange(r.0 as int, r.1 as int) == row_name(v@, is_link),
{
    let ns = name_start_of(v);
    let ne = trim_end_index(v, ns, v.len());
    let ghost full = v@.subrange(ns as int, ne as int);
    proof {
        assert(v@.skip(ns as int) =~= v@.subrange(ns as int, v.len() as int));
        assert(full == trim_end(v@.skip(name_start(v@))));
    }
    if !is_link {
        return (ns, ne);
    }
    match find_arrow(v, ns, ne) {
        Some(p) => {
            assert(v@.subrange(ns as int, (ns + p) as int) =~= full.take(p as int));
            (ns, ns + p)
        },
        None => (ns, ne),
    }
}

/// Parse one long-format `ls -la` line. Returns `None` for the `total` line,
/// `.`/`..`, and anything that doesn't look like a listing row.
pub fn parse_ls_line(line: &str) -> (r: Option<RemoteEntry>)
    ensures
        match ls_line_spec(line@) {
            Some(e) => r matches Some(x) && x@ == e,
            None => r is None,
        },
{
    let v = chars_of(line);
    let spans = word_spans_of(&v);
    if spans.len() < 9 {
        return None;
    }
    let ghost s = line@;
    let (m0, m1) = spans[0];
    let ghost mode = v@.subrange(m0 as int, m1 as int);
    assert(mode == ls_field(s, 0));
    let type_ch = v[m0];
    assert(type_ch == mode[0]);
    if !(type_ch == '-' || type_ch == 'd' || type_ch == 'l' || type_ch == 'b' || type_ch == 'c'
        || type_ch == 'p' || type_ch == 's') {
        return None;
    }
    let (long, pe) = ten_byte_prefix(&v, m0, m1);
    if !long {
        return None;
    }
    let is_link = type_ch == 'l';
    let (ns, end) = row_name_span(&v, is_link);
    let ghost name = v@.subrange(ns as int, end as int);
    assert(name == ls_name(s));
    if end == ns || (end - ns == 1 && v[ns] == '.') || (end - ns == 2 && v[ns] == '.' && v[ns + 1]
        == '.') {
        proof {
            if end - ns == 1 {
                assert(name =~= seq!['.']);
            }
            if end - ns == 2 {
                assert(name =~= seq!['.', '.']);
            }
        }
        return None;
    }
    proof {
        if name == seq!['.'] {
            assert(name[0] == v@[ns as int]);
        }
        if name == seq!['.', '.'] {
            assert(name[0] == v@[ns as int] && name[1] == v@[ns + 1]);
        }
    }
    let k = match pe {
        Some(k) => k,
        None => {
            return None;
        },
    };
    let name_s = string_from_chars(&v, ns, end);
    let (s4a, s4b) = spans[4];
    let size = match parse_unsigned_range(&v, s4a, s4b, u64::MAX) {
        Some(n) => n,
        None => 0,
    };
    let perms = string_from_chars(&v, m0 + 1, m0 + k);
    assert(perms@ =~= mode.subrange(1, k as int));
    let (s5a, s5b) = spans[5];
    let (s6a, s6b) = spans[6];
    let (s7a, s7b) = spans[7];
    let mut modified = String::new();
    push_chars(&mut modified, &v, s5a, s5b);
    modified.push(' ');
    push_chars(&mut modified, &v, s6a, s6b);
    modified.push(' ');
    push_chars(&mut modified, &v, s7a, s7b);
    assert(modified@ =~= ls_field(s, 5) + seq![' '] + ls_field(s, 6) + seq![' '] + ls_field(s, 7));
    Some(
        RemoteEntry {
            name: name_s,
            is_dir: type_ch == 'd',
            is_link,
            size,
            perms,
            modified,
        },
    )
}

/// The lines of `s.take(i)` that end with `\n` (as spans), and where the
/// line after them starts.
pub open spec fn line_scan(s: Seq<char>, i: nat) -> (Seq<(int, int)>, int)
    decreases i,
{
    if i == 0 {
        (Seq::empty(), 0)
    } else {
        let prev = line_scan(s, (i - 1) as nat);
        if s[i - 1] == '\n' {
            let end = if i - 1 > prev.1 && s[i - 2] == '\r' {
                i - 2
            } else {
                i - 1
            };
            (prev.0.push((prev.1, end)), i as int)
        } else {
            prev
        }
    }
}

/// The spans of the lines of `s`.
pub open spec fn line_spans(s: Seq<char>) -> Seq<(int, int)> {
    let sc = line_scan(s, s.len());
    if sc.1 < s.len() {
        sc.0.push((sc.1, s.len() as int))
    } else {
        sc.0
    }
}

/// The lines of `s` as `str::lines` yields them: split after each `\n`,
/// which is dropped together with a `\r` just before it; a last line
/// without `\n` is kept whole, and no empty line follows a final `\n`.
pub open spec fn lines_of(s: Seq<char>) -> Seq<Seq<char>> {
    line_spans(s).map_values(|p: (int, int)| s.subrange(p.0, p.1))
}

/// The entries of an `ls -la` output, in the order of its lines.
pub open spec fn ls_entries(s: Seq<char>) -> Seq<EntryView> {
    lines_of(s).filter_map(|l: Seq<char>| ls_line_spec(l))
}

/// The spans of the lines of `v`.
fn line_spans_of(v: &Vec<char>) -> (r: Vec<(usize, usize)>)
    ensures
        r.len() == line_spans(v@).len(),
        forall|k: int|
            0 <= k < r.len() ==> (#[trigger] r@[k]).0 as int == line_spans(v@)[k].0 && r@[k].1
                as int == line_spans(v@)[k].1 && r@[k].0 <= r@[k].1 <= v.len(),
{
    let mut r: Vec<(usize, usize)> = Vec::new();
    let mut start: usize = 0;
    let mut i: usize = 0;
    while i < v.len()
        invariant
            start <= i <= v.len(),
            start as int == line_scan(v@, i as nat).1,
            r.len() == line_scan(v@, i as nat).0.len(),
            forall|k: int|
                0 <= k < r.len() ==> (#[trigger] r@[k]).0 as int == line_scan(v@, i as nat).0[k].0
                    && r@[k].1 as int == line_scan(v@, i as nat).0[k].1 && r@[k].0 <= r@[k].1
                    <= i,
        decreases v.len() - i,
    {
        if v[i] == '\n' {
            let end = if i > start && v[i - 1] == '\r' {
                i - 1
            } else {
                i
            };
            r.push((start, end));
            start = i + 1;
        }
        i += 1;
    }
    if start < v.len() {
        r.push((start, v.len()));
    }
    r
}

/// Parse full `ls -la` output, directories first then files, each sorted
/// by lower-cased name; entries with equal keys keep the order of their
/// lines.
pub fn parse_ls_output(out: &str) -> (r: Vec<RemoteEntry>)
    ensures
        listing_sorted(entry_views(r@)),
        forall|k: (bool, Seq<char>)|
            #[trigger] with_key(entry_views(r@), k) == with_key(ls_entries(out@), k),
{
    let v = chars_of(out);
    let spans = line_spans_of(&v);
    let ghost lines = lines_of(out@);
    let mut entries: Vec<RemoteEntry> = Vec::new();
    let mut k: usize = 0;
    assert(entry_views(entries@) =~= lines.take(0).filter_map(|l: Seq<char>| ls_line_spec(l)));
    while k < spans.len()
        invariant
            k <= spans.len() == lines.len(),
            v@ == out@,
            lines == lines_of(out@),
            forall|j: int|
                0 <= j < spans.len() ==> (#[trigger] spans@[j]).0 as int == line_spans(v@)[j].0
                    && spans@[j].1 as int == line_spans(v@)[j].1 && spans@[j].0 <= spans@[j].1
                    <= v.len(),
            entry_views(entries@) == lines.take(k as int).filter_map(
                |l: Seq<char>| ls_line_spec(l),
            ),
        decreases spans.len() - k,
    {
        let (a, b) = spans[k];
        let line = string_from_chars(&v, a, b);
        assert(line@ == lines[k as int]);
        let parsed = parse_ls_line(line.as_str());
        proof {
            lines.lemma_filter_map_take_succ(|l: Seq<char>| ls_line_spec(l), k as int);
        }
        match parsed {
            Some(e) => {
                entries.push(e);
            },
            None => {},
        }
        assert(entry_views(entries@) =~= lines.take(k + 1).filter_map(
            |l: Seq<char>| ls_line_spec(l),
        ));
        k += 1;
    }
    assert(lines.take(k as int) =~= lines);
    sort_entries(entries)
}


/// **Only `.` and `..` are left out.** A line shaped like a listing row
/// (whose mode can be cut after its tenth byte) gives an entry exactly when
/// its name is not empty, `.` or `..`, and the entry carries that name; so
/// hidden files such as `.bashrc` are listed.
pub proof fn lemma_rows_keep_every_real_name(s: Seq<char>)
    requires
        ls_row_shape(s),
        perms_end(ls_field(s, 0)) is Some,
    ensures
        ls_line_spec(s) is Some <==> (ls_name(s).len() > 0 && ls_name(s) != seq!['.'] && ls_name(s)
            != seq!['.', '.']),
        ls_line_spec(s) matches Some(e) ==> e.name == ls_name(s),
        ls_name(s).len() > 2 && ls_name(s)[0] == '.' ==> ls_line_spec(s) is Some,
{
    if ls_name(s).len() > 2 {
        assert(ls_name(s) != seq!['.']);
        assert(ls_name(s) != seq!['.', '.']);
    }
}

} // verus!
