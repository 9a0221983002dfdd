//! Text helpers of the terminal canvas: display-width aware tokens, link
//! detection under the pointer, and query encoding for web searches.

use vstd::prelude::*;
use vstd::utf8::encode_utf8;
use crate::text::{chars_of, is_ws, is_whitespace, trim_end, trim_end_index, string_from_chars};
pub use crate::text::{display_width, str_width};

verus! {

pub const MIN_COLS: u16 = 40;
pub const MAX_COLS: u16 = 320;
pub const MIN_ROWS: u16 = 15;
pub const MAX_ROWS: u16 = 160;

/// Side effects the app layer must apply after rendering a frame.
pub struct TermOutput {
    /// Raw input bytes sent to the active session (replayed for sync input).
    pub input_sent: Vec<Vec<u8>>,
    /// Multiline paste text that needs the confirmation dialog.
    pub paste_dialog: Option<String>,
    /// Ctrl+P: upload clipboard image.
    pub upload_image: bool,
}

impl Default for TermOutput {
    fn default() -> (r: Self)
        ensures
            r.input_sent@.len() == 0,
            r.paste_dialog is None,
            !r.upload_image,
    {
        TermOutput { input_sent: Vec::new(), paste_dialog: None, upload_image: false }
    }
}

/// Unreserved characters of RFC 3986, as bytes.
pub open spec fn is_unreserved(b: u8) -> bool {
    (0x41 <= b <= 0x5a) || (0x61 <= b <= 0x7a) || (0x30 <= b <= 0x39) || b == 0x2d || b == 0x5f
        || b == 0x2e || b == 0x7e
}

/// Upper-case hexadecimal digit for a value below 16.
pub open spec fn hex_upper(v: nat) -> char {
    if v < 10 {
        (48 + v) as char
    } else {
        (55 + v) as char
    }
}

/// How one byte of the query is written.
pub open spec fn url_byte(b: u8) -> Seq<char> {
    if is_unreserved(b) {
        seq![b as char]
    } else if b == 0x20 {
        seq!['+']
    } else {
        seq!['%', hex_upper((b / 16) as nat), hex_upper((b % 16) as nat)]
    }
}

pub open spec fn url_bytes(bs: Seq<u8>) -> Seq<char>
    decreases bs.len(),
{
    if bs.len() == 0 {
        Seq::empty()
    } else {
        url_bytes(bs.drop_last()) + url_byte(bs.last())
    }
}

/// Percent-encoding of the UTF-8 bytes of `s`: unreserved bytes pass
/// through, a space becomes `+`, every other byte `%XX`.
pub open spec fn url_encode_spec(s: Seq<char>) -> Seq<char> {
    url_bytes(encode_utf8(s))
}

fn hex_upper_char(v: u8) -> (c: char)
    requires
        v < 16,
    ensures
        c == hex_upper(v as nat),
{
    if v < 10 {
        (48 + v) as char
    } else {
        (55 + v) as char
    }
}

/// Percent-encode a search query for use in a URL query string.
/// Unreserved characters (RFC 3986) pass through; spaces become `+`.
pub fn url_encode(s: &str) -> (r: String)
    ensures
        r@ == url_encode_spec(s@),
{
    let b = s.as_bytes();
    let ghost bs = b@;
    assert(bs == encode_utf8(s@));
    let mut out = String::new();
    let mut i: usize = 0;
    while i < b.len()
        invariant
            i <= b.len(),
            b@ == bs,
            out@ == url_bytes(bs.take(i as int)),
        decreases b.len() - i,
    {
        let c = b[i];
        if (0x41 <= c && c <= 0x5a) || (0x61 <= c && c <= 0x7a) || (0x30 <= c && c <= 0x39) || c
            == 0x2d || c == 0x5f || c == 0x2e || c == 0x7e {
            out.push(c as char);
        } else if c == 0x20 {
            out.push('+');
        } else {
            out.push('%');
            out.push(hex_upper_char(c / 16));
            out.push(hex_upper_char(c % 16));
        }
        proof {
            assert(bs.take(i + 1).drop_last() =~= bs.take(i as int));
            assert(bs.take(i + 1).last() == c);
        }
        assert(out@ =~= url_bytes(bs.take(i + 1)));
        i += 1;
    }
    assert(bs.take(b.len() as int) =~= bs);
    out
}

/// The parts of `s.take(i)` that end with white space (as spans), and where
/// the part after them starts.
pub open spec fn part_scan(s: Seq<char>, i: nat) -> (Seq<(int, int)>, int)
    decreases i,
{
    if i == 0 {
        (Seq::empty(), 0)
    } else {
        let prev = part_scan(s, (i - 1) as nat);
        if is_ws(s[i - 1]) {
            (prev.0.push((prev.1, i as int)), i as int)
        } else {
            prev
        }
    }
}

/// The parts `str::split_inclusive(char::is_whitespace)` yields: each ends
/// just after one white-space character; a last part without one is kept
/// when it is not empty.
pub open spec fn part_spans(s: Seq<char>) -> Seq<(int, int)> {
    let sc = part_scan(s, s.len());
    if sc.1 < s.len() {
        sc.0.push((sc.1, s.len() as int))
    } else {
        sc.0
    }
}

/// The `k`-th part of `s`.
pub open spec fn part_at(s: Seq<char>, k: int) -> Seq<char> {
    s.subrange(part_spans(s)[k].0, part_spans(s)[k].1)
}

/// `a + b` as `usize` arithmetic wraps.
pub open spec fn wrap_add(a: usize, b: usize) -> usize {
    if a + b > usize::MAX {
        (a + b - (usize::MAX + 1)) as usize
    } else {
        (a + b) as usize
    }
}

/// The column at which the `k`-th part of `s` starts: the widths of the
/// parts before it, added up.
pub open spec fn part_col(s: Seq<char>, k: nat) -> usize
    decreases k,
{
    if k == 0 {
        0
    } else {
        wrap_add(part_col(s, (k - 1) as nat), str_width(part_at(s, k - 1)))
    }
}

/// The tokens of the first `k` parts of `s`, each with its column.
pub open spec fn tokens_upto(s: Seq<char>, k: nat) -> Seq<(usize, Seq<char>)>
    decreases k,
{
    if k == 0 {
        Seq::empty()
    } else {
        let prev = tokens_upto(s, (k - 1) as nat);
        let tok = trim_end(part_at(s, k - 1));
        if tok.len() > 0 {
            prev.push((part_col(s, (k - 1) as nat), tok))
        } else {
            prev
        }
    }
}

/// White-space separated tokens of `s`, each with the terminal column it
/// starts at.
pub open spec fn tokenize_spec(s: Seq<char>) -> Seq<(usize, Seq<char>)> {
    tokens_upto(s, part_spans(s).len())
}

/// The views of tokens.
pub open spec fn token_views(v: Seq<(usize, String)>) -> Seq<(usize, Seq<char>)> {
    v.map_values(|t: (usize, String)| (t.0, t.1@))
}

fn part_spans_of(v: &Vec<char>) -> (r: Vec<(usize, usize)>)
    ensures
        r.len() == part_spans(v@).len(),
        forall|k: int|
            0 <= k < r.len() ==> (#[trigger] r@[k]).0 as int == part_spans(v@)[k].0 && r@[k].1
                as int == part_spans(v@)[k].1 && r@[k].0 <= r@[k].1 <= v.len(),
{
    let mut r: Vec<(usize, usize)> = Vec::new();
    let mut start: usize = 0;
    let mut i: usize = 0;
    while i < v.len()
        invariant
            start <= i <= v.len(),
            start as int == part_scan(v@, i as nat).1,
            r.len() == part_scan(v@, i as nat).0.len(),
            forall|k: int|
                0 <= k < r.len() ==> (#[trigger] r@[k]).0 as int == part_scan(v@, i as nat).0[k].0
                    && r@[k].1 as int == part_scan(v@, i as nat).0[k].1 && r@[k].0 <= r@[k].1
                    <= i,
        decreases v.len() - i,
    {
        if is_whitespace(v[i]) {
            r.push((start, i + 1));
            start = i + 1;
        }
        i += 1;
    }
    if start < v.len() {
        r.push((start, v.len()));
    }
    r
}

/// Whitespace-separated tokens with their starting terminal column
/// (display-width aware, so columns stay correct past CJK text).
pub fn tokenize(text: &str) -> (r: Vec<(usize, String)>)
    ensures
        token_views(r@) == tokenize_spec(text@),
{
    let v = chars_of(text);
    let spans = part_spans_of(&v);
    let mut out: Vec<(usize, String)> = Vec::new();
    let mut col: usize = 0;
    let mut k: usize = 0;
    assert(token_views(out@) =~= tokens_upto(v@, 0));
    while k < spans.len()
        invariant
            k <= spans.len() == part_spans(v@).len(),
            v@ == text@,
            forall|j: int|
                0 <= j < spans.len() ==> (#[trigger] spans@[j]).0 as int == part_spans(v@)[j].0
                    && spans@[j].1 as int == part_spans(v@)[j].1 && spans@[j].0 <= spans@[j].1
                    <= v.len(),
            col == part_col(v@, k as nat),
            token_views(out@) == tokens_upto(v@, k as nat),
        decreases spans.len() - k,
    {
        let (a, b) = spans[k];
        let part = string_from_chars(&v, a, b);
        assert(part@ == part_at(v@, k as int));
        let e = trim_end_index(&v, a, b);
        if e > a {
            let token = string_from_chars(&v, a, e);
            out.push((col, token));
        }
        assert(token_views(out@) =~= tokens_upto(v@, (k + 1) as nat));
        let w = display_width(part.as_str());
        col = col.wrapping_add(w);
        k += 1;
    }
    out
}

/// `s` starts with `p`.
pub open spec fn starts_with(s: Seq<char>, p: Seq<char>) -> bool {
    s.len() >= p.len() && s.take(p.len() as int) == p
}

/// `s` without trailing characters that occur in `set`.
pub open spec fn trim_end_in(s: Seq<char>, set: Seq<char>) -> Seq<char>
    decreases s.len(),
{
    if s.len() > 0 && set.contains(s.last()) {
        trim_end_in(s.drop_last(), set)
    } else {
        s
    }
}

/// The link a token stands for: a URL without trailing `)`, `.`, `,`, `;`,
/// or an absolute or home-relative path (longer than `/`) without trailing
/// `:`, `.`, `,`.
pub open spec fn link_of(token: Seq<char>) -> Option<Seq<char>> {
    if starts_with(token, "http://"@) || starts_with(token, "https://"@) {
        Some(trim_end_in(token, seq![')', '.', ',', ';']))
    } else if (starts_with(token, "/"@) || starts_with(token, "~/"@)) && token.len() > 1 {
        Some(trim_end_in(token, seq![':', '.', ',']))
    } else {
        None
    }
}

/// The token `t` (with its start column) covers column `col`.
pub open spec fn covers(t: (usize, Seq<char>), col: usize) -> bool {
    col >= t.0 && col < wrap_add(t.0, str_width(t.1))
}

/// The first link among `toks[k..]` whose token covers `col`.
pub open spec fn link_from(toks: Seq<(usize, Seq<char>)>, col: usize, k: nat) -> Option<Seq<char>>
    decreases toks.len() - k,
{
    if k >= toks.len() {
        None
    } else if covers(toks[k as int], col) && link_of(toks[k as int].1) is Some {
        link_of(toks[k as int].1)
    } else {
        link_from(toks, col, k + 1)
    }
}

/// The URL or path under column `col` of a row.
pub open spec fn link_at_spec(row_text: Seq<char>, col: usize) -> Option<Seq<char>> {
    link_from(tokenize_spec(row_text), col, 0)
}

/// Whether `v` starts with the characters of `p`.
pub(crate) fn has_prefix(v: &Vec<char>, p: &str) -> (b: bool)
    ensures
        b == starts_with(v@, p@),
{
    let pv = chars_of(p);
    if pv.len() > v.len() {
        return false;
    }
    let mut i: usize = 0;
    while i < pv.len()
        invariant
            i <= pv.len() <= v.len(),
            pv@ == p@,
            v@.take(i as int) == pv@.take(i as int),
        decreases pv.len() - i,
    {
        if v[i] != pv[i] {
            assert(v@.take(pv.len() as int)[i as int] != pv@[i as int]);
            return false;
        }
        assert(v@.take(i + 1) =~= v@.take(i as int).push(v@[i as int]));
        assert(pv@.take(i + 1) =~= pv@.take(i as int).push(pv@[i as int]));
        i += 1;
    }
    assert(pv@.take(pv.len() as int) =~= pv@);
    true
}

/// The end of `v` once trailing characters that occur in `set` are dropped.
fn trim_end_in_index(v: &Vec<char>, set: &Vec<char>) -> (k: usize)
    ensures
        k <= v.len(),
        v@.take(k as int) == trim_end_in(v@, set@),
{
    let mut k = v.len();
    assert(v@.take(v.len() as int) =~= v@);
    while k > 0 && contains_char(set, v[k - 1])
        invariant
            k <= v.len(),
            trim_end_in(v@.take(k as int), set@) == trim_end_in(v@, set@),
        decreases k,
    {
        assert(v@.take(k as int).drop_last() =~= v@.take(k - 1));
        k -= 1;
    }
    k
}

fn contains_char(set: &Vec<char>, c: char) -> (b: bool)
    ensures
        b == set@.contains(c),
{
    let mut i: usize = 0;
    while i < set.len()
        invariant
            i <= set.len(),
            forall|j: int| 0 <= j < i ==> set@[j] != c,
        decreases set.len() - i,
    {
        if set[i] == c {
            return true;
        }
        i += 1;
    }
    false
}

/// The link a token stands for.
fn link_of_token(token: &String) -> (r: Option<String>)
    ensures
        match link_of(token@) {
            Some(l) => r matches Some(s) && s@ == l,
            None => r is None,
        },
{
    let v = chars_of(token.as_str());
    if has_prefix(&v, "http://") || has_prefix(&v, "https://") {
        let set = vec![')', '.', ',', ';'];
        assert(set@ =~= seq![')', '.', ',', ';']);
        let k = trim_end_in_index(&v, &set);
        let s = string_from_chars(&v, 0, k);
        assert(s@ =~= v@.take(k as int));
        return Some(s);
    }
    if (has_prefix(&v, "/") || has_prefix(&v, "~/")) && v.len() > 1 {
        let set = vec![':', '.', ','];
        assert(set@ =~= seq![':', '.', ',']);
        let k = trim_end_in_index(&v, &set);
        let s = string_from_chars(&v, 0, k);
        assert(s@ =~= v@.take(k as int));
        return Some(s);
    }
    None
}

/// Find a URL or absolute path span covering the given column.
pub fn link_at(row_text: &str, col: usize) -> (r: Option<String>)
    ensures
        match link_at_spec(row_text@, col) {
            Some(l) => r matches Some(s) && s@ == l,
            None => r is None,
        },
{
    let toks = tokenize(row_text);
    let ghost tv = token_views(toks@);
    let mut k: usize = 0;
    while k < toks.len()
        invariant
            k <= toks.len(),
            tv == token_views(toks@),
            tv == tokenize_spec(row_text@),
            link_from(tv, col, k as nat) == link_at_spec(row_text@, col),
        decreases toks.len() - k,
    {
        let start = toks[k].0;
        let len = display_width(toks[k].1.as_str());
        assert(tv[k as int] == (toks@[k as int].0, toks@[k as int].1@));
        if col >= start && col < start.wrapping_add(len) {
            match link_of_token(&toks[k].1) {
                Some(l) => {
                    return Some(l);
                },
                None => {},
            }
        }
        k += 1;
    }
    None
}


proof fn lemma_trim_keeps_prefix(p: Seq<char>, r: Seq<char>, set: Seq<char>)
    requires
        p.len() > 0,
        !set.contains(p.last()),
    ensures
        trim_end_in(p + r, set) == p + trim_end_in(r, set),
    decreases r.len(),
{
    if r.len() > 0 && set.contains(r.last()) {
        assert((p + r).drop_last() =~= p + r.drop_last());
        lemma_trim_keeps_prefix(p, r.drop_last(), set);
    } else if r.len() > 0 {
        assert((p + r).last() == r.last());
    } else {
        assert(p + r =~= p);
        assert(p + Seq::<char>::empty() =~= p);
    }
}

/// **Web links are links, `http://` as much as `https://`.** A token made
/// of either scheme and any rest is a link: the token with its trailing
/// `)`, `.`, `,` and `;` dropped (the scheme itself is never cut).
pub proof fn lemma_web_tokens_are_links(r: Seq<char>)
    ensures
        link_of("http://"@ + r) == Some("http://"@ + trim_end_in(r, seq![')', '.', ',', ';'])),
        link_of("https://"@ + r) == Some("https://"@ + trim_end_in(r, seq![')', '.', ',', ';'])),
{
    let set = seq![')', '.', ',', ';'];
    reveal_strlit("http://");
    reveal_strlit("https://");
    let a = "http://"@;
    let b = "https://"@;
    assert((a + r).take(a.len() as int) =~= a);
    assert((b + r).take(b.len() as int) =~= b);
    assert(!set.contains('/')) by {
        if set.contains('/') {
            let i = choose|i: int| 0 <= i < set.len() && set[i] == '/';
            assert(set[i] == '/');
        }
    }
    lemma_trim_keeps_prefix(a, r, set);
    lemma_trim_keeps_prefix(b, r, set);
}

proof fn lemma_link_from_skips(toks: Seq<(usize, Seq<char>)>, col: usize, j: nat, k: nat)
    requires
        j <= k < toks.len(),
        forall|i: int| j <= i < k ==> !covers(#[trigger] toks[i], col),
    ensures
        link_from(toks, col, j) == link_from(toks, col, k),
    decreases k - j,
{
    if j < k {
        lemma_link_from_skips(toks, col, j + 1, k);
    }
}

/// **The link under the pointer.** When the token covering column `col`
/// of a row (no earlier token covering it) starts with `http://` or
/// `https://`, that token is the link found there, less its trailing `)`,
/// `.`, `,` and `;`.
pub proof fn lemma_web_link_under_pointer(row_text: Seq<char>, col: usize, k: int, scheme: Seq<char>, r: Seq<char>)
    requires
        scheme == "http://"@ || scheme == "https://"@,
        0 <= k < tokenize_spec(row_text).len(),
        covers(tokenize_spec(row_text)[k], col),
        tokenize_spec(row_text)[k].1 == scheme + r,
        forall|i: int| 0 <= i < k ==> !covers(#[trigger] tokenize_spec(row_text)[i], col),
    ensures
        link_at_spec(row_text, col) == Some(scheme + trim_end_in(r, seq![')', '.', ',', ';'])),
{
    let toks = tokenize_spec(row_text);
    lemma_link_from_skips(toks, col, 0, k as nat);
    lemma_web_tokens_are_links(r);
}

} // verus!
