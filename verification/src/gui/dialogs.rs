//! Modal state and the command palette: which entries it offers, how a
//! query filters them, and how they are grouped.

use vstd::prelude::*;
use crate::config::Snippet;
use crate::gui::theme::{THEME_COUNT, theme_name, theme_name_spec};
use vstd::arithmetic::div_mod::lemma_div_denominator;
use crate::text::{lines_spec, split_lines, trimmed, dec_chars, push_dec_chars, chars_of, trim, trim_start_index, trim_end_index, string_from_chars,
    push_str_chars, lowercase, to_lowercase};

verus! {

#[verifier::external_type_specification]
#[verifier::external_body]
pub struct ExPathBuf(std::path::PathBuf);

/// Modal ownership: while any modal is open, terminal input is not forwarded.
pub enum Modal {
    Closed,
    /// The keyboard and feature overview.
    Help,
    AddSnippet { name: String, command: String },
    Paste { text: String },
    UploadConfirm { paths: Vec<std::path::PathBuf>, folder: String },
    TabSearch { query: String },
    Palette { query: String, selected: usize },
}

impl Modal {
    pub fn is_open(&self) -> (b: bool)
        ensures
            b == !(self is Closed),
    {
        match self {
            Modal::Closed => false,
            _ => true,
        }
    }
}

pub enum PasteAction {
    NoAction,
    Send,
    SendLineByLine,
    Cancel,
}

pub enum UploadAction {
    NoAction,
    Confirm,
    Cancel,
}

/// Command palette actions.
#[derive(Debug, Clone, Copy, PartialEq, Eq, Structural)]
pub enum PaletteAction {
    NoAction,
    Close,
    NewTab,
    CloseTab,
    SearchTabs,
    ToggleFocus,
    ToggleSync,
    OpenHelp,
    OpenFileTools,
    SetTheme(usize),
    RunSnippet(usize),
}

/// The entries every palette starts with.
pub open spec fn fixed_entries() -> Seq<(Seq<char>, PaletteAction)> {
    seq![
        ("New tab"@, PaletteAction::NewTab),
        ("Close tab"@, PaletteAction::CloseTab),
        ("Search tabs"@, PaletteAction::SearchTabs),
        ("Toggle focus mode"@, PaletteAction::ToggleFocus),
        ("Toggle sync input"@, PaletteAction::ToggleSync),
        ("Open help"@, PaletteAction::OpenHelp),
        ("Open file tools"@, PaletteAction::OpenFileTools),
    ]
}

/// One entry per built-in theme.
pub open spec fn theme_entries() -> Seq<(Seq<char>, PaletteAction)> {
    Seq::new(
        THEME_COUNT as nat,
        |i: int| ("Theme: "@ + theme_name_spec(i), PaletteAction::SetTheme(i as usize)),
    )
}

/// One entry per snippet, by name.
pub open spec fn snippet_entries(names: Seq<Seq<char>>) -> Seq<(Seq<char>, PaletteAction)> {
    Seq::new(names.len(), |i: int| ("Snippet: "@ + names[i], PaletteAction::RunSnippet(i as usize)))
}

/// All palette entries, in display order.
pub open spec fn palette_spec(names: Seq<Seq<char>>) -> Seq<(Seq<char>, PaletteAction)> {
    fixed_entries() + theme_entries() + snippet_entries(names)
}

/// The names of snippets.
pub open spec fn snippet_names(s: Seq<Snippet>) -> Seq<Seq<char>> {
    s.map_values(|x: Snippet| x.name@)
}

/// The views of palette entries.
pub open spec fn entry_views(e: Seq<(String, PaletteAction)>) -> Seq<(Seq<char>, PaletteAction)> {
    e.map_values(|x: (String, PaletteAction)| (x.0@, x.1))
}

fn labelled(prefix: &str, name: &str) -> (r: String)
    ensures
        r@ == prefix@ + name@,
{
    let mut r = String::new();
    push_str_chars(&mut r, prefix);
    push_str_chars(&mut r, name);
    r
}

fn owned(s: &str) -> (r: String)
    ensures
        r@ == s@,
{
    let mut r = String::new();
    push_str_chars(&mut r, s);
    r
}

/// All palette entries for the current snippets, in display order.
pub fn palette_entries(snippets: &Vec<Snippet>) -> (r: Vec<(String, PaletteAction)>)
    ensures
        entry_views(r@) == palette_spec(snippet_names(snippets@)),
{
    let mut entries: Vec<(String, PaletteAction)> = Vec::new();
    entries.push((owned("New tab"), PaletteAction::NewTab));
    entries.push((owned("Close tab"), PaletteAction::CloseTab));
    entries.push((owned("Search tabs"), PaletteAction::SearchTabs));
    entries.push((owned("Toggle focus mode"), PaletteAction::ToggleFocus));
    entries.push((owned("Toggle sync input"), PaletteAction::ToggleSync));
    entries.push((owned("Open help"), PaletteAction::OpenHelp));
    entries.push((owned("Open file tools"), PaletteAction::OpenFileTools));
    assert(entry_views(entries@) =~= fixed_entries());
    let mut i: usize = 0;
    while i < THEME_COUNT
        invariant
            i <= THEME_COUNT,
            entry_views(entries@) == fixed_entries() + theme_entries().take(i as int),
        decreases THEME_COUNT - i,
    {
        let ghost old = entries@;
        let label = labelled("Theme: ", theme_name(i));
        let ghost x = (label@, PaletteAction::SetTheme(i));
        entries.push((label, PaletteAction::SetTheme(i)));
        assert(entry_views(entries@) =~= entry_views(old).push(x));
        assert(theme_entries()[i as int] == x);
        assert(theme_entries().take(i + 1) =~= theme_entries().take(i as int).push(x));
        assert(entry_views(entries@) =~= fixed_entries() + theme_entries().take(i + 1));
        i += 1;
    }
    assert(theme_entries().take(THEME_COUNT as int) =~= theme_entries());
    let ghost names = snippet_names(snippets@);
    let mut j: usize = 0;
    while j < snippets.len()
        invariant
            j <= snippets.len(),
            names == snippet_names(snippets@),
            entry_views(entries@) == fixed_entries() + theme_entries() + snippet_entries(names).take(
                j as int,
            ),
        decreases snippets.len() - j,
    {
        let ghost old = entries@;
        let label = labelled("Snippet: ", snippets[j].name.as_str());
        let ghost x = (label@, PaletteAction::RunSnippet(j));
        entries.push((label, PaletteAction::RunSnippet(j)));
        assert(entry_views(entries@) =~= entry_views(old).push(x));
        assert(names[j as int] == snippets@[j as int].name@);
        assert(snippet_entries(names)[j as int] == x);
        assert(snippet_entries(names).take(j + 1) =~= snippet_entries(names).take(j as int).push(x));
        assert(entry_views(entries@) =~= fixed_entries() + theme_entries() + snippet_entries(
            names,
        ).take(j + 1));
        j += 1;
    }
    assert(snippet_entries(names).take(snippets.len() as int) =~= snippet_entries(names));
    entries
}

/// `needle` occurs in `hay`.
pub open spec fn contains_seq(hay: Seq<char>, needle: Seq<char>) -> bool {
    exists|i: int| 0 <= i && i + needle.len() <= hay.len() && #[trigger] hay.subrange(i, i + needle.len()) == needle
}

pub(crate) fn contains_chars(hay: &Vec<char>, needle: &Vec<char>) -> (b: bool)
    ensures
        b == contains_seq(hay@, needle@),
{
    if needle.len() > hay.len() {
        return false;
    }
    let mut i: usize = 0;
    while i <= hay.len() - needle.len()
        invariant
            needle.len() <= hay.len(),
            i <= hay.len() - needle.len() + 1,
            forall|k: int| 0 <= k < i ==> #[trigger] hay@.subrange(k, k + needle.len()) != needle@,
        decreases hay.len() - i,
    {
        let mut j: usize = 0;
        while j < needle.len() && hay[i + j] == needle[j]
            invariant
                j <= needle.len(),
                i + needle.len() <= hay.len(),
                forall|m: int| 0 <= m < j ==> hay@[i + m] == needle@[m],
            decreases needle.len() - j,
        {
            j += 1;
        }
        if j == needle.len() {
            assert(hay@.subrange(i as int, i + needle.len()) =~= needle@);
            return true;
        }
        assert(hay@.subrange(i as int, i + needle.len())[j as int] != needle@[j as int]);
        i += 1;
    }
    proof {
        assert forall|k: int| 0 <= k && k + needle.len() <= hay.len() implies #[trigger] hay@.subrange(
            k,
            k + needle.len(),
        ) != needle@ by {
            assert(k < i);
        }
    }
    false
}

/// The entry with label `label` is shown for the lower-cased, trimmed
/// query `q`.
pub open spec fn palette_hit(label: Seq<char>, q: Seq<char>) -> bool {
    q.len() == 0 || contains_seq(lowercase(label), q)
}

/// The indices `i < n` of the labels that the query `q` keeps, in order.
pub open spec fn hits_upto(labels: Seq<Seq<char>>, q: Seq<char>, n: nat) -> Seq<usize>
    decreases n,
{
    if n == 0 {
        Seq::empty()
    } else {
        let prev = hits_upto(labels, q, (n - 1) as nat);
        if palette_hit(labels[n - 1], q) {
            prev.push((n - 1) as usize)
        } else {
            prev
        }
    }
}

proof fn lemma_empty_query_keeps_all(labels: Seq<Seq<char>>, q: Seq<char>, n: nat)
    requires
        q.len() == 0,
    ensures
        hits_upto(labels, q, n) == Seq::new(n, |i: int| i as usize),
    decreases n,
{
    if n > 0 {
        lemma_empty_query_keeps_all(labels, q, (n - 1) as nat);
        assert(Seq::new(n, |i: int| i as usize) =~= Seq::new((n - 1) as nat, |i: int| i as usize).push(
            (n - 1) as usize,
        ));
    } else {
        assert(hits_upto(labels, q, n) =~= Seq::new(n, |i: int| i as usize));
    }
}

/// Case-insensitive substring filter; returns indices into `entries`. A
/// blank query keeps every entry.
pub fn filter_palette(entries: &Vec<(String, PaletteAction)>, query: &str) -> (r: Vec<usize>)
    ensures
        r@ == hits_upto(entry_views(entries@).map_values(|e: (Seq<char>, PaletteAction)| e.0),
            lowercase(trim(query@)), entries.len() as nat),
        trim(query@).len() == 0 ==> r@ == Seq::new(entries.len() as nat, |i: int| i as usize),
{
    let ghost labels = entry_views(entries@).map_values(|e: (Seq<char>, PaletteAction)| e.0);
    let qv = chars_of(query);
    let a = trim_start_index(&qv, 0, qv.len());
    let b = trim_end_index(&qv, a, qv.len());
    proof {
        assert(qv@.subrange(0, qv@.len() as int) =~= qv@);
    }
    let trimmed = string_from_chars(&qv, a, b);
    let q = chars_of(to_lowercase(trimmed.as_str()).as_str());
    let ghost qs = lowercase(trim(query@));
    assert(q@ == qs);
    let mut out: Vec<usize> = Vec::new();
    let mut i: usize = 0;
    while i < entries.len()
        invariant
            i <= entries.len(),
            labels == entry_views(entries@).map_values(|e: (Seq<char>, PaletteAction)| e.0),
            q@ == qs,
            out@ == hits_upto(labels, qs, i as nat),
        decreases entries.len() - i,
    {
        assert(labels[i as int] == entries@[i as int].0@);
        let keep = if q.len() == 0 {
            true
        } else {
            let l = chars_of(to_lowercase(entries[i].0.as_str()).as_str());
            contains_chars(&l, &q)
        };
        if keep {
            out.push(i);
        }
        i += 1;
    }
    proof {
        if trim(query@).len() == 0 {
            assert(trimmed@.len() == 0);
            lemma_empty_query_keeps_all(labels, qs, entries.len() as nat);
        }
    }
    out
}

/// Which group a palette entry displays under.
pub fn group_of(action: PaletteAction) -> (r: &'static str)
    ensures
        r@ == match action {
            PaletteAction::SearchTabs => "NAVIGATE"@,
            PaletteAction::NewTab | PaletteAction::CloseTab | PaletteAction::ToggleFocus
            | PaletteAction::ToggleSync => "SESSION"@,
            _ => "TOOLS"@,
        },
{
    match action {
        PaletteAction::SearchTabs => "NAVIGATE",
        PaletteAction::NewTab | PaletteAction::CloseTab | PaletteAction::ToggleFocus
        | PaletteAction::ToggleSync => "SESSION",
        _ => "TOOLS",
    }
}

/// The bound shortcut shown at the right of a palette row, if any.
pub fn shortcut_for(action: PaletteAction) -> (r: Option<&'static str>)
    ensures
        match action {
            PaletteAction::SearchTabs => r matches Some(s) && s@ == "Ctrl Shift P"@,
            PaletteAction::ToggleFocus => r matches Some(s) && s@ == "F11"@,
            PaletteAction::OpenFileTools => r matches Some(s) && s@ == "Ctrl Shift K"@,
            _ => r is None,
        },
{
    match action {
        PaletteAction::SearchTabs => Some("Ctrl Shift P"),
        PaletteAction::ToggleFocus => Some("F11"),
        PaletteAction::OpenFileTools => Some("Ctrl Shift K"),
        _ => None,
    }
}

/// `n / d` rounded to the nearest integer, ties to the even neighbour.
pub open spec fn round_half_even(n: nat, d: nat) -> nat {
    let q = n / d;
    let r = n % d;
    if 2 * r > d || (2 * r == d && q % 2 == 1) {
        q + 1
    } else {
        q
    }
}

/// `2` to the power `k`.
pub open spec fn p2(k: nat) -> nat
    decreases k,
{
    if k == 0 {
        1
    } else {
        2 * p2((k - 1) as nat)
    }
}

/// How many low bits `n` loses when held in the 53-bit significand of an
/// `f64`.
pub open spec fn shift53(n: nat) -> nat
    decreases n,
{
    if n < 0x20000000000000 {
        0
    } else {
        1 + shift53(n / 2)
    }
}

/// The value of `n as f64`: `n` rounded to the nearest number with 53
/// significant bits, ties to even.
pub open spec fn f64_of(n: nat) -> nat {
    round_half_even(n, p2(shift53(n))) * p2(shift53(n))
}

/// `t` tenths written with one decimal, then `unit`.
pub open spec fn tenths_text(t: nat, unit: Seq<char>) -> Seq<char> {
    dec_chars(t / 10) + seq!['.'] + dec_chars(t % 10) + unit
}

/// A byte count for people: whole bytes below 1 KiB, else KiB or MiB with
/// one decimal, the way `{:.1}` writes the `f64` quotient (rounded to
/// nearest, ties to even).
pub open spec fn human_size_spec(bytes: u64) -> Seq<char> {
    if bytes >= 1048576 {
        tenths_text(round_half_even(f64_of(bytes as nat) * 10, 1048576), " MiB"@)
    } else if bytes >= 1024 {
        tenths_text(round_half_even(bytes as nat * 10, 1024), " KiB"@)
    } else {
        dec_chars(bytes as nat) + " B"@
    }
}

fn round_half_even_u128(n: u128, d: u128) -> (r: u128)
    requires
        0 < d <= 0x100000,
        n < 0x1000000000000000000000000000000,
    ensures
        r == round_half_even(n as nat, d as nat),
{
    let q = n / d;
    let m = n % d;
    if 2 * m > d || (2 * m == d && q % 2 == 1) {
        q + 1
    } else {
        q
    }
}

proof fn lemma_p2_mono(a: nat, b: nat)
    requires
        a <= b,
    ensures
        p2(a) <= p2(b),
    decreases b,
{
    if a < b {
        lemma_p2_mono(a, (b - 1) as nat);
    }
}

proof fn lemma_p2_eleven()
    ensures
        p2(11) == 2048,
{
    reveal_with_fuel(p2, 12);
}

/// `n as f64`, as an integer.
fn f64_value(n: u64) -> (r: u128)
    ensures
        r == f64_of(n as nat),
        r <= 0x10000000000000000,
{
    let mut m: u64 = n;
    let mut k: u32 = 0;
    let mut p: u128 = 1;
    while m >= 0x20000000000000
        invariant
            k <= 11,
            p == p2(k as nat),
            p >= 1,
            m as nat == n as nat / p as nat,
            k + shift53(m as nat) == shift53(n as nat),
            m as nat * p as nat <= n as nat,
        decreases m,
    {
        proof {
            lemma_div_denominator(n as int, p as int, 2);
            lemma_p2_eleven();
            assert(p * 0x20000000000000 <= n) by (nonlinear_arith)
                requires
                    m >= 0x20000000000000,
                    m as nat * p as nat <= n as nat,
            ;
            if k >= 11 {
                lemma_p2_mono(11, k as nat);
            }
        }
        m = m / 2;
        k = k + 1;
        p = p * 2;
        proof {
            assert(m as nat * p as nat <= n as nat) by (nonlinear_arith)
                requires
                    m as nat == n as nat / p as nat,
                    p >= 1,
            ;
        }
    }
    proof {
        lemma_p2_eleven();
        lemma_p2_mono(k as nat, 11);
    }
    let t = round_half_even_u128(n as u128, p);
    proof {
        assert(t <= m + 1);
        assert((m as nat + 1) * p as nat <= 0x10000000000000000) by (nonlinear_arith)
            requires
                m < 0x20000000000000,
                p <= 2048,
        ;
    }
    t * p
}

/// Append `t` tenths with one decimal, then `unit`.
fn push_tenths(out: &mut String, t: u64, unit: &str)
    ensures
        final(out)@ == old(out)@ + tenths_text(t as nat, unit@),
{
    push_dec_chars(out, t / 10);
    out.push('.');
    push_dec_chars(out, t % 10);
    push_str_chars(out, unit);
    assert(final(out)@ =~= old(out)@ + tenths_text(t as nat, unit@));
}

pub fn human_size(bytes: u64) -> (r: String)
    ensures
        r@ == human_size_spec(bytes),
{
    let mut out = String::new();
    if bytes >= 1048576 {
        let v = f64_value(bytes);
        let t = round_half_even_u128(v * 10, 1048576);
        proof {
            assert(t <= v * 10 / 1048576 + 1);
        }
        push_tenths(&mut out, t as u64, " MiB");
    } else if bytes >= 1024 {
        let t = round_half_even_u128(bytes as u128 * 10, 1024);
        proof {
            assert(t <= bytes * 10 / 1024 + 1);
        }
        push_tenths(&mut out, t as u64, " KiB");
    } else {
        push_dec_chars(&mut out, bytes);
        push_str_chars(&mut out, " B");
    }
    out
}

/// Where a group is shown: navigation first, then session, then tools.
pub open spec fn group_rank(a: PaletteAction) -> nat {
    match a {
        PaletteAction::SearchTabs => 0,
        PaletteAction::NewTab | PaletteAction::CloseTab | PaletteAction::ToggleFocus
        | PaletteAction::ToggleSync => 1,
        _ => 2,
    }
}

/// The indices of `hits` whose entries are in the group of rank `r`, in
/// order.
pub open spec fn hits_in_rank(
    entries: Seq<(Seq<char>, PaletteAction)>,
    hits: Seq<usize>,
    r: nat,
) -> Seq<usize> {
    hits.filter(|i: usize| group_rank(entries[i as int].1) == r)
}

/// What the palette shows, in order: the entries the query keeps, grouped
/// by rank (a stable sort by group), each group in entry order.
pub open spec fn palette_view_spec(
    entries: Seq<(Seq<char>, PaletteAction)>,
    hits: Seq<usize>,
) -> Seq<usize> {
    hits_in_rank(entries, hits, 0) + hits_in_rank(entries, hits, 1) + hits_in_rank(entries, hits, 2)
}

fn rank_of(a: PaletteAction) -> (r: u8)
    ensures
        r as nat == group_rank(a),
{
    match a {
        PaletteAction::SearchTabs => 0,
        PaletteAction::NewTab | PaletteAction::CloseTab | PaletteAction::ToggleFocus
        | PaletteAction::ToggleSync => 1,
        _ => 2,
    }
}

proof fn lemma_hits_below(labels: Seq<Seq<char>>, q: Seq<char>, n: nat)
    requires
        n <= usize::MAX,
    ensures
        forall|k: int| 0 <= k < hits_upto(labels, q, n).len() ==> (#[trigger] hits_upto(labels, q, n)[k]) < n,
    decreases n,
{
    if n > 0 {
        lemma_hits_below(labels, q, (n - 1) as nat);
        let prev = hits_upto(labels, q, (n - 1) as nat);
        let cur = hits_upto(labels, q, n);
        assert forall|k: int| 0 <= k < cur.len() implies (#[trigger] cur[k]) < n by {
            if k < prev.len() {
                assert(cur[k] == prev[k]);
            } else {
                assert(cur[k] == (n - 1) as usize);
            }
        }
    }
}

/// The visible entries of the palette for a query, grouped for display.
pub fn palette_view(entries: &Vec<(String, PaletteAction)>, query: &str) -> (v: Vec<usize>)
    ensures
        v@ == palette_view_spec(
            entry_views(entries@),
            hits_upto(
                entry_views(entries@).map_values(|e: (Seq<char>, PaletteAction)| e.0),
                lowercase(trim(query@)),
                entries.len() as nat,
            ),
        ),
{
    let hits = filter_palette(entries, query);
    let ghost ev = entry_views(entries@);
    proof {
        lemma_hits_below(
            entry_views(entries@).map_values(|e: (Seq<char>, PaletteAction)| e.0),
            lowercase(trim(query@)),
            entries.len() as nat,
        );
    }
    let mut out: Vec<usize> = Vec::new();
    let mut r: u8 = 0;
    while r < 3
        invariant
            r <= 3,
            ev == entry_views(entries@),
            forall|k: int| 0 <= k < hits@.len() ==> (#[trigger] hits@[k]) < entries@.len(),
            out@ == if r == 0 {
                Seq::<usize>::empty()
            } else if r == 1 {
                hits_in_rank(ev, hits@, 0)
            } else if r == 2 {
                hits_in_rank(ev, hits@, 0) + hits_in_rank(ev, hits@, 1)
            } else {
                palette_view_spec(ev, hits@)
            },
        decreases 3 - r,
    {
        let ghost start = out@;
        let mut k: usize = 0;
        while k < hits.len()
            invariant
                k <= hits.len(),
                r < 3,
                ev == entry_views(entries@),
                forall|m: int| 0 <= m < hits@.len() ==> (#[trigger] hits@[m]) < entries@.len(),
                out@ == start + hits_in_rank(ev, hits@.take(k as int), r as nat),
            decreases hits.len() - k,
        {
            let i = hits[k];
            proof {
                reveal(Seq::filter);
                assert(hits@.take(k + 1).drop_last() =~= hits@.take(k as int));
                assert(ev[i as int].1 == entries@[i as int].1);
            }
            if rank_of(entries[i].1) == r {
                out.push(i);
            }
            assert(out@ =~= start + hits_in_rank(ev, hits@.take(k + 1), r as nat));
            k += 1;
        }
        assert(hits@.take(hits.len() as int) =~= hits@);
        r += 1;
    }
    out
}

/// The selected row once the list has `len` rows: at most the last one.
pub open spec fn clamped(selected: usize, len: usize) -> usize {
    let last = if len == 0 {
        0usize
    } else {
        (len - 1) as usize
    };
    if selected < last {
        selected
    } else {
        last
    }
}

/// Keep the palette's selection on a visible row.
pub fn clamp_selection(selected: usize, len: usize) -> (r: usize)
    ensures
        r == clamped(selected, len),
{
    let last = len.saturating_sub(1);
    if selected < last {
        selected
    } else {
        last
    }
}

/// Move the palette's selection one row down (stopping at the last row) or
/// up (stopping at the first).
pub fn move_selection(selected: usize, len: usize, down: bool) -> (r: usize)
    requires
        down ==> selected < usize::MAX,
    ensures
        r == if down {
            clamped((selected + 1) as usize, len)
        } else {
            (if selected > 0 {
                selected - 1
            } else {
                0
            }) as usize
        },
{
    if down {
        clamp_selection(selected + 1, len)
    } else {
        selected.saturating_sub(1)
    }
}


/// The question the paste dialog asks about a text of several lines.
pub open spec fn paste_prompt_spec(text: Seq<char>) -> Seq<char> {
    "Clipboard contains "@ + dec_chars(lines_spec(text).len()) + " lines. Choose how to send them."@
}

/// The paste dialog's question, counting the lines as `str::lines` does.
pub fn paste_prompt(text: &str) -> (r: String)
    ensures
        r@ == paste_prompt_spec(text@),
{
    let lines = split_lines(text);
    let mut r = String::new();
    push_str_chars(&mut r, "Clipboard contains ");
    push_dec_chars(&mut r, lines.len() as u64);
    push_str_chars(&mut r, " lines. Choose how to send them.");
    r
}

/// What saving the new-snippet form gives: the trimmed name and command,
/// when neither is blank.
pub fn snippet_form_result(name: &str, command: &str) -> (r: Option<(String, String)>)
    ensures
        match r {
            Some((n, c)) => n@ == trim(name@) && c@ == trim(command@) && n@.len() > 0 && c@.len() > 0,
            None => trim(name@).len() == 0 || trim(command@).len() == 0,
        },
{
    let n = trimmed(name);
    let c = trimmed(command);
    if n.as_str().is_empty() || c.as_str().is_empty() {
        None
    } else {
        Some((n, c))
    }
}

/// Whether the upload dialog can upload: its folder name is not blank.
pub fn upload_allowed(folder: &str) -> (b: bool)
    ensures
        b == (trim(folder@).len() > 0),
{
    !trimmed(folder).as_str().is_empty()
}

} // verus!
