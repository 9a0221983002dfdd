//! The order in which a directory listing is shown: directories first, then
//! by lower-cased name; entries that compare equal keep their order.

use vstd::prelude::*;
use super::listing::{RemoteEntry, EntryView};
use crate::text::{chars_of, lowercase, to_lowercase};

verus! {

/// Lexicographic order of character sequences by code point (the order
/// `String` compares in, since UTF-8 keeps code-point order).
pub open spec fn chars_lt(a: Seq<char>, b: Seq<char>) -> bool
    decreases a.len(),
{
    if a.len() == 0 {
        b.len() > 0
    } else if b.len() == 0 {
        false
    } else if a[0] != b[0] {
        (a[0] as u32) < (b[0] as u32)
    } else {
        chars_lt(a.drop_first(), b.drop_first())
    }
}

/// What an entry is ordered by: whether it is a directory, and its
/// lower-cased name.
pub open spec fn sort_key(e: EntryView) -> (bool, Seq<char>) {
    (e.is_dir, lowercase(e.name))
}

/// Key `a` comes strictly before key `b`: directories first, then by name.
pub open spec fn key_lt(a: (bool, Seq<char>), b: (bool, Seq<char>)) -> bool {
    (a.0 && !b.0) || (a.0 == b.0 && chars_lt(a.1, b.1))
}

/// Entry `a` is shown strictly before entry `b`.
pub open spec fn listed_before(a: EntryView, b: EntryView) -> bool {
    key_lt(sort_key(a), sort_key(b))
}

/// No entry is shown strictly before an entry that precedes it.
pub open spec fn listing_sorted(s: Seq<EntryView>) -> bool {
    forall|i: int, j: int| 0 <= i < j < s.len() ==> !listed_before(#[trigger] s[j], #[trigger] s[i])
}

/// The entries of `s` whose key is `k`, in their order in `s`.
pub open spec fn with_key(s: Seq<EntryView>, k: (bool, Seq<char>)) -> Seq<EntryView> {
    s.filter(|e: EntryView| sort_key(e) == k)
}

/// The views of a vector of entries.
pub open spec fn entry_views(v: Seq<RemoteEntry>) -> Seq<EntryView> {
    v.map_values(|e: RemoteEntry| e@)
}

proof fn lemma_chars_lt_irreflexive(a: Seq<char>)
    ensures
        !chars_lt(a, a),
    decreases a.len(),
{
    if a.len() > 0 {
        lemma_chars_lt_irreflexive(a.drop_first());
    }
}

proof fn lemma_chars_lt_transitive(a: Seq<char>, b: Seq<char>, c: Seq<char>)
    requires
        chars_lt(a, b),
        chars_lt(b, c),
    ensures
        chars_lt(a, c),
    decreases a.len(),
{
    if a.len() > 0 && b.len() > 0 && c.len() > 0 && a[0] == b[0] && b[0] == c[0] {
        lemma_chars_lt_transitive(a.drop_first(), b.drop_first(), c.drop_first());
    }
}

proof fn lemma_chars_lt_total(a: Seq<char>, b: Seq<char>)
    requires
        a != b,
    ensures
        chars_lt(a, b) || chars_lt(b, a),
    decreases a.len(),
{
    if a.len() > 0 && b.len() > 0 && a[0] == b[0] {
        if a.drop_first() =~= b.drop_first() {
            assert forall|i: int| 0 <= i < a.len() implies a[i] == b[i] by {
                if i > 0 {
                    assert(a[i] == a.drop_first()[i - 1]);
                    assert(b[i] == b.drop_first()[i - 1]);
                }
            }
            assert(a =~= b);
        } else {
            lemma_chars_lt_total(a.drop_first(), b.drop_first());
        }
    } else if a.len() == 0 && b.len() == 0 {
        assert(a =~= b);
    } else if a.len() > 0 && b.len() > 0 {
        vstd::utf8::char_u32_cast(a[0], a[0] as u32);
        vstd::utf8::char_u32_cast(b[0], b[0] as u32);
    }
}

/// Keys are strictly and totally ordered by `key_lt`.
proof fn lemma_key_order(a: (bool, Seq<char>), b: (bool, Seq<char>), c: (bool, Seq<char>))
    ensures
        !key_lt(a, a),
        key_lt(a, b) && key_lt(b, c) ==> key_lt(a, c),
        a != b ==> key_lt(a, b) || key_lt(b, a),
{
    lemma_chars_lt_irreflexive(a.1);
    if key_lt(a, b) && key_lt(b, c) && a.0 == b.0 && b.0 == c.0 {
        lemma_chars_lt_transitive(a.1, b.1, c.1);
    }
    if a != b && a.0 == b.0 {
        lemma_chars_lt_total(a.1, b.1);
    }
}

/// `chars_lt` decided after a common prefix of length `i`.
proof fn lemma_chars_lt_skip(a: Seq<char>, b: Seq<char>, i: int)
    requires
        0 <= i <= a.len(),
        i <= b.len(),
        a.take(i) == b.take(i),
    ensures
        chars_lt(a, b) == chars_lt(a.skip(i), b.skip(i)),
    decreases i,
{
    if i > 0 {
        assert(a[0] == a.take(i)[0]);
        assert(b[0] == b.take(i)[0]);
        assert(a.drop_first().take(i - 1) =~= a.take(i).drop_first());
        assert(b.drop_first().take(i - 1) =~= b.take(i).drop_first());
        lemma_chars_lt_skip(a.drop_first(), b.drop_first(), i - 1);
        assert(a.drop_first().skip(i - 1) =~= a.skip(i));
        assert(b.drop_first().skip(i - 1) =~= b.skip(i));
    } else {
        assert(a.skip(0) =~= a);
        assert(b.skip(0) =~= b);
    }
}

/// Whether `a` comes strictly before `b` by code point.
fn chars_less(a: &Vec<char>, b: &Vec<char>) -> (r: bool)
    ensures
        r == chars_lt(a@, b@),
{
    let mut i: usize = 0;
    while i < a.len() && i < b.len() && a[i] == b[i]
        invariant
            i <= a.len(),
            i <= b.len(),
            a@.take(i as int) == b@.take(i as int),
        decreases a.len() - i,
    {
        assert(a@.take(i + 1) =~= a@.take(i as int).push(a@[i as int]));
        assert(b@.take(i + 1) =~= b@.take(i as int).push(b@[i as int]));
        i += 1;
    }
    proof {
        lemma_chars_lt_skip(a@, b@, i as int);
        let x = a@.skip(i as int);
        let y = b@.skip(i as int);
        if i < a.len() && i < b.len() {
            assert(x[0] == a@[i as int] && y[0] == b@[i as int]);
        }
    }
    if i == a.len() {
        i < b.len()
    } else if i == b.len() {
        false
    } else {
        (a[i] as u32) < (b[i] as u32)
    }
}

/// Entries whose keys all differ from `k` contribute nothing to `with_key`.
proof fn lemma_with_key_none(s: Seq<EntryView>, k: (bool, Seq<char>))
    requires
        forall|i: int| 0 <= i < s.len() ==> sort_key(#[trigger] s[i]) != k,
    ensures
        with_key(s, k) == Seq::<EntryView>::empty(),
    decreases s.len(),
{
    reveal(Seq::filter);
    if s.len() > 0 {
        lemma_with_key_none(s.drop_last(), k);
        assert(sort_key(s[s.len() - 1]) != k);
    }
}

proof fn lemma_with_key_push(s: Seq<EntryView>, x: EntryView, k: (bool, Seq<char>))
    ensures
        with_key(s.push(x), k) == if sort_key(x) == k {
            with_key(s, k).push(x)
        } else {
            with_key(s, k)
        },
{
    reveal(Seq::filter);
    assert(s.push(x).drop_last() =~= s);
}

proof fn lemma_with_key_concat(a: Seq<EntryView>, b: Seq<EntryView>, k: (bool, Seq<char>))
    ensures
        with_key(a + b, k) == with_key(a, k) + with_key(b, k),
    decreases b.len(),
{
    if b.len() == 0 {
        assert(a + b =~= a);
        lemma_with_key_none(b, k);
        assert(with_key(a, k) + with_key(b, k) =~= with_key(a, k));
    } else {
        let c = b.drop_last();
        assert(a + b =~= (a + c).push(b.last()));
        assert(b =~= c.push(b.last()));
        lemma_with_key_push(a + c, b.last(), k);
        lemma_with_key_push(c, b.last(), k);
        lemma_with_key_concat(a, c, k);
        if sort_key(b.last()) == k {
            assert(with_key(a, k) + with_key(c, k).push(b.last()) =~= (with_key(a, k) + with_key(
                c,
                k,
            )).push(b.last()));
        }
    }
}

/// Whether the entry with directory flag `dx` and lower-cased name `lx` is
/// shown strictly before the one with `dy` and `ly`.
pub fn key_less(dx: bool, lx: &Vec<char>, dy: bool, ly: &Vec<char>) -> (r: bool)
    ensures
        r == key_lt((dx, lx@), (dy, ly@)),
{
    if dx && !dy {
        true
    } else if dx == dy {
        chars_less(lx, ly)
    } else {
        false
    }
}

/// Order `entries` for display: directories first, then by lower-cased
/// name, entries with equal keys in their original order.
pub fn sort_entries(entries: Vec<RemoteEntry>) -> (r: Vec<RemoteEntry>)
    ensures
        listing_sorted(entry_views(r@)),
        forall|k: (bool, Seq<char>)|
            #[trigger] with_key(entry_views(r@), k) == with_key(entry_views(entries@), k),
{
    let ghost input = entry_views(entries@);
    let mut rest = entries;
    let mut out: Vec<RemoteEntry> = Vec::new();
    let mut lows: Vec<Vec<char>> = Vec::new();
    let ghost mut done: int = 0;
    assert(entry_views(rest@) =~= input.skip(0));
    assert(entry_views(out@) =~= input.take(0));
    while rest.len() > 0
        invariant
            0 <= done <= input.len(),
            entry_views(rest@) == input.skip(done),
            out.len() == lows.len(),
            forall|j: int| 0 <= j < out.len() ==> (#[trigger] lows@[j])@ == lowercase(out@[j].name@),
            listing_sorted(entry_views(out@)),
            forall|k: (bool, Seq<char>)|
                #[trigger] with_key(entry_views(out@), k) == with_key(input.take(done), k),
        decreases rest.len(),
    {
        let ghost old_rest = rest@;
        let e = rest.remove(0);
        let ghost ev = e@;
        proof {
            assert(entry_views(old_rest).len() == old_rest.len());
            assert(done < input.len());
            assert(entry_views(old_rest)[0] == old_rest[0]@);
            assert(input.skip(done)[0] == input[done]);
            assert(ev == input[done]);
            assert forall|i: int| 0 <= i < rest@.len() implies #[trigger] entry_views(rest@)[i]
                == input.skip(done + 1)[i] by {
                assert(rest@[i] == old_rest[i + 1]);
                assert(entry_views(old_rest)[i + 1] == old_rest[i + 1]@);
                assert(input.skip(done)[i + 1] == input.skip(done + 1)[i]);
            }
            assert(entry_views(rest@) =~= input.skip(done + 1));
        }
        let low = chars_of(to_lowercase(e.name.as_str()).as_str());
        let ghost kx = sort_key(ev);
        assert(kx == (ev.is_dir, low@));
        let ghost olds = entry_views(out@);
        let mut p: usize = 0;
        while p < out.len() && !key_less(e.is_dir, &low, out[p].is_dir, &lows[p])
            invariant
                p <= out.len() == lows.len(),
                olds == entry_views(out@),
                kx == (e.is_dir, low@),
                forall|j: int| 0 <= j < out.len() ==> (#[trigger] lows@[j])@ == lowercase(out@[j].name@),
                forall|j: int| 0 <= j < p ==> !key_lt(kx, sort_key(#[trigger] olds[j])),
            decreases out.len() - p,
        {
            assert(olds[p as int] == out@[p as int]@);
            p += 1;
        }
        proof {
            if p < out.len() {
                assert(olds[p as int] == out@[p as int]@);
                assert(key_lt(kx, sort_key(olds[p as int])));
            }
            assert forall|j: int| p <= j < olds.len() implies key_lt(kx, sort_key(#[trigger] olds[j]))
                by {
                lemma_key_order(kx, sort_key(olds[p as int]), sort_key(olds[j]));
                lemma_key_order(sort_key(olds[p as int]), sort_key(olds[j]), kx);
                if j > p {
                    assert(!listed_before(olds[j], olds[p as int]));
                }
            }
        }
        out.insert(p, e);
        lows.insert(p, low);
        let ghost news = entry_views(out@);
        proof {
            assert(news =~= olds.insert(p as int, ev));
            assert forall|i: int, j: int| 0 <= i < j < news.len() implies !listed_before(
                #[trigger] news[j],
                #[trigger] news[i],
            ) by {
                if j < p {
                    assert(news[i] == olds[i] && news[j] == olds[j]);
                } else if j == p {
                    assert(news[i] == olds[i]);
                } else if i == p {
                    assert(news[j] == olds[j - 1]);
                    lemma_key_order(sort_key(olds[j - 1]), kx, kx);
                    lemma_key_order(kx, sort_key(olds[j - 1]), kx);
                } else if i < p {
                    assert(news[i] == olds[i] && news[j] == olds[j - 1]);
                } else {
                    assert(news[i] == olds[i - 1] && news[j] == olds[j - 1]);
                }
            }
            assert forall|j: int| 0 <= j < out.len() implies (#[trigger] lows@[j])@ == lowercase(
                out@[j].name@,
            ) by {
                if j < p {
                } else if j == p {
                } else {
                }
            }
            let a = olds.take(p as int);
            let b = olds.skip(p as int);
            assert(olds =~= a + b);
            assert(news =~= a + seq![ev] + b);
            assert(input.take(done + 1) =~= input.take(done).push(ev));
            assert forall|k: (bool, Seq<char>)|
                #[trigger] with_key(news, k) == with_key(input.take(done + 1), k) by {
                lemma_with_key_concat(a + seq![ev], b, k);
                lemma_with_key_concat(a, seq![ev], k);
                lemma_with_key_concat(a, b, k);
                lemma_with_key_push(input.take(done), ev, k);
                lemma_with_key_push(Seq::<EntryView>::empty(), ev, k);
                lemma_with_key_none(Seq::<EntryView>::empty(), k);
                assert(Seq::<EntryView>::empty().push(ev) =~= seq![ev]);
                assert(with_key(olds, k) == with_key(input.take(done), k));
                if k == kx {
                    assert forall|i: int| 0 <= i < b.len() implies sort_key(#[trigger] b[i]) != k by {
                        assert(b[i] == olds[p + i]);
                        lemma_key_order(kx, kx, kx);
                    }
                    lemma_with_key_none(b, k);
                    assert(with_key(a, k) + seq![ev] + Seq::<EntryView>::empty() =~= (with_key(a, k)
                        + Seq::<EntryView>::empty()).push(ev));
                } else {
                    assert(with_key(a, k) + Seq::<EntryView>::empty() + with_key(b, k) =~= with_key(
                        a,
                        k,
                    ) + with_key(b, k));
                }
            }
            done = done + 1;
        }
    }
    proof {
        assert(input.take(done) =~= input);
    }
    out
}

} // verus!
