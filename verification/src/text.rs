//! Character-level helpers for strings: conversion to and from character
//! vectors, Unicode white space, and trimming.

use vstd::prelude::*;

verus! {

broadcast use vstd::string::group_string_axioms;

/// `String::push` appends one character (std documents: "Appends the given
/// char to the end of this String").
pub assume_specification[ String::push ](s: &mut String, ch: char)
    ensures
        final(s)@ == old(s)@.push(ch),
;

/// The characters of `s`.
pub fn chars_of(s: &str) -> (v: Vec<char>)
    ensures
        v@ == s@,
{
    let mut v: Vec<char> = Vec::new();
    for c in it: s.chars()
        invariant
            v@ == it.seq().take(it.index()),
    {
        v.push(c);
        assert(v@ =~= it.seq().take(it.index() + 1));
    }
    assert(v@ =~= s@);
    v
}

/// A string holding the characters `v[from..to]`.
pub fn string_from_chars(v: &Vec<char>, from: usize, to: usize) -> (s: String)
    requires
        from <= to <= v.len(),
    ensures
        s@ == v@.subrange(from as int, to as int),
{
    let mut s = String::new();
    let mut i: usize = from;
    while i < to
        invariant
            from <= i <= to <= v.len(),
            s@ == v@.subrange(from as int, i as int),
        decreases to - i,
    {
        s.push(v[i]);
        i += 1;
        assert(s@ =~= v@.subrange(from as int, i as int));
    }
    s
}

/// Unicode `White_Space`, the property `char::is_whitespace` reports.
pub open spec fn is_ws(c: char) -> bool {
    let u = c as u32;
    (0x09 <= u <= 0x0d) || u == 0x20 || u == 0x85 || u == 0xa0 || u == 0x1680 || (0x2000 <= u
        <= 0x200a) || u == 0x2028 || u == 0x2029 || u == 0x202f || u == 0x205f || u == 0x3000
}

pub fn is_whitespace(c: char) -> (b: bool)
    ensures
        b == is_ws(c),
{
    let u = c as u32;
    (0x09 <= u && u <= 0x0d) || u == 0x20 || u == 0x85 || u == 0xa0 || u == 0x1680 || (0x2000 <= u
        && u <= 0x200a) || u == 0x2028 || u == 0x2029 || u == 0x202f || u == 0x205f || u == 0x3000
}

/// `s` without trailing white space.
pub open spec fn trim_end(s: Seq<char>) -> Seq<char>
    decreases s.len(),
{
    if s.len() > 0 && is_ws(s.last()) {
        trim_end(s.drop_last())
    } else {
        s
    }
}

/// `s` without leading white space.
pub open spec fn trim_start(s: Seq<char>) -> Seq<char>
    decreases s.len(),
{
    if s.len() > 0 && is_ws(s[0]) {
        trim_start(s.drop_first())
    } else {
        s
    }
}

/// `s` without leading or trailing white space.
pub open spec fn trim(s: Seq<char>) -> Seq<char> {
    trim_end(trim_start(s))
}

/// The end of `v[from..to]` once trailing white space is dropped.
pub fn trim_end_index(v: &Vec<char>, from: usize, to: usize) -> (k: usize)
    requires
        from <= to <= v.len(),
    ensures
        from <= k <= to,
        v@.subrange(from as int, k as int) == trim_end(v@.subrange(from as int, to as int)),
{
    let mut k = to;
    while k > from && is_whitespace(v[k - 1])
        invariant
            from <= k <= to <= v.len(),
            trim_end(v@.subrange(from as int, k as int)) == trim_end(
                v@.subrange(from as int, to as int),
            ),
        decreases k,
    {
        assert(v@.subrange(from as int, k as int).drop_last() =~= v@.subrange(
            from as int,
            k - 1,
        ));
        k -= 1;
    }
    k
}

/// The start of `v[from..to]` once leading white space is dropped.
pub fn trim_start_index(v: &Vec<char>, from: usize, to: usize) -> (k: usize)
    requires
        from <= to <= v.len(),
    ensures
        from <= k <= to,
        v@.subrange(k as int, to as int) == trim_start(v@.subrange(from as int, to as int)),
{
    let mut k = from;
    while k < to && is_whitespace(v[k])
        invariant
            from <= k <= to <= v.len(),
            trim_start(v@.subrange(k as int, to as int)) == trim_start(
                v@.subrange(from as int, to as int),
            ),
        decreases to - k,
    {
        assert(v@.subrange(k as int, to as int).drop_first() =~= v@.subrange(k + 1, to as int));
        k += 1;
    }
    k
}

/// `s` without leading or trailing white space, as `str::trim` gives it.
pub fn trimmed(s: &str) -> (r: String)
    ensures
        r@ == trim(s@),
{
    let v = chars_of(s);
    let a = trim_start_index(&v, 0, v.len());
    let b = trim_end_index(&v, a, v.len());
    proof {
        assert(v@.subrange(0, v@.len() as int) =~= v@);
    }
    string_from_chars(&v, a, b)
}

/// Index of the first `c` in `s`.
pub open spec fn first_index(s: Seq<char>, c: char) -> Option<int> {
    if exists|i: int| 0 <= i < s.len() && s[i] == c {
        Some(choose|i: int| 0 <= i < s.len() && s[i] == c && forall|j: int| 0 <= j < i ==> s[j] != c)
    } else {
        None
    }
}

/// Index of the last `c` in `s`.
pub open spec fn last_index(s: Seq<char>, c: char) -> Option<int> {
    if exists|i: int| 0 <= i < s.len() && s[i] == c {
        Some(choose|i: int| 0 <= i < s.len() && s[i] == c && forall|j: int| i < j < s.len() ==> s[j] != c)
    } else {
        None
    }
}

/// The first index of `c` in `v[from..to]`, if any.
pub fn find_char(v: &Vec<char>, c: char, from: usize, to: usize) -> (r: Option<usize>)
    requires
        from <= to <= v.len(),
    ensures
        match r {
            Some(i) => from <= i < to && v@[i as int] == c && forall|j: int| from <= j < i ==> v@[j] != c,
            None => forall|j: int| from <= j < to ==> v@[j] != c,
        },
{
    let mut i = from;
    while i < to
        invariant
            from <= i <= to <= v.len(),
            forall|j: int| from <= j < i ==> v@[j] != c,
        decreases to - i,
    {
        if v[i] == c {
            return Some(i);
        }
        i += 1;
    }
    None
}

/// `l` without one trailing carriage return.
pub open spec fn strip_cr(l: Seq<char>) -> Seq<char> {
    if l.len() > 0 && l.last() == '\r' {
        l.drop_last()
    } else {
        l
    }
}

/// The lines of `s` as `str::lines` yields them: `s` is cut after each line
/// feed, and each piece loses its line feed and a carriage return just
/// before it; a final line ending adds no empty line.
pub open spec fn lines_spec(s: Seq<char>) -> Seq<Seq<char>>
    decreases s.len(),
{
    if s.len() == 0 {
        Seq::empty()
    } else {
        match first_index(s, '\n') {
            Some(i) => if 0 <= i < s.len() {
                seq![strip_cr(s.take(i))] + lines_spec(s.skip(i + 1))
            } else {
                Seq::empty()
            },
            None => seq![s],
        }
    }
}

proof fn lemma_lines_cut(s: Seq<char>, k: int)
    requires
        0 <= k < s.len(),
        s[k] == '\n',
        forall|j: int| 0 <= j < k ==> s[j] != '\n',
    ensures
        lines_spec(s) == seq![strip_cr(s.take(k))] + lines_spec(s.skip(k + 1)),
{
    reveal(lines_spec);
    lemma_first_index(s, '\n', Some(k));
}

proof fn lemma_lines_last(s: Seq<char>)
    requires
        s.len() > 0,
        forall|j: int| 0 <= j < s.len() ==> s[j] != '\n',
    ensures
        lines_spec(s) == seq![s],
{
    reveal(lines_spec);
    lemma_first_index(s, '\n', None);
}

proof fn lemma_lines_empty()
    ensures
        lines_spec(Seq::<char>::empty()) == Seq::<Seq<char>>::empty(),
{
    reveal(lines_spec);
}

/// The first line of `v[start..]` and where the rest begins.
fn next_line(v: &Vec<char>, start: usize) -> (r: (String, usize))
    requires
        start < v.len(),
    ensures
        start < r.1 <= v.len(),
        lines_spec(v@.subrange(start as int, v.len() as int)) == seq![r.0@] + lines_spec(
            v@.subrange(r.1 as int, v.len() as int),
        ),
{
    let n = v.len();
    let ghost rest = v@.subrange(start as int, n as int);
    match find_char(v, '\n', start, n) {
        Some(j) => {
            let ghost k = j - start;
            let end = if j > start && v[j - 1] == '\r' {
                j - 1
            } else {
                j
            };
            let line = string_from_chars(v, start, end);
            proof {
                assert(line@ =~= strip_cr(rest.take(k)));
                lemma_lines_cut(rest, k);
                assert(rest.skip(k + 1) =~= v@.subrange(j + 1, n as int));
            }
            (line, j + 1)
        },
        None => {
            let line = string_from_chars(v, start, n);
            proof {
                lemma_lines_last(rest);
                lemma_lines_empty();
                assert(v@.subrange(n as int, n as int) =~= Seq::<char>::empty());
                assert(seq![line@] + Seq::<Seq<char>>::empty() =~= seq![rest]);
            }
            (line, n)
        },
    }
}

/// The lines found so far followed by the lines still to come.
#[verifier::opaque]
spec fn lines_then(done: Seq<Seq<char>>, rest: Seq<char>) -> Seq<Seq<char>> {
    done + lines_spec(rest)
}

proof fn lemma_lines_then_step(done: Seq<Seq<char>>, v: Seq<char>, start: int, next: int, line: Seq<char>)
    requires
        0 <= start < next <= v.len(),
        lines_spec(v.subrange(start, v.len() as int)) == seq![line] + lines_spec(v.subrange(next, v.len() as int)),
    ensures
        lines_then(done.push(line), v.subrange(next, v.len() as int)) == lines_then(
            done,
            v.subrange(start, v.len() as int),
        ),
{
    reveal(lines_then);
    let r = lines_spec(v.subrange(next, v.len() as int));
    assert(done.push(line) + r =~= done + (seq![line] + r));
}

proof fn lemma_lines_then_ends(done: Seq<Seq<char>>, v: Seq<char>)
    ensures
        lines_then(done, v.subrange(v.len() as int, v.len() as int)) == done,
        lines_then(Seq::empty(), v.subrange(0, v.len() as int)) == lines_spec(v),
{
    reveal(lines_then);
    lemma_lines_empty();
    assert(v.subrange(v.len() as int, v.len() as int) =~= Seq::<char>::empty());
    assert(done + Seq::<Seq<char>>::empty() =~= done);
    assert(v.subrange(0, v.len() as int) =~= v);
    assert(Seq::<Seq<char>>::empty() + lines_spec(v) =~= lines_spec(v));
}

/// The lines of `s`, as `str::lines` gives them.
pub fn split_lines(s: &str) -> (r: Vec<String>)
    ensures
        r@.map_values(|l: String| l@) == lines_spec(s@),
{
    let v = chars_of(s);
    let n = v.len();
    let mut out: Vec<String> = Vec::new();
    let mut start: usize = 0;
    proof {
        lemma_lines_then_ends(Seq::empty(), v@);
        assert(out@.map_values(|l: String| l@) =~= Seq::<Seq<char>>::empty());
    }
    while start < n
        invariant
            start <= n == v.len(),
            v@ == s@,
            lines_then(out@.map_values(|l: String| l@), v@.subrange(start as int, n as int)) == lines_spec(v@),
        decreases n - start,
    {
        let ghost before = out@.map_values(|l: String| l@);
        let (line, next) = next_line(&v, start);
        proof {
            lemma_lines_then_step(before, v@, start as int, next as int, line@);
        }
        let ghost lv = line@;
        let ghost old_out = out@;
        out.push(line);
        assert(out@.map_values(|l: String| l@) =~= old_out.map_values(|l: String| l@).push(lv));
        start = next;
    }
    proof {
        lemma_lines_then_ends(out@.map_values(|l: String| l@), v@);
    }
    out
}

/// The last index of `c` in `v[from..to]`, if any.
pub fn rfind_char(v: &Vec<char>, c: char, from: usize, to: usize) -> (r: Option<usize>)
    requires
        from <= to <= v.len(),
    ensures
        match r {
            Some(i) => from <= i < to && v@[i as int] == c && forall|j: int| i < j < to ==> v@[j] != c,
            None => forall|j: int| from <= j < to ==> v@[j] != c,
        },
{
    let mut i = to;
    while i > from
        invariant
            from <= i <= to <= v.len(),
            forall|j: int| i <= j < to ==> v@[j] != c,
        decreases i,
    {
        if v[i - 1] == c {
            return Some(i - 1);
        }
        i -= 1;
    }
    None
}

/// `first_index` of a whole sequence, from an exhaustive search result.
pub proof fn lemma_first_index(s: Seq<char>, c: char, r: Option<int>)
    requires
        match r {
            Some(i) => 0 <= i < s.len() && s[i] == c && forall|j: int| 0 <= j < i ==> s[j] != c,
            None => forall|j: int| 0 <= j < s.len() ==> s[j] != c,
        },
    ensures
        first_index(s, c) == r,
{
    if let Some(i) = r {
        let w = choose|w: int| 0 <= w < s.len() && s[w] == c && forall|j: int| 0 <= j < w ==> s[j] != c;
        assert(0 <= i < s.len() && s[i] == c && forall|j: int| 0 <= j < i ==> s[j] != c);
        if w < i {
            assert(s[w] != c);
        }
        if i < w {
            assert(s[i] != c);
        }
    }
}

/// `last_index` of a whole sequence, from an exhaustive search result.
pub proof fn lemma_last_index(s: Seq<char>, c: char, r: Option<int>)
    requires
        match r {
            Some(i) => 0 <= i < s.len() && s[i] == c && forall|j: int| i < j < s.len() ==> s[j] != c,
            None => forall|j: int| 0 <= j < s.len() ==> s[j] != c,
        },
    ensures
        last_index(s, c) == r,
{
    if let Some(i) = r {
        let w = choose|w: int| 0 <= w < s.len() && s[w] == c && forall|j: int| w < j < s.len() ==> s[j] != c;
        assert(0 <= i < s.len() && s[i] == c && forall|j: int| i < j < s.len() ==> s[j] != c);
        if w < i {
            assert(s[i] != c);
        }
        if i < w {
            assert(s[w] != c);
        }
    }
}

/// Numeric value of a sequence of ASCII decimal digits.
pub open spec fn digits_value(d: Seq<char>) -> nat
    decreases d.len(),
{
    if d.len() == 0 {
        0
    } else {
        digits_value(d.drop_last()) * 10 + ((d.last() as u32) - 0x30) as nat
    }
}

pub open spec fn is_ascii_digit(c: char) -> bool {
    0x30 <= (c as u32) <= 0x39
}

/// What `str::parse` gives for an unsigned integer type whose maximum is
/// `max`: an optional `+`, then one or more ASCII digits, with no overflow.
pub open spec fn parse_unsigned(s: Seq<char>, max: nat) -> Option<nat> {
    let d = strip_plus(s);
    if d.len() == 0 || !all_digits(d) {
        None
    } else if digits_value(d) <= max {
        Some(digits_value(d))
    } else {
        None
    }
}

/// `s` without one leading `+`.
pub open spec fn strip_plus(s: Seq<char>) -> Seq<char> {
    if s.len() > 0 && s[0] == '+' {
        s.drop_first()
    } else {
        s
    }
}

pub open spec fn all_digits(d: Seq<char>) -> bool {
    forall|i: int| 0 <= i < d.len() ==> is_ascii_digit(#[trigger] d[i])
}

proof fn lemma_digits_value_monotone(d: Seq<char>, n: int)
    requires
        0 <= n <= d.len(),
        forall|i: int| 0 <= i < d.len() ==> is_ascii_digit(#[trigger] d[i]),
    ensures
        digits_value(d.take(n)) <= digits_value(d),
    decreases d.len() - n,
{
    if n < d.len() {
        lemma_digits_value_monotone(d, n + 1);
        assert(d.take(n + 1).drop_last() =~= d.take(n));
    } else {
        assert(d.take(n) =~= d);
    }
}

/// Parse `v[from..to]` as an unsigned integer no larger than `max`, the way
/// `str::parse` does for `u16`/`u32`/`u64`.
pub fn parse_unsigned_range(v: &Vec<char>, from: usize, to: usize, max: u64) -> (r: Option<u64>)
    requires
        from <= to <= v.len(),
    ensures
        match parse_unsigned(v@.subrange(from as int, to as int), max as nat) {
            Some(n) => r == Some(n as u64),
            None => r is None,
        },
{
    let ghost s = v@.subrange(from as int, to as int);
    let start = if from < to && v[from] == '+' {
        from + 1
    } else {
        from
    };
    let ghost d = v@.subrange(start as int, to as int);
    proof {
        if from < to && v@[from as int] == '+' {
            assert(d =~= s.drop_first());
        } else {
            assert(d =~= s);
        }
    }
    if start == to {
        return None;
    }
    let mut acc: u64 = 0;
    let mut i = start;
    while i < to
        invariant
            start <= i <= to <= v.len(),
            d == v@.subrange(start as int, to as int),
            s == v@.subrange(from as int, to as int),
            d == strip_plus(s),
            d.len() > 0,
            forall|k: int| 0 <= k < i - start ==> is_ascii_digit(#[trigger] d[k]),
            acc as nat == digits_value(d.take(i - start)),
            acc <= max,
        decreases to - i,
    {
        let c = v[i] as u32;
        if c < 0x30 || c > 0x39 {
            proof {
                assert(d[i - start] == v@[i as int]);
                assert(!is_ascii_digit(d[i - start]));
                assert(!all_digits(d));
                assert(parse_unsigned(s, max as nat) is None);
            }
            return None;
        }
        let digit = (c - 0x30) as u64;
        proof {
            assert(d.take(i - start + 1).drop_last() =~= d.take(i - start));
            assert(d.take(i - start + 1).last() == d[i - start]);
        }
        if digit > max || acc > (max - digit) / 10 {
            proof {
                if digit <= max {
                    assert(acc * 10 + digit > max) by (nonlinear_arith)
                        requires
                            acc > (max - digit) / 10,
                            digit <= max,
                    ;
                }
                assert(digits_value(d.take(i - start + 1)) == acc * 10 + digit);
                if all_digits(d) {
                    lemma_digits_value_monotone(d, i - start + 1);
                    assert(digits_value(d) > max);
                }
                assert(parse_unsigned(s, max as nat) is None);
            }
            return None;
        }
        proof {
            assert(acc * 10 + digit <= max) by (nonlinear_arith)
                requires
                    acc <= (max - digit) / 10,
                    digit <= max,
            ;
        }
        acc = acc * 10 + digit;
        i += 1;
    }
    proof {
        assert(d.take(to - start) =~= d);
    }
    Some(acc)
}

/// `s` without trailing `c` characters.
pub open spec fn trim_end_char(s: Seq<char>, c: char) -> Seq<char>
    decreases s.len(),
{
    if s.len() > 0 && s.last() == c {
        trim_end_char(s.drop_last(), c)
    } else {
        s
    }
}

/// The end of `v[from..to]` once trailing `c` characters are dropped.
pub fn trim_end_char_index(v: &Vec<char>, c: char, from: usize, to: usize) -> (k: usize)
    requires
        from <= to <= v.len(),
    ensures
        from <= k <= to,
        v@.subrange(from as int, k as int) == trim_end_char(v@.subrange(from as int, to as int), c),
{
    let mut k = to;
    while k > from && v[k - 1] == c
        invariant
            from <= k <= to <= v.len(),
            trim_end_char(v@.subrange(from as int, k as int), c) == trim_end_char(
                v@.subrange(from as int, to as int),
                c,
            ),
        decreases k,
    {
        assert(v@.subrange(from as int, k as int).drop_last() =~= v@.subrange(from as int, k - 1));
        k -= 1;
    }
    k
}

/// Append the characters `v[from..to]` to `s`.
pub fn push_chars(s: &mut String, v: &Vec<char>, from: usize, to: usize)
    requires
        from <= to <= v.len(),
    ensures
        final(s)@ == old(s)@ + v@.subrange(from as int, to as int),
{
    let mut i = from;
    while i < to
        invariant
            from <= i <= to <= v.len(),
            s@ == old(s)@ + v@.subrange(from as int, i as int),
        decreases to - i,
    {
        s.push(v[i]);
        i += 1;
        assert(s@ =~= old(s)@ + v@.subrange(from as int, i as int));
    }
}

/// Append all characters of `t` to `s`.
pub fn push_str_chars(s: &mut String, t: &str)
    ensures
        final(s)@ == old(s)@ + t@,
{
    let v = chars_of(t);
    push_chars(s, &v, 0, v.len());
    assert(v@.subrange(0, v@.len() as int) =~= v@);
}

/// Decimal digits of `n` as characters.
pub open spec fn dec_chars(n: nat) -> Seq<char> {
    crate::decimal::dec(n).map_values(|b: u8| b as char)
}

/// Append the decimal rendering of `n` to `s`.
pub fn push_dec_chars(s: &mut String, n: u64)
    ensures
        final(s)@ == old(s)@ + dec_chars(n as nat),
    decreases n,
{
    if n >= 10 {
        push_dec_chars(s, n / 10);
    }
    let d = (n % 10) as u8;
    s.push((48 + d) as char);
    proof {
        if n >= 10 {
            assert(crate::decimal::dec(n as nat) == crate::decimal::dec((n / 10) as nat).push(
                (48 + n % 10) as u8,
            ));
            assert(dec_chars(n as nat) =~= dec_chars((n / 10) as nat).push((48 + d) as char));
        } else {
            assert(dec_chars(n as nat) =~= seq![(48 + d) as char]);
        }
    }
}

/// The Unicode lower-case mapping of `s`, as `str::to_lowercase` applies it.
pub uninterp spec fn lowercase(s: Seq<char>) -> Seq<char>;

/// Calls `str::to_lowercase`, which replaces each character by its Unicode
/// lower-case mapping (std's tables; a character may map to several). The
/// mapping is not written out here: the result is `lowercase` of the
/// argument. The empty string maps to the empty string.
#[verifier::external_body]
pub(crate) fn to_lowercase(s: &str) -> (r: String)
    ensures
        r@ == lowercase(s@),
        s@.len() == 0 ==> r@.len() == 0,
{
    s.to_lowercase()
}

/// The number of terminal cells `s` takes, as `UnicodeWidthStr::width`
/// (unicode-width) computes it.
pub uninterp spec fn str_width(s: Seq<char>) -> usize;

/// Calls `UnicodeWidthStr::width` of unicode-width: the cells the string
/// takes, wide (CJK) characters counting as two. The tables and the
/// sequence rules it applies are the crate's; the result is named
/// `str_width` of the argument.
#[verifier::external_body]
pub fn display_width(s: &str) -> (w: usize)
    ensures
        w == str_width(s@),
{
    unicode_width::UnicodeWidthStr::width(s)
}

/// The display cells character `c` takes on its own.
pub open spec fn char_cells(c: char) -> usize {
    str_width(seq![c])
}

/// The cell where character `k` of a row starts: the cells of the
/// characters before it (a sum that stops growing at `usize::MAX`).
pub open spec fn cell_of(chars: Seq<char>, k: int) -> usize
    decreases k,
{
    if k <= 0 {
        0
    } else {
        let c = cell_of(chars, k - 1) + char_cells(chars[k - 1]);
        if c > usize::MAX {
            usize::MAX
        } else {
            c as usize
        }
    }
}

/// Where each character of `v` starts, in display cells, and (last) where
/// the text ends: `r[k]` is `cell_of(v, k)` for `k` up to `v.len()`.
pub fn cell_columns(v: &Vec<char>) -> (r: Vec<usize>)
    ensures
        r@.len() == v@.len() + 1,
        forall|k: int| 0 <= k <= v@.len() ==> #[trigger] r@[k] == cell_of(v@, k),
{
    let mut r: Vec<usize> = Vec::new();
    let mut col: usize = 0;
    r.push(0);
    let mut k: usize = 0;
    while k < v.len()
        invariant
            k <= v.len(),
            r@.len() == k + 1,
            col == cell_of(v@, k as int),
            forall|j: int| 0 <= j <= k ==> #[trigger] r@[j] == cell_of(v@, j),
        decreases v.len() - k,
    {
        let mut one = String::new();
        one.push(v[k]);
        assert(one@ =~= seq![v@[k as int]]);
        let w = display_width(one.as_str());
        col = col.saturating_add(w);
        r.push(col);
        k += 1;
    }
    r
}

/// Cell positions never go back: a later character starts no earlier.
pub proof fn lemma_cell_of_monotone(chars: Seq<char>, a: int, b: int)
    requires
        0 <= a <= b,
    ensures
        cell_of(chars, a) <= cell_of(chars, b),
    decreases b - a,
{
    if a < b {
        lemma_cell_of_monotone(chars, a, b - 1);
    }
}

} // verus!
