//! Remote file operations over SSH exec + SCP: the shell commands they run,
//! POSIX path handling, and parsing of `ls -la` listings.
//!
//! Every remote path in a command is single-quoted with [`sh_quote`], never
//! interpolated raw.

pub mod listing;
pub mod order;

pub use self::listing::{RemoteEntry, EntryView, parse_ls_line, parse_ls_output};

use vstd::prelude::*;
use vstd::utf8::encode_utf8;
use crate::text::{chars_of, trim, trim_end_char, trim_end_char_index, trim_start_index,
    trim_end_index, push_chars, push_str_chars, dec_chars, push_dec_chars, last_index,
    lemma_last_index, rfind_char};

verus! {

/// Body of a single-quoted shell word: each `'` becomes `'\''`.
pub open spec fn quote_body(s: Seq<char>) -> Seq<char>
    decreases s.len(),
{
    if s.len() == 0 {
        Seq::empty()
    } else {
        quote_body(s.drop_last()) + if s.last() == '\'' {
            seq!['\'', '\\', '\'', '\'']
        } else {
            seq![s.last()]
        }
    }
}

/// POSIX single-quote escaping of a whole word.
pub open spec fn sh_quote_spec(s: Seq<char>) -> Seq<char> {
    seq!['\''] + quote_body(s) + seq!['\'']
}

fn push_quoted(out: &mut String, s: &str)
    ensures
        final(out)@ == old(out)@ + sh_quote_spec(s@),
{
    let v = chars_of(s);
    out.push('\'');
    let ghost start = out@;
    let mut i: usize = 0;
    while i < v.len()
        invariant
            i <= v.len(),
            v@ == s@,
            out@ == start + quote_body(v@.take(i as int)),
        decreases v.len() - i,
    {
        if v[i] == '\'' {
            out.push('\'');
            out.push('\\');
            out.push('\'');
            out.push('\'');
        } else {
            out.push(v[i]);
        }
        proof {
            assert(v@.take(i + 1).drop_last() =~= v@.take(i as int));
        }
        assert(out@ =~= start + quote_body(v@.take(i + 1)));
        i += 1;
    }
    out.push('\'');
    assert(v@.take(v@.len() as int) =~= v@);
    assert(out@ =~= old(out)@ + sh_quote_spec(s@));
}

/// POSIX single-quote escaping: `'` becomes `'\''`.
pub fn sh_quote(s: &str) -> (r: String)
    ensures
        r@ == sh_quote_spec(s@),
{
    let mut r = String::new();
    push_quoted(&mut r, s);
    assert(r@ =~= sh_quote_spec(s@));
    r
}

/// Join a remote POSIX directory and name.
pub fn join(dir: &str, name: &str) -> (r: String)
    ensures
        r@ == crate::transfer::remote_join_spec(dir@, name@),
{
    crate::transfer::remote_join(dir, name)
}

/// Parent of a remote POSIX path: trailing slashes are dropped, then
/// everything from the last `/` on; a path with no `/` other than a
/// leading one has parent `/`.
pub open spec fn parent_spec(path: Seq<char>) -> Seq<char> {
    let t = trim_end_char(path, '/');
    match last_index(t, '/') {
        Some(i) => if i == 0 {
            seq!['/']
        } else {
            t.take(i)
        },
        None => seq!['/'],
    }
}

/// Parent of a remote POSIX path (`/` is its own parent).
pub fn parent(path: &str) -> (r: String)
    ensures
        r@ == parent_spec(path@),
{
    let v = chars_of(path);
    let end = trim_end_char_index(&v, '/', 0, v.len());
    let ghost t = v@.subrange(0, end as int);
    proof {
        assert(v@.subrange(0, v@.len() as int) =~= v@);
    }
    let slash = rfind_char(&v, '/', 0, end);
    proof {
        lemma_last_index(t, '/', match slash {
            Some(i) => Some(i as int),
            None => None,
        });
    }
    let mut r = String::new();
    match slash {
        Some(i) => {
            if i == 0 {
                r.push('/');
                assert(r@ =~= seq!['/']);
            } else {
                push_chars(&mut r, &v, 0, i);
                assert(r@ =~= t.take(i as int));
            }
        },
        None => {
            r.push('/');
            assert(r@ =~= seq!['/']);
        },
    }
    r
}

/// The value of one `rwx` triple: read 4, write 2, and execute 1 (`x`, or
/// `s`/`t` in the execute slot).
pub open spec fn triple_value(c: Seq<u8>) -> nat {
    (if c.len() > 0 && c[0] != 0x2d { 4nat } else { 0 }) + (if c.len() > 1 && c[1] != 0x2d {
        2nat
    } else {
        0
    }) + (if c.len() > 2 && (c[2] == 0x78 || c[2] == 0x73 || c[2] == 0x74) {
        1nat
    } else {
        0
    })
}

/// The triples of a permission string's bytes: up to three chunks of three
/// bytes (the last one may be shorter).
pub open spec fn triple_count(n: nat) -> nat {
    if n >= 7 {
        3
    } else if n >= 4 {
        2
    } else if n >= 1 {
        1
    } else {
        0
    }
}

pub open spec fn triple_at(b: Seq<u8>, k: int) -> Seq<u8> {
    b.subrange(3 * k, if 3 * k + 3 <= b.len() { 3 * k + 3 } else { b.len() as int })
}

/// rwx permission string to octal digits.
pub open spec fn perms_octal_spec(perms: Seq<char>) -> Seq<char> {
    let b = encode_utf8(perms);
    Seq::new(triple_count(b.len()), |k: int| (48 + triple_value(triple_at(b, k))) as char)
}

/// rwx permission string to octal (e.g. `rwxr-xr-x` → `755`).
pub fn perms_to_octal(perms: &str) -> (r: String)
    ensures
        r@ == perms_octal_spec(perms@),
{
    let b = perms.as_bytes();
    let ghost bs = b@;
    let n = b.len();
    let mut r = String::new();
    let mut k: usize = 0;
    while k < 3 && 3 * k < n
        invariant
            k <= 3,
            n == bs.len(),
            b@ == bs,
            bs == encode_utf8(perms@),
            3 * k <= n + 2,
            k <= triple_count(n as nat),
            r@ == Seq::new(k as nat, |i: int| (48 + triple_value(triple_at(bs, i))) as char),
        decreases 3 - k,
    {
        let s = 3 * k;
        let mut v: u8 = 0;
        if b[s] != 0x2d {
            v = v + 4;
        }
        if s + 1 < n && b[s + 1] != 0x2d {
            v = v + 2;
        }
        if s + 2 < n && (b[s + 2] == 0x78 || b[s + 2] == 0x73 || b[s + 2] == 0x74) {
            v = v + 1;
        }
        let ghost c = triple_at(bs, k as int);
        proof {
            assert(c.len() > 0 && c[0] == bs[s as int]);
            if s + 1 < n {
                assert(c[1] == bs[s + 1]);
            }
            if s + 2 < n {
                assert(c[2] == bs[s + 2]);
            }
            assert(v as nat == triple_value(c));
        }
        r.push((48 + v) as char);
        k += 1;
        assert(r@ =~= Seq::new(k as nat, |i: int| (48 + triple_value(triple_at(bs, i))) as char));
    }
    assert(k == triple_count(n as nat));
    r
}

/// A chmod mode string: 3–4 octal digits.
pub open spec fn valid_mode_spec(mode: Seq<char>) -> bool {
    let b = encode_utf8(mode);
    3 <= b.len() <= 4 && forall|i: int| 0 <= i < b.len() ==> 0x30 <= #[trigger] b[i] <= 0x37
}

/// Validate a chmod mode string: 3–4 octal digits.
pub fn valid_mode(mode: &str) -> (ok: bool)
    ensures
        ok == valid_mode_spec(mode@),
{
    let b = mode.as_bytes();
    let n = b.len();
    if n < 3 || n > 4 {
        return false;
    }
    let mut i: usize = 0;
    while i < n
        invariant
            i <= n == b@.len(),
            b@ == encode_utf8(mode@),
            forall|j: int| 0 <= j < i ==> 0x30 <= #[trigger] b@[j] <= 0x37,
        decreases n - i,
    {
        if b[i] < 0x30 || b[i] > 0x37 {
            return false;
        }
        i += 1;
    }
    true
}

/// `prefix` followed by the quoted path.
fn command_with_path(prefix: &str, path: &str) -> (r: String)
    ensures
        r@ == prefix@ + sh_quote_spec(path@),
{
    let mut r = String::new();
    push_str_chars(&mut r, prefix);
    push_quoted(&mut r, path);
    assert(r@ =~= prefix@ + sh_quote_spec(path@));
    r
}

/// The command that lists a remote directory.
pub fn list_command(dir: &str) -> (r: String)
    ensures
        r@ == "LC_ALL=C ls -la -- "@ + sh_quote_spec(dir@),
{
    command_with_path("LC_ALL=C ls -la -- ", dir)
}

/// The command that creates a remote directory (with parents).
pub fn mkdir_command(path: &str) -> (r: String)
    ensures
        r@ == "mkdir -p -- "@ + sh_quote_spec(path@),
{
    command_with_path("mkdir -p -- ", path)
}

/// The command that creates an empty remote file.
pub fn touch_command(path: &str) -> (r: String)
    ensures
        r@ == "touch -- "@ + sh_quote_spec(path@),
{
    command_with_path("touch -- ", path)
}

/// The command that renames a remote path.
pub fn rename_command(from: &str, to: &str) -> (r: String)
    ensures
        r@ == "mv -- "@ + sh_quote_spec(from@) + " "@ + sh_quote_spec(to@),
{
    let mut r = command_with_path("mv -- ", from);
    push_str_chars(&mut r, " ");
    push_quoted(&mut r, to);
    assert(r@ =~= "mv -- "@ + sh_quote_spec(from@) + " "@ + sh_quote_spec(to@));
    r
}

/// The command that deletes a remote path recursively. The UI must confirm
/// first.
pub fn delete_command(path: &str) -> (r: String)
    ensures
        r@ == "rm -rf -- "@ + sh_quote_spec(path@),
{
    command_with_path("rm -rf -- ", path)
}

/// The error for a mode string that is not 3–4 octal digits.
pub open spec fn invalid_mode_message(mode: Seq<char>) -> Seq<char> {
    "Invalid mode: "@ + mode + " (use octal, e.g. 644)"@
}

/// The command that changes a remote path's mode; an invalid mode is
/// refused before anything runs.
pub fn chmod_command(mode: &str, path: &str) -> (r: Result<String, String>)
    ensures
        valid_mode_spec(mode@) ==> (r matches Ok(c) && c@ == "chmod "@ + mode@ + " -- "@
            + sh_quote_spec(path@)),
        !valid_mode_spec(mode@) ==> (r matches Err(e) && e@ == invalid_mode_message(mode@)),
{
    if !valid_mode(mode) {
        let mut e = String::new();
        push_str_chars(&mut e, "Invalid mode: ");
        push_str_chars(&mut e, mode);
        push_str_chars(&mut e, " (use octal, e.g. 644)");
        assert(e@ =~= invalid_mode_message(mode@));
        return Err(e);
    }
    let mut c = String::new();
    push_str_chars(&mut c, "chmod ");
    push_str_chars(&mut c, mode);
    push_str_chars(&mut c, " -- ");
    push_quoted(&mut c, path);
    assert(c@ =~= "chmod "@ + mode@ + " -- "@ + sh_quote_spec(path@));
    Ok(c)
}

/// The outcome of a remote command from its output text and exit status:
/// the output on success; on failure the trimmed output (or a generic
/// message when there is none) followed by the exit status.
pub open spec fn exec_outcome_spec(text: Seq<char>, code: u32) -> Result<Seq<char>, Seq<char>> {
    if code == 0 {
        Ok(text)
    } else {
        let msg = trim(text);
        Err(
            if msg.len() == 0 {
                "Remote command failed (exit "@ + dec_chars(code as nat) + ")"@
            } else {
                msg + " (exit "@ + dec_chars(code as nat) + ")"@
            },
        )
    }
}

/// Decide what a finished remote command returns.
pub fn exec_outcome(text: String, code: u32) -> (r: Result<String, String>)
    ensures
        match exec_outcome_spec(text@, code) {
            Ok(t) => r matches Ok(s) && s@ == t,
            Err(m) => r matches Err(e) && e@ == m,
        },
{
    if code == 0 {
        return Ok(text);
    }
    let v = chars_of(text.as_str());
    let a = trim_start_index(&v, 0, v.len());
    let b = trim_end_index(&v, a, v.len());
    proof {
        assert(v@.subrange(0, v@.len() as int) =~= v@);
    }
    let mut e = String::new();
    if a == b {
        push_str_chars(&mut e, "Remote command failed (exit ");
        push_dec_chars(&mut e, code as u64);
        push_str_chars(&mut e, ")");
        assert(v@.subrange(a as int, b as int) =~= Seq::<char>::empty());
        assert(e@ =~= "Remote command failed (exit "@ + dec_chars(code as nat) + ")"@);
    } else {
        push_chars(&mut e, &v, a, b);
        push_str_chars(&mut e, " (exit ");
        push_dec_chars(&mut e, code as u64);
        push_str_chars(&mut e, ")");
        assert(e@ =~= v@.subrange(a as int, b as int) + " (exit "@ + dec_chars(code as nat) + ")"@);
    }
    Err(e)
}

/// How a POSIX shell reads a word made of single-quoted parts and
/// backslash escapes: inside quotes every character but `'` is literal and
/// `'` ends the quote; outside, `'` opens a quote and `\` takes the next
/// character literally.
pub open spec fn sh_unquote(s: Seq<char>, in_quote: bool) -> Seq<char>
    decreases s.len(),
{
    if s.len() == 0 {
        Seq::empty()
    } else if in_quote {
        if s[0] == '\'' {
            sh_unquote(s.drop_first(), false)
        } else {
            seq![s[0]] + sh_unquote(s.drop_first(), true)
        }
    } else if s[0] == '\'' {
        sh_unquote(s.drop_first(), true)
    } else if s[0] == '\\' && s.len() >= 2 {
        seq![s[1]] + sh_unquote(s.skip(2), false)
    } else {
        seq![s[0]] + sh_unquote(s.drop_first(), false)
    }
}

proof fn lemma_quote_body_concat(a: Seq<char>, b: Seq<char>)
    ensures
        quote_body(a + b) == quote_body(a) + quote_body(b),
    decreases b.len(),
{
    if b.len() == 0 {
        assert(a + b =~= a);
        assert(quote_body(a) + quote_body(b) =~= quote_body(a));
    } else {
        lemma_quote_body_concat(a, b.drop_last());
        assert((a + b).drop_last() =~= a + b.drop_last());
        assert((a + b).last() == b.last());
    }
}

proof fn lemma_unquote_body(s: Seq<char>, rest: Seq<char>)
    ensures
        sh_unquote(quote_body(s) + seq!['\''] + rest, true) == s + sh_unquote(rest, false),
    decreases s.len(),
{
    if s.len() == 0 {
        assert(quote_body(s) =~= Seq::<char>::empty());
        let w = quote_body(s) + seq!['\''] + rest;
        assert(w =~= seq!['\''] + rest);
        assert(w.drop_first() =~= rest);
        assert(s + sh_unquote(rest, false) =~= sh_unquote(rest, false));
    } else {
        let c = s[0];
        let t = s.drop_first();
        assert(s =~= seq![c] + t);
        lemma_quote_body_concat(seq![c], t);
        lemma_unquote_body(t, rest);
        let tail = quote_body(t) + seq!['\''] + rest;
        assert(quote_body(seq![c]) == quote_body(Seq::<char>::empty()) + (if c == '\'' {
            seq!['\'', '\\', '\'', '\'']
        } else {
            seq![c]
        })) by {
            assert(seq![c].drop_last() =~= Seq::<char>::empty());
        }
        assert(quote_body(Seq::<char>::empty()) =~= Seq::<char>::empty());
        if c == '\'' {
            let w = seq!['\'', '\\', '\'', '\''] + tail;
            assert(quote_body(s) + seq!['\''] + rest =~= w);
            assert(w.drop_first() =~= seq!['\\', '\'', '\''] + tail);
            let w1 = w.drop_first();
            assert(w1[0] == '\\' && w1[1] == '\'');
            assert(w1.skip(2) =~= seq!['\''] + tail);
            let w2 = w1.skip(2);
            assert(w2.drop_first() =~= tail);
            assert(sh_unquote(w2, false) == sh_unquote(tail, true));
            assert(sh_unquote(w1, false) == seq!['\''] + sh_unquote(tail, true));
            assert(sh_unquote(w, true) == sh_unquote(w1, false));
            assert(seq!['\''] + (t + sh_unquote(rest, false)) =~= s + sh_unquote(rest, false));
        } else {
            let w = seq![c] + tail;
            assert(quote_body(s) + seq!['\''] + rest =~= w);
            assert(w.drop_first() =~= tail);
            assert(seq![c] + (t + sh_unquote(rest, false)) =~= s + sh_unquote(rest, false));
        }
    }
}

/// A quoted word reads back as exactly the original text: whatever a
/// remote path holds (quotes, `$`, spaces, `;`), the shell sees it as one
/// literal word.
pub proof fn lemma_sh_quote_reads_back(s: Seq<char>)
    ensures
        sh_unquote(sh_quote_spec(s), false) == s,
{
    let q = sh_quote_spec(s);
    assert(q.drop_first() =~= quote_body(s) + seq!['\''] + Seq::<char>::empty());
    lemma_unquote_body(s, Seq::<char>::empty());
    assert(s + Seq::<char>::empty() =~= s);
}

/// Going into a directory and back up returns to it: for a name that is
/// not empty and holds no `/`, the parent of `dir` joined with it is `dir`
/// without trailing slashes (`/` for the root).
pub proof fn lemma_parent_of_join(dir: Seq<char>, name: Seq<char>)
    requires
        name.len() > 0,
        forall|i: int| 0 <= i < name.len() ==> name[i] != '/',
    ensures
        parent_spec(crate::transfer::remote_join_spec(dir, name)) == if trim_end_char(dir, '/').len()
            == 0 {
            seq!['/']
        } else {
            trim_end_char(dir, '/')
        },
{
    let t = trim_end_char(dir, '/');
    let j = crate::transfer::remote_join_spec(dir, name);
    let head = if t.len() == 0 {
        Seq::<char>::empty()
    } else {
        t
    };
    assert(j =~= head + seq!['/'] + name);
    assert(j.last() == name.last());
    assert(trim_end_char(j, '/') == j);
    let p = head.len() as int;
    assert(j[p] == '/');
    assert forall|k: int| p < k < j.len() implies j[k] != '/' by {
        assert(j[k] == name[k - p - 1]);
    }
    lemma_last_index(j, '/', Some(p));
    if t.len() > 0 {
        assert(j.take(p) =~= t);
    }
}

proof fn lemma_ascii_byte(c: char)
    requires
        (c as u32) < 0x80,
    ensures
        vstd::utf8::encode_scalar(c as u32) == seq![(c as u32) as u8],
{
    let v = c as u32;
    assert((v & 0x7f) == v) by (bit_vector)
        requires
            v < 0x80,
    ;
}

/// What `perms_to_octal` writes for a full permission string is a mode
/// `chmod` accepts: three octal digits.
pub proof fn lemma_octal_perms_are_valid_modes(perms: Seq<char>)
    requires
        encode_utf8(perms).len() >= 7,
    ensures
        valid_mode_spec(perms_octal_spec(perms)),
{
    let m = perms_octal_spec(perms);
    let b = encode_utf8(perms);
    assert(m.len() == 3);
    assert forall|k: int| 0 <= k < 3 implies 48 <= (#[trigger] m[k] as u32) <= 55 by {
        let v = triple_value(triple_at(b, k));
        assert(v <= 7);
        assert(m[k] == (48 + v) as char);
    }
    lemma_ascii_byte(m[0]);
    lemma_ascii_byte(m[1]);
    lemma_ascii_byte(m[2]);
    assert(m.drop_first().drop_first().drop_first() =~= Seq::<char>::empty());
    reveal_with_fuel(encode_utf8, 4);
    assert(encode_utf8(m) =~= seq![(m[0] as u32) as u8, (m[1] as u32) as u8, (m[2] as u32) as u8]);
}

} // verus!
