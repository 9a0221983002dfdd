//! Remote output filtering. Remote bytes are parsed into ordered events:
//! clean data for the renderer, responses to send back to the remote shell,
//! and ordered cursor-position-report markers. Escape sequences split across
//! reads are buffered; unknown sequences pass through untouched.
//!
//! The meaning of a run of remote output is given by [`run`]: a sequence of
//! atoms (single data bytes, replies, and cursor-position markers). The
//! executable parser produces the same atoms, grouped into canonical events,
//! and [`lemma_split_invariance`] shows that the atoms do not depend on how
//! the remote output was split into reads.

pub use super::carry::Utf8Carry;

use vstd::prelude::*;
use crate::decimal::{dec, hex2, push_dec, push_hex2};

verus! {

/// Reply to `ESC[c` / `ESC[0c` (Primary Device Attributes): VT220-class.
pub const DA1_REPLY: [u8; 10] = [0x1b, 0x5b, 0x3f, 0x36, 0x32, 0x3b, 0x31, 0x3b, 0x36, 0x63];

/// Reply to `ESC[>c` / `ESC[>0c` (Secondary Device Attributes).
pub const DA2_REPLY: [u8; 9] = [0x1b, 0x5b, 0x3e, 0x31, 0x3b, 0x30, 0x3b, 0x30, 0x63];

/// Reply to `ESC[5n` (Device Status Report): terminal OK.
pub const DSR_OK_REPLY: [u8; 4] = [0x1b, 0x5b, 0x30, 0x6e];

/// Bound on buffered incomplete escape sequences. Anything longer is flushed
/// through as plain data so a malformed stream cannot grow the buffer forever.
pub const MAX_PENDING: usize = 1024;

pub open spec fn da1_reply() -> Seq<u8> {
    seq![0x1bu8, 0x5b, 0x3f, 0x36, 0x32, 0x3b, 0x31, 0x3b, 0x36, 0x63]
}

pub open spec fn da2_reply() -> Seq<u8> {
    seq![0x1bu8, 0x5b, 0x3e, 0x31, 0x3b, 0x30, 0x3b, 0x30, 0x63]
}

pub open spec fn dsr_ok_reply() -> Seq<u8> {
    seq![0x1bu8, 0x5b, 0x30, 0x6e]
}

#[derive(Debug, Clone, PartialEq, Eq)]
pub enum RemoteOutputEvent {
    /// Clean bytes for the renderer / local terminal.
    Data(Vec<u8>),
    /// Bytes that must be written back to the remote shell.
    Response(Vec<u8>),
    /// Ordered cursor position request (`ESC[6n`): the caller must feed all
    /// preceding `Data` to its screen first, then answer with the current
    /// cursor position via [`cpr_response`].
    Cpr,
}

/// The unit of meaning of remote output.
pub enum Atom {
    /// One byte for the renderer.
    Byte(u8),
    /// A reply to write back to the remote shell.
    Reply(Seq<u8>),
    /// A cursor position request, answered in order.
    CursorQuery,
}

pub open spec fn bytes(s: Seq<u8>) -> Seq<Atom> {
    s.map_values(|b: u8| Atom::Byte(b))
}

/// The atoms an event stands for.
pub open spec fn event_atoms(e: RemoteOutputEvent) -> Seq<Atom> {
    match e {
        RemoteOutputEvent::Data(d) => bytes(d@),
        RemoteOutputEvent::Response(r) => seq![Atom::Reply(r@)],
        RemoteOutputEvent::Cpr => seq![Atom::CursorQuery],
    }
}

/// The atoms a sequence of events stands for.
pub open spec fn expand(es: Seq<RemoteOutputEvent>) -> Seq<Atom>
    decreases es.len(),
{
    if es.len() == 0 {
        Seq::empty()
    } else {
        expand(es.drop_last()) + event_atoms(es.last())
    }
}

pub open spec fn is_data(e: RemoteOutputEvent) -> bool {
    e is Data
}

/// Canonical event streams: no empty `Data`, and no two `Data` in a row.
pub open spec fn canonical(es: Seq<RemoteOutputEvent>) -> bool {
    &&& forall|i: int|
        0 <= i < es.len() ==> (#[trigger] es[i] matches RemoteOutputEvent::Data(d) ==> d@.len() > 0)
    &&& forall|i: int|
        0 <= i && i + 1 < es.len() ==> !(is_data(#[trigger] es[i]) && is_data(es[i + 1]))
}

/// Parser settings that the remote output reads and changes.
pub struct Flags {
    pub mouse_mode: bool,
    pub bracketed_paste: bool,
    pub fg: (u8, u8, u8),
    pub bg: (u8, u8, u8),
    pub cursor: (u8, u8, u8),
}

/// Abstract parser state: the buffered incomplete sequence and the flags.
pub struct ParserView {
    pub pending: Seq<u8>,
    pub flags: Flags,
}

/// Outcome of one complete escape sequence.
pub struct Step {
    pub len: nat,
    pub out: Seq<Atom>,
    pub flags: Flags,
}

pub open spec fn is_param_byte(b: u8) -> bool {
    0x20 <= b <= 0x3f
}

pub open spec fn is_final_byte(b: u8) -> bool {
    0x40 <= b <= 0x7e
}

pub open spec fn is_digit(b: u8) -> bool {
    0x30 <= b <= 0x39
}

/// First index at or after `j` that is not a CSI parameter byte (or `s.len()`).
pub open spec fn csi_end(s: Seq<u8>, j: int) -> int
    decreases s.len() - j,
{
    if j >= s.len() || j < 0 {
        s.len() as int
    } else if is_param_byte(s[j]) {
        csi_end(s, j + 1)
    } else {
        j
    }
}

/// First index at or after `j` holding BEL or ESC (or `s.len()`).
pub open spec fn osc_end(s: Seq<u8>, j: int) -> int
    decreases s.len() - j,
{
    if j >= s.len() || j < 0 {
        s.len() as int
    } else if s[j] == 0x07 || s[j] == 0x1b {
        j
    } else {
        osc_end(s, j + 1)
    }
}

/// First index at or after `j` holding `b` (or `s.len()`).
pub open spec fn find_byte(s: Seq<u8>, b: u8, j: int) -> int
    decreases s.len() - j,
{
    if j >= s.len() || j < 0 {
        s.len() as int
    } else if s[j] == b {
        j
    } else {
        find_byte(s, b, j + 1)
    }
}

/// The `;`-separated fields of `s`, starting at `j`.
pub open spec fn fields_from(s: Seq<u8>, j: int) -> Seq<Seq<u8>>
    decreases s.len() - j,
{
    if j < 0 || j > s.len() {
        seq![Seq::empty()]
    } else if find_byte(s, 0x3b, j) >= s.len() {
        seq![s.subrange(j, s.len() as int)]
    } else {
        proof {
            lemma_find_byte_bounds(s, 0x3b, j);
        }
        seq![s.subrange(j, find_byte(s, 0x3b, j))] + fields_from(s, find_byte(s, 0x3b, j) + 1)
    }
}

/// DEC private modes that enable mouse reporting: 1000, 1002, 1003, 1006.
pub open spec fn is_mouse_mode_field(x: Seq<u8>) -> bool {
    x == seq![0x31u8, 0x30, 0x30, 0x30] || x == seq![0x31u8, 0x30, 0x30, 0x32] || x == seq![
        0x31u8,
        0x30,
        0x30,
        0x33,
    ] || x == seq![0x31u8, 0x30, 0x30, 0x36]
}

/// DEC private mode 2004 (bracketed paste).
pub open spec fn is_paste_mode_field(x: Seq<u8>) -> bool {
    x == seq![0x32u8, 0x30, 0x30, 0x34]
}

/// `<digits>;<digits>`: the shape of a cursor position report.
pub open spec fn is_cpr_params(p: Seq<u8>) -> bool {
    exists|k: int|
        0 < k && k + 1 < p.len() && p[k] == 0x3b && (forall|i: int|
            0 <= i < p.len() && i != k ==> is_digit(#[trigger] p[i]))
}

/// What an intercepted CSI sequence turns into; `None` when it passes through.
pub open spec fn csi_reply(params: Seq<u8>, fin: u8) -> Option<Seq<Atom>> {
    if fin == 0x63 {
        if params.len() == 0 || params == seq![0x30u8] {
            Some(seq![Atom::Reply(da1_reply())])
        } else if params == seq![0x3eu8] || params == seq![0x3eu8, 0x30] {
            Some(seq![Atom::Reply(da2_reply())])
        } else {
            None
        }
    } else if fin == 0x6e {
        if params == seq![0x35u8] {
            Some(seq![Atom::Reply(dsr_ok_reply())])
        } else if params == seq![0x36u8] {
            Some(seq![Atom::CursorQuery])
        } else {
            None
        }
    } else if fin == 0x52 {
        if is_cpr_params(params) {
            Some(Seq::empty())
        } else {
            None
        }
    } else {
        None
    }
}

/// Flags after a CSI sequence: DEC private mode set (`h`) / reset (`l`)
/// switches mouse reporting and bracketed paste.
pub open spec fn csi_flags(f: Flags, params: Seq<u8>, fin: u8) -> Flags {
    if (fin == 0x68 || fin == 0x6c) && params.len() > 0 && params[0] == 0x3f {
        let fs = fields_from(params, 1);
        let enable = fin == 0x68;
        Flags {
            mouse_mode: if (exists|i: int| 0 <= i < fs.len() && is_mouse_mode_field(#[trigger] fs[i])) {
                enable
            } else {
                f.mouse_mode
            },
            bracketed_paste: if (exists|i: int|
                0 <= i < fs.len() && is_paste_mode_field(#[trigger] fs[i])) {
                enable
            } else {
                f.bracketed_paste
            },
            ..f
        }
    } else {
        f
    }
}

/// CSI: `ESC [ <params 0x20..=0x3f> <final 0x40..=0x7e>`.
pub open spec fn csi_step(f: Flags, s: Seq<u8>) -> Option<Step> {
    let j = csi_end(s, 2);
    if j >= s.len() {
        None
    } else if !is_final_byte(s[j]) {
        Some(Step { len: 1, out: bytes(s.take(1)), flags: f })
    } else {
        let params = s.subrange(2, j);
        Some(
            Step {
                len: (j + 1) as nat,
                out: match csi_reply(params, s[j]) {
                    Some(o) => o,
                    None => bytes(s.take(j + 1)),
                },
                flags: csi_flags(f, params, s[j]),
            },
        )
    }
}

/// `rgb:rrrr/gggg/bbbb` answer to an OSC 10/11/12 color query.
pub open spec fn osc_reply(code: Seq<u8>, rgb: (u8, u8, u8), bel: bool) -> Seq<u8> {
    seq![0x1bu8, 0x5d] + code + seq![0x3bu8, 0x72, 0x67, 0x62, 0x3a] + hex2(rgb.0) + hex2(rgb.0)
        + seq![0x2fu8] + hex2(rgb.1) + hex2(rgb.1) + seq![0x2fu8] + hex2(rgb.2) + hex2(rgb.2) + (
    if bel {
        seq![0x07u8]
    } else {
        seq![0x1bu8, 0x5c]
    })
}

/// The color asked for by an OSC body `10;?`, `11;?` or `12;?`.
pub open spec fn osc_color(f: Flags, content: Seq<u8>) -> Option<(u8, u8, u8)> {
    if content == seq![0x31u8, 0x30, 0x3b, 0x3f] {
        Some(f.fg)
    } else if content == seq![0x31u8, 0x31, 0x3b, 0x3f] {
        Some(f.bg)
    } else if content == seq![0x31u8, 0x32, 0x3b, 0x3f] {
        Some(f.cursor)
    } else {
        None
    }
}

/// A complete OSC sequence whose body ends at `j` and terminator has length `t`.
pub open spec fn osc_finish(f: Flags, s: Seq<u8>, j: int, t: int, bel: bool) -> Step {
    let content = s.subrange(2, j);
    match osc_color(f, content) {
        Some(rgb) => Step {
            len: (j + t) as nat,
            out: seq![Atom::Reply(osc_reply(content.take(2), rgb, bel))],
            flags: f,
        },
        None => Step { len: (j + t) as nat, out: bytes(s.take(j + t)), flags: f },
    }
}

/// OSC: `ESC ] ... (BEL | ESC \)`.
pub open spec fn osc_step(f: Flags, s: Seq<u8>) -> Option<Step> {
    let j = osc_end(s, 2);
    if j >= s.len() {
        None
    } else if s[j] == 0x07 {
        Some(osc_finish(f, s, j, 1, true))
    } else if j + 1 >= s.len() {
        None
    } else if s[j + 1] == 0x5c {
        Some(osc_finish(f, s, j, 2, false))
    } else {
        Some(Step { len: 1, out: bytes(s.take(1)), flags: f })
    }
}

/// One escape sequence at the start of `s` (`s[0]` is ESC); `None` when
/// more bytes are needed to decide.
pub open spec fn step(f: Flags, s: Seq<u8>) -> Option<Step> {
    if s.len() < 2 {
        None
    } else if s[1] == 0x5b {
        csi_step(f, s)
    } else if s[1] == 0x5d {
        osc_step(f, s)
    } else {
        Some(Step { len: 2, out: bytes(s.take(2)), flags: f })
    }
}

/// The result of running the parser over a buffer.
pub struct RunResult {
    pub atoms: Seq<Atom>,
    pub flags: Flags,
    /// Incomplete trailing sequence kept for the next read.
    pub pending: Seq<u8>,
    /// Whether an oversized incomplete sequence was flushed as data.
    pub flushed: bool,
}

pub proof fn lemma_csi_end_bounds(s: Seq<u8>, j: int)
    requires
        0 <= j <= s.len(),
    ensures
        j <= csi_end(s, j) <= s.len(),
    decreases s.len() - j,
{
    if j < s.len() && is_param_byte(s[j]) {
        lemma_csi_end_bounds(s, j + 1);
    }
}

pub proof fn lemma_osc_end_bounds(s: Seq<u8>, j: int)
    requires
        0 <= j <= s.len(),
    ensures
        j <= osc_end(s, j) <= s.len(),
    decreases s.len() - j,
{
    if j < s.len() && !(s[j] == 0x07 || s[j] == 0x1b) {
        lemma_osc_end_bounds(s, j + 1);
    }
}

pub proof fn lemma_find_byte_bounds(s: Seq<u8>, b: u8, j: int)
    requires
        0 <= j <= s.len(),
    ensures
        j <= find_byte(s, b, j) <= s.len(),
        find_byte(s, b, j) < s.len() ==> s[find_byte(s, b, j)] == b,
        forall|i: int| j <= i < find_byte(s, b, j) ==> s[i] != b,
    decreases s.len() - j,
{
    if j < s.len() && s[j] != b {
        lemma_find_byte_bounds(s, b, j + 1);
    }
}

/// A step consumes at least one byte and no more than it was given.
pub proof fn lemma_step_len(f: Flags, s: Seq<u8>)
    ensures
        step(f, s) matches Some(st) ==> 1 <= st.len <= s.len(),
{
    if s.len() >= 2 {
        lemma_csi_end_bounds(s, 2);
        lemma_osc_end_bounds(s, 2);
    }
}

/// Run the parser over a whole buffer, starting from flags `f`.
pub open spec fn run(f: Flags, buf: Seq<u8>) -> RunResult
    decreases buf.len(),
{
    if buf.len() == 0 {
        RunResult { atoms: Seq::empty(), flags: f, pending: Seq::empty(), flushed: false }
    } else if buf[0] != 0x1b {
        let r = run(f, buf.drop_first());
        RunResult { atoms: seq![Atom::Byte(buf[0])] + r.atoms, ..r }
    } else {
        match step(f, buf) {
            Some(st) => {
                proof {
                    lemma_step_len(f, buf);
                }
                let r = run(st.flags, buf.skip(st.len as int));
                RunResult { atoms: st.out + r.atoms, ..r }
            },
            None => {
                if buf.len() > MAX_PENDING {
                    RunResult { atoms: bytes(buf), flags: f, pending: Seq::empty(), flushed: true }
                } else {
                    RunResult { atoms: Seq::empty(), flags: f, pending: buf, flushed: false }
                }
            },
        }
    }
}

/// The parser's answer to one read of remote output.
pub open spec fn process_spec(st: ParserView, input: Seq<u8>) -> RunResult {
    run(st.flags, st.pending + input)
}

/// The parser state after a run.
pub open spec fn after(r: RunResult) -> ParserView {
    ParserView { pending: r.pending, flags: r.flags }
}

// ---------------------------------------------------------------------------
// Lemmas
// ---------------------------------------------------------------------------

pub proof fn lemma_bytes_add(a: Seq<u8>, b: Seq<u8>)
    ensures
        bytes(a + b) == bytes(a) + bytes(b),
{
    assert(bytes(a + b) =~= bytes(a) + bytes(b));
}

proof fn lemma_csi_end_stable(s: Seq<u8>, y: Seq<u8>, j: int)
    requires
        0 <= j <= s.len(),
        csi_end(s, j) < s.len(),
    ensures
        csi_end(s + y, j) == csi_end(s, j),
    decreases s.len() - j,
{
    if j < s.len() && is_param_byte(s[j]) {
        lemma_csi_end_stable(s, y, j + 1);
    }
}

proof fn lemma_osc_end_stable(s: Seq<u8>, y: Seq<u8>, j: int)
    requires
        0 <= j <= s.len(),
        osc_end(s, j) < s.len(),
    ensures
        osc_end(s + y, j) == osc_end(s, j),
    decreases s.len() - j,
{
    if j < s.len() && !(s[j] == 0x07 || s[j] == 0x1b) {
        lemma_osc_end_stable(s, y, j + 1);
    }
}

/// A decided escape sequence stays decided the same way when more bytes follow.
pub proof fn lemma_step_stable(f: Flags, s: Seq<u8>, y: Seq<u8>)
    requires
        step(f, s) is Some,
    ensures
        step(f, s + y) == step(f, s),
{
    let t = s + y;
    assert(t[0] == s[0] && t[1] == s[1]);
    if s[1] == 0x5b {
        lemma_csi_end_bounds(s, 2);
        lemma_csi_end_stable(s, y, 2);
        let j = csi_end(s, 2);
        assert(t[j] == s[j]);
        assert(t.take(1) =~= s.take(1));
        assert(t.take(j + 1) =~= s.take(j + 1));
        assert(t.subrange(2, j) =~= s.subrange(2, j));
    } else if s[1] == 0x5d {
        lemma_osc_end_bounds(s, 2);
        lemma_osc_end_stable(s, y, 2);
        let j = osc_end(s, 2);
        assert(t[j] == s[j]);
        assert(t.take(1) =~= s.take(1));
        assert(t.subrange(2, j) =~= s.subrange(2, j));
        if s[j] == 0x07 {
            assert(t.take(j + 1) =~= s.take(j + 1));
        } else {
            assert(t[j + 1] == s[j + 1]);
            assert(t.take(j + 2) =~= s.take(j + 2));
        }
    } else {
        assert(t.take(2) =~= s.take(2));
    }
}

/// Running over `x + y` is running over `x`, then over its leftover plus `y`.
pub proof fn lemma_run_append(f: Flags, x: Seq<u8>, y: Seq<u8>)
    requires
        !run(f, x).flushed,
    ensures
        run(f, x + y) == (RunResult {
            atoms: run(f, x).atoms + run(run(f, x).flags, run(f, x).pending + y).atoms,
            ..run(run(f, x).flags, run(f, x).pending + y)
        }),
    decreases x.len(),
{
    let xy = x + y;
    if x.len() == 0 {
        assert(xy =~= y);
        assert(Seq::<u8>::empty() + y =~= y);
        assert(Seq::<Atom>::empty() + run(f, y).atoms =~= run(f, y).atoms);
    } else if x[0] != 0x1b {
        assert(xy[0] == x[0]);
        assert(xy.drop_first() =~= x.drop_first() + y);
        lemma_run_append(f, x.drop_first(), y);
        let r = run(f, x.drop_first());
        let r2 = run(r.flags, r.pending + y);
        assert(seq![Atom::Byte(x[0])] + (r.atoms + r2.atoms) =~= (seq![Atom::Byte(x[0])]
            + r.atoms) + r2.atoms);
    } else {
        assert(xy[0] == x[0]);
        match step(f, x) {
            Some(st) => {
                lemma_step_len(f, x);
                lemma_step_stable(f, x, y);
                assert(xy.skip(st.len as int) =~= x.skip(st.len as int) + y);
                lemma_run_append(st.flags, x.skip(st.len as int), y);
                let r = run(st.flags, x.skip(st.len as int));
                let r2 = run(r.flags, r.pending + y);
                assert(st.out + (r.atoms + r2.atoms) =~= (st.out + r.atoms) + r2.atoms);
            },
            None => {
                assert(Seq::<Atom>::empty() + run(f, xy).atoms =~= run(f, xy).atoms);
            },
        }
    }
}

/// **Split invariance.** Feeding the parser `a` and then `b` yields exactly
/// the atoms, flags and leftover of feeding it `a + b` at once, unless the
/// first read ended in an oversized incomplete sequence that was flushed.
pub proof fn lemma_split_invariance(s: ParserView, a: Seq<u8>, b: Seq<u8>)
    requires
        !process_spec(s, a).flushed,
    ensures
        process_spec(s, a).atoms + process_spec(after(process_spec(s, a)), b).atoms
            == process_spec(s, a + b).atoms,
        after(process_spec(after(process_spec(s, a)), b)) == after(process_spec(s, a + b)),
{
    lemma_run_append(s.flags, s.pending + a, b);
    assert(s.pending + (a + b) =~= (s.pending + a) + b);
}

/// Bytes that contain no ESC pass through as data.
pub proof fn lemma_run_plain(f: Flags, buf: Seq<u8>)
    requires
        forall|i: int| 0 <= i < buf.len() ==> buf[i] != 0x1b,
    ensures
        run(f, buf) == (RunResult {
            atoms: bytes(buf),
            flags: f,
            pending: Seq::empty(),
            flushed: false,
        }),
    decreases buf.len(),
{
    if buf.len() > 0 {
        lemma_run_plain(f, buf.drop_first());
        assert(bytes(buf) =~= seq![Atom::Byte(buf[0])] + bytes(buf.drop_first()));
    } else {
        assert(bytes(buf) =~= Seq::empty());
    }
}

/// **Plain text passes through.** With nothing buffered, input without ESC
/// comes out as the same bytes of data and changes no setting.
pub proof fn lemma_plain_passthrough(s: ParserView, input: Seq<u8>)
    requires
        s.pending.len() == 0,
        forall|i: int| 0 <= i < input.len() ==> input[i] != 0x1b,
    ensures
        process_spec(s, input).atoms == bytes(input),
        after(process_spec(s, input)) == (ParserView { pending: Seq::empty(), flags: s.flags }),
{
    assert(s.pending + input =~= input);
    lemma_run_plain(s.flags, input);
}

/// A run of non-ESC bytes at the front of a buffer comes out as data.
proof fn lemma_run_prefix_plain(f: Flags, b: Seq<u8>, i: int, k: int)
    requires
        0 <= i <= k <= b.len(),
        forall|m: int| i <= m < k ==> b[m] != 0x1b,
    ensures
        run(f, b.skip(i)) == (RunResult {
            atoms: bytes(b.subrange(i, k)) + run(f, b.skip(k)).atoms,
            ..run(f, b.skip(k))
        }),
    decreases k - i,
{
    if i == k {
        assert(bytes(b.subrange(i, k)) =~= Seq::empty());
        assert(Seq::<Atom>::empty() + run(f, b.skip(k)).atoms =~= run(f, b.skip(k)).atoms);
    } else {
        lemma_run_prefix_plain(f, b, i + 1, k);
        assert(b.skip(i)[0] == b[i]);
        assert(b.skip(i).drop_first() =~= b.skip(i + 1));
        assert(bytes(b.subrange(i, k)) =~= seq![Atom::Byte(b[i])] + bytes(b.subrange(i + 1, k)));
        let r = run(f, b.skip(k));
        assert(seq![Atom::Byte(b[i])] + (bytes(b.subrange(i + 1, k)) + r.atoms) =~= (seq![
            Atom::Byte(b[i]),
        ] + bytes(b.subrange(i + 1, k))) + r.atoms);
    }
}

proof fn lemma_expand_push(es: Seq<RemoteOutputEvent>, e: RemoteOutputEvent)
    ensures
        expand(es.push(e)) == expand(es) + event_atoms(e),
{
    assert(es.push(e).drop_last() =~= es);
}

// ---------------------------------------------------------------------------
// Executable parser
// ---------------------------------------------------------------------------

/// Build a CPR answer for a 1-based cursor position: `ESC [ row ; col R`.
pub fn cpr_response(row: u16, col: u16) -> (out: Vec<u8>)
    ensures
        out@ == seq![0x1bu8, 0x5b] + dec(row as nat) + seq![0x3bu8] + dec(col as nat) + seq![
            0x52u8,
        ],
{
    let mut out: Vec<u8> = Vec::new();
    out.push(0x1b);
    out.push(0x5b);
    push_dec(&mut out, row as u64);
    out.push(0x3b);
    push_dec(&mut out, col as u64);
    out.push(0x52);
    assert(out@ =~= seq![0x1bu8, 0x5b] + dec(row as nat) + seq![0x3bu8] + dec(col as nat) + seq![
        0x52u8,
    ]);
    out
}

/// Format an OSC color reply, echoing the query's terminator style.
fn osc_color_reply(code0: u8, code1: u8, rgb: (u8, u8, u8), bel_terminated: bool) -> (out: Vec<
    u8,
>)
    ensures
        out@ == osc_reply(seq![code0, code1], rgb, bel_terminated),
{
    let (r, g, b) = rgb;
    let mut out: Vec<u8> = Vec::new();
    out.push(0x1b);
    out.push(0x5d);
    out.push(code0);
    out.push(code1);
    out.push(0x3b);
    out.push(0x72);
    out.push(0x67);
    out.push(0x62);
    out.push(0x3a);
    push_hex2(&mut out, r);
    push_hex2(&mut out, r);
    out.push(0x2f);
    push_hex2(&mut out, g);
    push_hex2(&mut out, g);
    out.push(0x2f);
    push_hex2(&mut out, b);
    push_hex2(&mut out, b);
    if bel_terminated {
        out.push(0x07);
    } else {
        out.push(0x1b);
        out.push(0x5c);
    }
    assert(out@ =~= osc_reply(seq![code0, code1], rgb, bel_terminated));
    out
}

/// Copy `buf[from..to]` into a fresh vector.
fn copy_range(buf: &Vec<u8>, from: usize, to: usize) -> (out: Vec<u8>)
    requires
        from <= to <= buf.len(),
    ensures
        out@ == buf@.subrange(from as int, to as int),
{
    let mut out: Vec<u8> = Vec::new();
    let mut k: usize = from;
    while k < to
        invariant
            from <= k <= to <= buf.len(),
            out@ == buf@.subrange(from as int, k as int),
        decreases to - k,
    {
        out.push(buf[k]);
        k += 1;
        assert(out@ =~= buf@.subrange(from as int, k as int));
    }
    out
}

/// Accumulates events, merging consecutive data bytes into one `Data` chunk.
struct EventSink {
    events: Vec<RemoteOutputEvent>,
    data: Vec<u8>,
}

impl EventSink {
    /// The atoms emitted so far (flushed events plus buffered data).
    spec fn emitted(&self) -> Seq<Atom> {
        expand(self.events@) + bytes(self.data@)
    }

    spec fn wf(&self) -> bool {
        &&& canonical(self.events@)
        &&& (self.events@.len() == 0 || !is_data(self.events@.last()))
    }

    fn new() -> (s: Self)
        ensures
            s.wf(),
            s.emitted() == Seq::<Atom>::empty(),
    {
        let s = EventSink { events: Vec::new(), data: Vec::new() };
        assert(s.emitted() =~= Seq::<Atom>::empty());
        s
    }

    /// Buffer `buf[from..to]` as data.
    fn data_range(&mut self, buf: &Vec<u8>, from: usize, to: usize)
        requires
            old(self).wf(),
            from <= to <= buf.len(),
        ensures
            final(self).wf(),
            final(self).emitted() == old(self).emitted() + bytes(buf@.subrange(from as int, to as int)),
    {
        let ghost e0 = self.emitted();
        if from == to {
            assert(bytes(buf@.subrange(from as int, to as int)) =~= Seq::empty());
            assert(e0 + Seq::<Atom>::empty() =~= e0);
            return;
        }
        let mut k: usize = from;
        while k < to
            invariant
                from <= k <= to <= buf.len(),
                self.wf(),
                self.events@ == old(self).events@,
                self.emitted() == e0 + bytes(buf@.subrange(from as int, k as int)),
            decreases to - k,
        {
            let ghost d0 = self.data@;
            let b = buf[k];
            self.data.push(b);
            proof {
                assert(self.data@ =~= d0 + seq![b]);
                lemma_bytes_add(d0, seq![b]);
                lemma_bytes_add(buf@.subrange(from as int, k as int), seq![b]);
                assert(buf@.subrange(from as int, k as int + 1) =~= buf@.subrange(
                    from as int,
                    k as int,
                ) + seq![b]);
                let ex = expand(self.events@);
                assert(ex + (bytes(d0) + bytes(seq![b])) =~= (ex + bytes(d0)) + bytes(seq![b]));
                assert(e0 + (bytes(buf@.subrange(from as int, k as int)) + bytes(seq![b])) =~= (e0
                    + bytes(buf@.subrange(from as int, k as int))) + bytes(seq![b]));
            }
            k += 1;
        }
    }

    fn flush_data(&mut self)
        requires
            old(self).wf(),
        ensures
            canonical(final(self).events@),
            final(self).data@.len() == 0,
            final(self).emitted() == old(self).emitted(),
    {
        if self.data.len() > 0 {
            let mut d: Vec<u8> = Vec::new();
            core::mem::swap(&mut d, &mut self.data);
            let ghost es = self.events@;
            self.events.push(RemoteOutputEvent::Data(d));
            proof {
                lemma_expand_push(es, RemoteOutputEvent::Data(d));
                assert(bytes(self.data@) =~= Seq::empty());
                let ne = self.events@;
                assert forall|i: int| 0 <= i && i + 1 < ne.len() implies !(is_data(
                    #[trigger] ne[i],
                ) && is_data(ne[i + 1])) by {
                    if i + 1 < es.len() {
                        assert(ne[i] == es[i] && ne[i + 1] == es[i + 1]);
                    } else {
                        assert(ne[i] == es.last());
                    }
                }
                assert forall|i: int| 0 <= i < ne.len() implies (#[trigger] ne[i] matches RemoteOutputEvent::Data(dd)
                    ==> dd@.len() > 0) by {
                    if i < es.len() {
                        assert(ne[i] == es[i]);
                    }
                }
                assert(self.emitted() =~= old(self).emitted());
            }
        }
    }

    fn push_event(&mut self, e: RemoteOutputEvent)
        requires
            old(self).wf(),
            !is_data(e),
        ensures
            final(self).wf(),
            final(self).emitted() == old(self).emitted() + event_atoms(e),
    {
        self.flush_data();
        let ghost es = self.events@;
        self.events.push(e);
        proof {
            lemma_expand_push(es, e);
            assert(bytes(self.data@) =~= Seq::empty());
            let ne = self.events@;
            assert forall|i: int| 0 <= i && i + 1 < ne.len() implies !(is_data(#[trigger] ne[i])
                && is_data(ne[i + 1])) by {
                if i + 1 < es.len() {
                    assert(ne[i] == es[i] && ne[i + 1] == es[i + 1]);
                }
            }
            assert forall|i: int| 0 <= i < ne.len() implies (#[trigger] ne[i] matches RemoteOutputEvent::Data(dd)
                ==> dd@.len() > 0) by {
                if i < es.len() {
                    assert(ne[i] == es[i]);
                }
            }
            assert(expand(es) + Seq::<Atom>::empty() =~= expand(es));
            assert(self.emitted() =~= expand(es) + event_atoms(e));
        }
    }

    fn response(&mut self, bytes: Vec<u8>)
        requires
            old(self).wf(),
        ensures
            final(self).wf(),
            final(self).emitted() == old(self).emitted() + seq![Atom::Reply(bytes@)],
    {
        self.push_event(RemoteOutputEvent::Response(bytes));
    }

    fn cpr(&mut self)
        requires
            old(self).wf(),
        ensures
            final(self).wf(),
            final(self).emitted() == old(self).emitted() + seq![Atom::CursorQuery],
    {
        self.push_event(RemoteOutputEvent::Cpr);
    }

    fn finish(self) -> (events: Vec<RemoteOutputEvent>)
        requires
            self.wf(),
        ensures
            canonical(events@),
            expand(events@) == self.emitted(),
    {
        let mut s = self;
        s.flush_data();
        assert(bytes(s.data@) =~= Seq::<Atom>::empty());
        assert(expand(s.events@) + bytes(s.data@) =~= expand(s.events@));
        s.events
    }
}

#[derive(Debug)]
pub struct OutputParser {
    /// Buffered tail of an incomplete escape sequence from the previous read.
    pub pending: Vec<u8>,
    /// Remote app has enabled DEC mouse reporting (1000/1002/1003/1006).
    pub mouse_mode: bool,
    /// Remote app has enabled bracketed paste (2004).
    pub bracketed_paste: bool,
    /// Colors reported for OSC 10 (fg), 11 (bg), 12 (cursor) queries.
    pub fg_color: (u8, u8, u8),
    pub bg_color: (u8, u8, u8),
    pub cursor_color: (u8, u8, u8),
}

impl View for OutputParser {
    type V = ParserView;

    open spec fn view(&self) -> ParserView {
        ParserView { pending: self.pending@, flags: self.flags() }
    }
}

impl OutputParser {
    pub open spec fn flags(&self) -> Flags {
        Flags {
            mouse_mode: self.mouse_mode,
            bracketed_paste: self.bracketed_paste,
            fg: self.fg_color,
            bg: self.bg_color,
            cursor: self.cursor_color,
        }
    }

    pub fn new() -> (p: Self)
        ensures
            p@ == (ParserView {
                pending: Seq::empty(),
                flags: Flags {
                    mouse_mode: false,
                    bracketed_paste: false,
                    fg: (0xd4, 0xd4, 0xd4),
                    bg: (0x1e, 0x1e, 0x1e),
                    cursor: (0xff, 0xcc, 0x00),
                },
            }),
    {
        OutputParser {
            pending: Vec::new(),
            mouse_mode: false,
            bracketed_paste: false,
            fg_color: (0xd4, 0xd4, 0xd4),
            bg_color: (0x1e, 0x1e, 0x1e),
            cursor_color: (0xff, 0xcc, 0x00),
        }
    }

    /// The buffered incomplete escape sequence.
    pub fn pending(&self) -> (p: &[u8])
        ensures
            p@ == self@.pending,
    {
        self.pending.as_slice()
    }

    /// Process a chunk of remote output, returning ordered events.
    pub fn process(&mut self, input: &[u8]) -> (events: Vec<RemoteOutputEvent>)
        ensures
            canonical(events@),
            expand(events@) == process_spec(old(self)@, input@).atoms,
            final(self)@ == after(process_spec(old(self)@, input@)),
            final(self)@.pending.len() <= MAX_PENDING,
    {
        let mut buf: Vec<u8> = Vec::new();
        core::mem::swap(&mut buf, &mut self.pending);
        let mut n: usize = 0;
        while n < input.len()
            invariant
                n <= input.len(),
                buf@ == old(self)@.pending + input@.subrange(0, n as int),
            decreases input.len() - n,
        {
            buf.push(input[n]);
            n += 1;
            assert(buf@ =~= old(self)@.pending + input@.subrange(0, n as int));
        }
        assert(input@.subrange(0, input@.len() as int) =~= input@);
        let ghost f0 = self.flags();
        let ghost b0 = buf@;
        let mut sink = EventSink::new();
        let mut tail: Vec<u8> = Vec::new();
        let mut i: usize = 0;
        proof {
            assert(b0.skip(0) =~= b0);
            assert(Seq::<Atom>::empty() + run(f0, b0).atoms =~= run(f0, b0).atoms);
            assert(Seq::<u8>::empty() + run(f0, b0).pending =~= run(f0, b0).pending);
        }
        while i < buf.len()
            invariant
                buf@ == b0,
                i <= buf.len(),
                sink.wf(),
                self.pending@ == Seq::<u8>::empty(),
                tail@.len() <= MAX_PENDING,
                i < buf.len() ==> tail@ == Seq::<u8>::empty(),
                self.fg_color == old(self).fg_color,
                self.bg_color == old(self).bg_color,
                self.cursor_color == old(self).cursor_color,
                run(f0, b0).atoms == sink.emitted() + run(self.flags(), b0.skip(i as int)).atoms,
                run(f0, b0).flags == run(self.flags(), b0.skip(i as int)).flags,
                run(f0, b0).pending == tail@ + run(self.flags(), b0.skip(i as int)).pending,
            decreases buf.len() - i,
        {
            if buf[i] != 0x1b {
                let mut k: usize = i;
                while k < buf.len() && buf[k] != 0x1b
                    invariant
                        i <= k <= buf.len(),
                        forall|m: int| i <= m < k ==> b0[m] != 0x1b,
                        buf@ == b0,
                    decreases buf.len() - k,
                {
                    k += 1;
                }
                let ghost e0 = sink.emitted();
                sink.data_range(&buf, i, k);
                proof {
                    lemma_run_prefix_plain(self.flags(), b0, i as int, k as int);
                    let r = run(self.flags(), b0.skip(k as int));
                    assert(e0 + (bytes(b0.subrange(i as int, k as int)) + r.atoms) =~= (e0 + bytes(
                        b0.subrange(i as int, k as int),
                    )) + r.atoms);
                }
                i = k;
            } else {
                let ghost f = self.flags();
                let ghost s = b0.skip(i as int);
                let ghost e0 = sink.emitted();
                proof {
                    lemma_step_len(f, s);
                }
                match self.consume_escape(&buf, i, &mut sink) {
                    Some(len) => {
                        proof {
                            let st = step(f, s).unwrap();
                            assert(s.skip(len as int) =~= b0.skip(i + len));
                            let r = run(st.flags, s.skip(st.len as int));
                            assert(e0 + (st.out + r.atoms) =~= (e0 + st.out) + r.atoms);
                        }
                        i += len;
                    },
                    None => {
                        if buf.len() - i > MAX_PENDING {
                            sink.data_range(&buf, i, buf.len());
                            proof {
                                assert(b0.subrange(i as int, b0.len() as int) =~= s);
                                assert(b0.skip(b0.len() as int) =~= Seq::<u8>::empty());
                                assert(sink.emitted() + Seq::<Atom>::empty() =~= sink.emitted());
                                assert(tail@ + Seq::<u8>::empty() =~= tail@);
                            }
                        } else {
                            tail = copy_range(&buf, i, buf.len());
                            proof {
                                assert(b0.subrange(i as int, b0.len() as int) =~= s);
                                assert(b0.skip(b0.len() as int) =~= Seq::<u8>::empty());
                                assert(sink.emitted() + Seq::<Atom>::empty() =~= sink.emitted());
                                assert(e0 + Seq::<Atom>::empty() =~= e0);
                                assert(tail@ + Seq::<u8>::empty() =~= tail@);
                            }
                        }
                        i = buf.len();
                    },
                }
            }
        }
        proof {
            assert(b0.skip(i as int) =~= Seq::<u8>::empty());
            assert(sink.emitted() + Seq::<Atom>::empty() =~= sink.emitted());
            assert(tail@ + Seq::<u8>::empty() =~= tail@);
        }
        self.pending = tail;
        sink.finish()
    }

    /// `buf[start] == ESC`. Try to consume one full escape sequence.
    fn consume_escape(&mut self, buf: &Vec<u8>, start: usize, sink: &mut EventSink) -> (r: Option<
        usize,
    >)
        requires
            start < buf.len(),
            buf@[start as int] == 0x1b,
            old(sink).wf(),
        ensures
            final(sink).wf(),
            final(self).pending == old(self).pending,
            final(self).fg_color == old(self).fg_color,
            final(self).bg_color == old(self).bg_color,
            final(self).cursor_color == old(self).cursor_color,
            match step(old(self).flags(), buf@.skip(start as int)) {
                None => r is None && final(sink).emitted() == old(sink).emitted() && final(self).flags() == old(self).flags(),
                Some(st) => r == Some(st.len as usize) && final(sink).emitted() == old(sink).emitted() + st.out && final(self).flags() == st.flags,
            },
    {
        if buf.len() - start < 2 {
            return None;
        }
        if buf[start + 1] == 0x5b {
            self.consume_csi(buf, start, sink)
        } else if buf[start + 1] == 0x5d {
            self.consume_osc(buf, start, sink)
        } else {
            sink.data_range(buf, start, start + 2);
            proof {
                assert(buf@.subrange(start as int, start + 2) =~= buf@.skip(start as int).take(2));
            }
            Some(2)
        }
    }

    /// CSI: `ESC [ <params 0x20..=0x3f> <final 0x40..=0x7e>`.
    fn consume_csi(&mut self, buf: &Vec<u8>, start: usize, sink: &mut EventSink) -> (r: Option<
        usize,
    >)
        requires
            start + 1 < buf.len(),
            buf@[start as int] == 0x1b,
            buf@[start + 1] == 0x5b,
            old(sink).wf(),
        ensures
            final(sink).wf(),
            final(self).pending == old(self).pending,
            final(self).fg_color == old(self).fg_color,
            final(self).bg_color == old(self).bg_color,
            final(self).cursor_color == old(self).cursor_color,
            match csi_step(old(self).flags(), buf@.skip(start as int)) {
                None => r is None && final(sink).emitted() == old(sink).emitted() && final(self).flags() == old(self).flags(),
                Some(st) => r == Some(st.len as usize) && final(sink).emitted() == old(sink).emitted() + st.out && final(self).flags() == st.flags,
            },
    {
        let ghost s = buf@.skip(start as int);
        let mut k: usize = start + 2;
        proof {
            lemma_csi_end_bounds(s, 2);
        }
        while k < buf.len() && 0x20 <= buf[k] && buf[k] <= 0x3f
            invariant
                start + 2 <= k <= buf.len(),
                s == buf@.skip(start as int),
                csi_end(s, k - start) == csi_end(s, 2),
            decreases buf.len() - k,
        {
            k += 1;
        }
        if k >= buf.len() {
            return None;
        }
        let fin = buf[k];
        if !(0x40 <= fin && fin <= 0x7e) {
            sink.data_range(buf, start, start + 1);
            proof {
                assert(buf@.subrange(start as int, start + 1) =~= s.take(1));
            }
            return Some(1);
        }
        let params = copy_range(buf, start + 2, k);
        proof {
            assert(params@ =~= s.subrange(2, k - start));
        }
        let handled = self.handle_csi(&params, fin, sink);
        if !handled {
            sink.data_range(buf, start, k + 1);
            proof {
                assert(buf@.subrange(start as int, k + 1) =~= s.take(k - start + 1));
            }
        }
        Some(k + 1 - start)
    }

    /// Returns true when the sequence was intercepted (not passed through).
    fn handle_csi(&mut self, params: &Vec<u8>, final_byte: u8, sink: &mut EventSink) -> (handled:
        bool)
        requires
            old(sink).wf(),
        ensures
            final(sink).wf(),
            final(self).pending == old(self).pending,
            final(self).fg_color == old(self).fg_color,
            final(self).bg_color == old(self).bg_color,
            final(self).cursor_color == old(self).cursor_color,
            final(self).flags() == csi_flags(old(self).flags(), params@, final_byte),
            match csi_reply(params@, final_byte) {
                Some(o) => handled && final(sink).emitted() == old(sink).emitted() + o,
                None => !handled && final(sink).emitted() == old(sink).emitted(),
            },
    {
        let n = params.len();
        if final_byte == 0x63 {
            if n == 0 || (n == 1 && params[0] == 0x30) {
                proof {
                    if n == 1 {
                        assert(params@ =~= seq![0x30u8]);
                    }
                }
                let reply: Vec<u8> = vec![0x1b, 0x5b, 0x3f, 0x36, 0x32, 0x3b, 0x31, 0x3b, 0x36, 0x63];
                assert(reply@ =~= da1_reply());
                sink.response(reply);
                return true;
            }
            if (n == 1 && params[0] == 0x3e) || (n == 2 && params[0] == 0x3e && params[1] == 0x30) {
                proof {
                    if n == 1 {
                        assert(params@ =~= seq![0x3eu8]);
                    } else {
                        assert(params@ =~= seq![0x3eu8, 0x30]);
                    }
                }
                let reply: Vec<u8> = vec![0x1b, 0x5b, 0x3e, 0x31, 0x3b, 0x30, 0x3b, 0x30, 0x63];
                assert(reply@ =~= da2_reply());
                sink.response(reply);
                return true;
            }
            proof {
                if params@ == seq![0x30u8] {
                    assert(params@[0] == 0x30);
                }
                if params@ == seq![0x3eu8] {
                    assert(params@[0] == 0x3e);
                }
                if params@ == seq![0x3eu8, 0x30] {
                    assert(params@[0] == 0x3e && params@[1] == 0x30);
                }
            }
            return false;
        }
        if final_byte == 0x6e {
            if n == 1 && params[0] == 0x35 {
                assert(params@ =~= seq![0x35u8]);
                let reply: Vec<u8> = vec![0x1b, 0x5b, 0x30, 0x6e];
                assert(reply@ =~= dsr_ok_reply());
                sink.response(reply);
                return true;
            }
            if n == 1 && params[0] == 0x36 {
                assert(params@ =~= seq![0x36u8]);
                sink.cpr();
                return true;
            }
            proof {
                if params@ == seq![0x35u8] {
                    assert(params@[0] == 0x35);
                }
                if params@ == seq![0x36u8] {
                    assert(params@[0] == 0x36);
                }
            }
            return false;
        }
        if final_byte == 0x52 {
            let ok = cpr_shape(params);
            if ok {
                assert(Seq::<Atom>::empty() =~= Seq::<Atom>::empty());
                assert(old(sink).emitted() + Seq::<Atom>::empty() =~= old(sink).emitted());
            }
            return ok;
        }
        if (final_byte == 0x68 || final_byte == 0x6c) && n > 0 && params[0] == 0x3f {
            self.apply_private_modes(params, final_byte == 0x68);
        }
        false
    }

    /// DEC private mode set/reset: scan the fields after `?` for mouse and
    /// bracketed paste modes.
    fn apply_private_modes(&mut self, params: &Vec<u8>, enable: bool)
        requires
            params.len() > 0,
            params@[0] == 0x3f,
        ensures
            final(self).pending == old(self).pending,
            final(self).fg_color == old(self).fg_color,
            final(self).bg_color == old(self).bg_color,
            final(self).cursor_color == old(self).cursor_color,
            final(self).flags() == csi_flags(
                old(self).flags(),
                params@,
                if enable {
                    0x68u8
                } else {
                    0x6cu8
                },
            ),
    {
        let ghost p = params@;
        let ghost fs = fields_from(p, 1);
        let ghost mut done: Seq<Seq<u8>> = Seq::empty();
        let mut pos: usize = 1;
        let mut saw_mouse = false;
        let mut saw_paste = false;
        loop
            invariant_except_break
                fs == done + fields_from(p, pos as int),
            invariant
                1 <= pos <= params.len(),
                p == params@,
                saw_mouse == (exists|i: int| 0 <= i < done.len() && is_mouse_mode_field(#[trigger] done[i])),
                saw_paste == (exists|i: int| 0 <= i < done.len() && is_paste_mode_field(#[trigger] done[i])),
            ensures
                fs == done,
            decreases params.len() - pos,
        {
            let mut k: usize = pos;
            while k < params.len() && params[k] != 0x3b
                invariant
                    pos <= k <= params.len(),
                    p == params@,
                    find_byte(p, 0x3b, pos as int) == find_byte(p, 0x3b, k as int),
                decreases params.len() - k,
            {
                k += 1;
            }
            let ghost field = p.subrange(pos as int, k as int);
            proof {
                lemma_find_byte_bounds(p, 0x3b, pos as int);
                assert(find_byte(p, 0x3b, pos as int) == k);
            }
            let m = field_is_mouse_mode(params, pos, k);
            let q = field_is_paste_mode(params, pos, k);
            let ghost old_done = done;
            proof {
                done = done.push(field);
                assert(done[done.len() - 1] == field);
                if m {
                    assert(is_mouse_mode_field(done[done.len() - 1]));
                }
                if q {
                    assert(is_paste_mode_field(done[done.len() - 1]));
                }
                assert forall|i: int| 0 <= i < old_done.len() implies #[trigger] done[i] == old_done[i] by {}
                if saw_mouse && !m {
                    let w = choose|i: int| 0 <= i < old_done.len() && is_mouse_mode_field(#[trigger] old_done[i]);
                    assert(done[w] == old_done[w]);
                }
                if saw_paste && !q {
                    let w = choose|i: int| 0 <= i < old_done.len() && is_paste_mode_field(#[trigger] old_done[i]);
                    assert(done[w] == old_done[w]);
                }
                if !saw_mouse && !m {
                    assert forall|i: int| 0 <= i < done.len() implies !is_mouse_mode_field(#[trigger] done[i]) by {
                        if i < old_done.len() {
                            assert(done[i] == old_done[i]);
                        }
                    }
                }
                if !saw_paste && !q {
                    assert forall|i: int| 0 <= i < done.len() implies !is_paste_mode_field(#[trigger] done[i]) by {
                        if i < old_done.len() {
                            assert(done[i] == old_done[i]);
                        }
                    }
                }
            }
            saw_mouse = saw_mouse || m;
            saw_paste = saw_paste || q;
            if k >= params.len() {
                proof {
                    assert(fields_from(p, pos as int) == seq![field]);
                    assert(fs =~= done);
                }
                break;
            }
            proof {
                assert(fields_from(p, pos as int) == seq![field] + fields_from(p, k + 1));
                assert(fs =~= done + fields_from(p, k + 1));
            }
            pos = k + 1;
        }
        if saw_mouse {
            self.mouse_mode = enable;
        }
        if saw_paste {
            self.bracketed_paste = enable;
        }
    }

    /// OSC: `ESC ] ... (BEL | ESC \)`.
    fn consume_osc(&mut self, buf: &Vec<u8>, start: usize, sink: &mut EventSink) -> (r: Option<
        usize,
    >)
        requires
            start + 1 < buf.len(),
            buf@[start as int] == 0x1b,
            buf@[start + 1] == 0x5d,
            old(sink).wf(),
        ensures
            final(sink).wf(),
            final(self).pending == old(self).pending,
            final(self).flags() == old(self).flags(),
            final(self).fg_color == old(self).fg_color,
            final(self).bg_color == old(self).bg_color,
            final(self).cursor_color == old(self).cursor_color,
            match osc_step(old(self).flags(), buf@.skip(start as int)) {
                None => r is None && final(sink).emitted() == old(sink).emitted(),
                Some(st) => r == Some(st.len as usize) && final(sink).emitted() == old(sink).emitted() + st.out,
            },
    {
        let ghost s = buf@.skip(start as int);
        let mut j: usize = start + 2;
        proof {
            lemma_osc_end_bounds(s, 2);
        }
        while j < buf.len() && buf[j] != 0x07 && buf[j] != 0x1b
            invariant
                start + 2 <= j <= buf.len(),
                s == buf@.skip(start as int),
                osc_end(s, j - start) == osc_end(s, 2),
            decreases buf.len() - j,
        {
            j += 1;
        }
        if j >= buf.len() {
            return None;
        }
        let bel = buf[j] == 0x07;
        let term_len: usize;
        if bel {
            term_len = 1;
        } else {
            if j + 1 >= buf.len() {
                return None;
            }
            if buf[j + 1] != 0x5c {
                sink.data_range(buf, start, start + 1);
                proof {
                    assert(buf@.subrange(start as int, start + 1) =~= s.take(1));
                }
                return Some(1);
            }
            term_len = 2;
        }
        let len = j + term_len - start;
        proof {
            let jj = (j - start) as int;
            assert(osc_end(s, 2) == jj);
            assert(s[jj] == buf@[j as int]);
            if !bel {
                assert(s[jj + 1] == buf@[j + 1]);
            }
            assert(buf@.subrange(start + 2, j as int) =~= s.subrange(2, jj));
        }
        let handled = self.handle_osc(buf, start + 2, j, bel, sink);
        if !handled {
            sink.data_range(buf, start, j + term_len);
            proof {
                assert(buf@.subrange(start as int, j + term_len) =~= s.take(len as int));
            }
        }
        Some(len)
    }

    /// Answer OSC 10/11/12 color queries (`ESC]10;?BEL`) whose body is
    /// `buf[from..to]`. Returns true when the query was intercepted.
    fn handle_osc(&mut self, buf: &Vec<u8>, from: usize, to: usize, bel: bool, sink: &mut EventSink) -> (handled: bool)
        requires
            from <= to <= buf.len(),
            old(sink).wf(),
        ensures
            final(sink).wf(),
            *final(self) == *old(self),
            match osc_color(old(self).flags(), buf@.subrange(from as int, to as int)) {
                Some(rgb) => handled && final(sink).emitted() == old(sink).emitted() + seq![
                    Atom::Reply(osc_reply(buf@.subrange(from as int, to as int).take(2), rgb, bel)),
                ],
                None => !handled && final(sink).emitted() == old(sink).emitted(),
            },
    {
        let ghost content = buf@.subrange(from as int, to as int);
        if to - from != 4 || buf[from] != 0x31 || buf[from + 2] != 0x3b || buf[from + 3] != 0x3f {
            proof {
                if content.len() == 4 {
                    assert(content[0] == buf@[from as int]);
                    assert(content[2] == buf@[from + 2]);
                    assert(content[3] == buf@[from + 3]);
                }
            }
            return false;
        }
        let c1 = buf[from + 1];
        let rgb = if c1 == 0x30 {
            self.fg_color
        } else if c1 == 0x31 {
            self.bg_color
        } else if c1 == 0x32 {
            self.cursor_color
        } else {
            proof {
                assert(content[1] == c1);
            }
            return false;
        };
        proof {
            assert(content =~= seq![0x31u8, c1, 0x3b, 0x3f]);
            assert(content.take(2) =~= seq![0x31u8, c1]);
        }
        let reply = osc_color_reply(0x31, c1, rgb, bel);
        sink.response(reply);
        true
    }
}

/// Whether CSI parameters have the `<digits>;<digits>` shape of a cursor
/// position report.
fn cpr_shape(p: &Vec<u8>) -> (ok: bool)
    ensures
        ok == is_cpr_params(p@),
{
    let n = p.len();
    let mut k: usize = 0;
    while k < n && p[k] != 0x3b
        invariant
            k <= n == p.len(),
            forall|i: int| 0 <= i < k ==> p@[i] != 0x3b,
        decreases n - k,
    {
        k += 1;
    }
    if k == 0 || n - k <= 1 {
        proof {
            if is_cpr_params(p@) {
                let w = choose|w: int|
                    0 < w && w + 1 < p@.len() && p@[w] == 0x3b && (forall|i: int|
                        0 <= i < p@.len() && i != w ==> is_digit(#[trigger] p@[i]));
                if k < w {
                    assert(is_digit(p@[k as int]));
                }
            }
        }
        return false;
    }
    let mut i: usize = 0;
    while i < n
        invariant
            i <= n == p.len(),
            0 < k < n,
            p@[k as int] == 0x3b,
            forall|m: int| 0 <= m < k ==> p@[m] != 0x3b,
            forall|m: int| 0 <= m < i && m != k ==> is_digit(#[trigger] p@[m]),
        decreases n - i,
    {
        if i != k && !(0x30 <= p[i] && p[i] <= 0x39) {
            proof {
                if is_cpr_params(p@) {
                    let w = choose|w: int|
                        0 < w && w + 1 < p@.len() && p@[w] == 0x3b && (forall|m: int|
                            0 <= m < p@.len() && m != w ==> is_digit(#[trigger] p@[m]));
                    if w != k {
                        if w < k {
                            assert(p@[w] != 0x3b);
                        } else {
                            assert(is_digit(p@[k as int]));
                        }
                    }
                    assert(is_digit(p@[i as int]));
                }
            }
            return false;
        }
        i += 1;
    }
    assert(is_cpr_params(p@)) by {
        assert(0 < k && k + 1 < p@.len() && p@[k as int] == 0x3b && (forall|m: int|
            0 <= m < p@.len() && m != k ==> is_digit(#[trigger] p@[m])));
    }
    true
}

/// Whether `p[from..to]` is one of the mouse reporting modes.
fn field_is_mouse_mode(p: &Vec<u8>, from: usize, to: usize) -> (b: bool)
    requires
        from <= to <= p.len(),
    ensures
        b == is_mouse_mode_field(p@.subrange(from as int, to as int)),
{
    let ghost x = p@.subrange(from as int, to as int);
    if to - from != 4 {
        proof {
            if is_mouse_mode_field(x) {
                assert(x.len() == 4);
            }
        }
        return false;
    }
    let r = p[from] == 0x31 && p[from + 1] == 0x30 && p[from + 2] == 0x30 && (p[from + 3] == 0x30
        || p[from + 3] == 0x32 || p[from + 3] == 0x33 || p[from + 3] == 0x36);
    proof {
        assert(x[0] == p@[from as int] && x[1] == p@[from + 1] && x[2] == p@[from + 2] && x[3]
            == p@[from + 3]);
        if r {
            assert(x =~= seq![0x31u8, 0x30, 0x30, p@[from + 3]]);
        }
    }
    r
}

/// Whether `p[from..to]` is `2004`.
fn field_is_paste_mode(p: &Vec<u8>, from: usize, to: usize) -> (b: bool)
    requires
        from <= to <= p.len(),
    ensures
        b == is_paste_mode_field(p@.subrange(from as int, to as int)),
{
    let ghost x = p@.subrange(from as int, to as int);
    if to - from != 4 {
        proof {
            if is_paste_mode_field(x) {
                assert(x.len() == 4);
            }
        }
        return false;
    }
    let r = p[from] == 0x32 && p[from + 1] == 0x30 && p[from + 2] == 0x30 && p[from + 3] == 0x34;
    proof {
        assert(x[0] == p@[from as int] && x[1] == p@[from + 1] && x[2] == p@[from + 2] && x[3]
            == p@[from + 3]);
        if r {
            assert(x =~= seq![0x32u8, 0x30, 0x30, 0x34]);
        }
    }
    r
}


/// `ESC [ ? 1 0 0 d h` (set, `set`) or `... l` (reset): the DEC private
/// mode sequence for mouse mode `100d`.
pub open spec fn mouse_mode_seq(d: u8, set: bool) -> Seq<u8> {
    seq![0x1bu8, 0x5b, 0x3f, 0x31, 0x30, 0x30, d, if set { 0x68u8 } else { 0x6cu8 }]
}

/// **Setting and resetting any mouse mode.** For each of the mouse modes
/// 1000, 1002, 1003 and 1006, with nothing buffered and whatever the flags,
/// the set sequence turns mouse reporting on and the reset sequence turns
/// it off; bracketed paste is left alone, the bytes pass through to the
/// screen unchanged, and nothing stays buffered. So a reset undoes a set
/// for every mouse mode.
pub proof fn lemma_mouse_mode_set_reset(st: ParserView, d: u8, set: bool)
    requires
        st.pending.len() == 0,
        d == 0x30 || d == 0x32 || d == 0x33 || d == 0x36,
    ensures
        process_spec(st, mouse_mode_seq(d, set)).flags.mouse_mode == set,
        process_spec(st, mouse_mode_seq(d, set)).flags.bracketed_paste == st.flags.bracketed_paste,
        process_spec(st, mouse_mode_seq(d, set)).atoms == bytes(mouse_mode_seq(d, set)),
        process_spec(st, mouse_mode_seq(d, set)).pending.len() == 0,
{
    let input = mouse_mode_seq(d, set);
    assert(st.pending + input =~= input);
    reveal_with_fuel(csi_end, 8);
    assert(csi_end(input, 2) == 7);
    let params = input.subrange(2, 7);
    reveal_with_fuel(find_byte, 6);
    assert(find_byte(params, 0x3b, 1) == 5);
    let fs = fields_from(params, 1);
    assert(fs == seq![params.subrange(1, 5)]);
    assert(params.subrange(1, 5) =~= seq![0x31u8, 0x30, 0x30, d]);
    assert(is_mouse_mode_field(fs[0]));
    assert(!is_paste_mode_field(fs[0]));
    assert(forall|i: int| 0 <= i < fs.len() ==> !is_paste_mode_field(#[trigger] fs[i]));
    assert(input.take(8) =~= input);
    assert(input.skip(8) =~= Seq::<u8>::empty());
    reveal_with_fuel(run, 2);
}

} // verus!
