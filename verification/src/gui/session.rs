//! Messages between a terminal tab and its SSH worker, and the worker's
//! decisions: how input is queued and bounded per tick, when buffered
//! output is flushed, what a heartbeat reports, and how the session's end
//! is reported. The worker's loop, its timers and the SSH calls belong to
//! the caller, which hands each outcome back here.

use vstd::prelude::*;
use crate::ssh_client::{chunks_spec, write_chunks, SSH_WRITE_CHUNK};
use crate::text::chars_of;
use crate::gui::dialogs::{contains_seq, contains_chars};
use crate::ssh_client::{ConnParams, Secret, identity_spec};
use crate::cli::{ParamsView, params_view, opt_view};
use crate::config::Profile;
use crate::auth::{host_spec, parse_host};
use crate::text::{trim, trimmed, lemma_first_index, lemma_last_index, dec_chars, push_dec_chars, push_str_chars,
    digits_value, is_ascii_digit, strip_plus, all_digits};
use crate::decimal::{dec, lemma_dec_digits};

verus! {

// Backpressure limits.
pub const WRITE_CHUNKS_PER_TICK: usize = 4;
pub const INPUT_DRAIN_PER_TICK: usize = 64;
pub const FLUSH_THRESHOLD: usize = 65536;
pub const FLUSH_INTERVAL_MS: u64 = 16;
pub const HEARTBEAT_INTERVAL_MS: u64 = 5000;
pub const KEEPALIVE_INTERVAL_MS: u64 = 30000;
pub const MAX_MSGS_PER_FRAME: usize = 128;
pub const MAX_BYTES_PER_FRAME: usize = 262144;
pub const SCROLLBACK_LINES: usize = 1000;

#[derive(Debug)]
pub enum GuiToSsh {
    Data(Vec<u8>),
    Resize { cols: u16, rows: u16 },
    /// Toggle periodic keep-alive probes.
    KeepAlive(bool),
}

#[derive(Debug)]
pub enum SshMsg {
    Connected { cols: u16, rows: u16 },
    Data(Vec<u8>),
    Heartbeat { pending_chunks: usize, buffered_output: usize, read_timeouts: u64 },
    Disconnected,
    Error(String),
}

/// Editable connection form state (also used for reconnect pre-fill).
#[derive(Debug, Clone)]
pub struct PendingConn {
    /// `[user@]host[:port]` as typed in the form.
    pub host: String,
    pub key_path: String,
    pub password: String,
    pub save_as: String,
    pub error: Option<String>,
    pub connecting: bool,
}

impl Default for PendingConn {
    fn default() -> (p: Self)
        ensures
            p.host@.len() == 0,
            p.key_path@.len() == 0,
            p.password@.len() == 0,
            p.save_as@.len() == 0,
            p.error is None,
            !p.connecting,
    {
        PendingConn {
            host: String::new(),
            key_path: String::new(),
            password: String::new(),
            save_as: String::new(),
            error: None,
            connecting: false,
        }
    }
}

#[verifier::external_type_specification]
#[verifier::external_body]
pub struct ExInstant(std::time::Instant);

pub struct HeartbeatInfo {
    pub at: std::time::Instant,
    pub pending_chunks: usize,
    pub buffered_output: usize,
    pub read_timeouts: u64,
}

/// What the worker keeps between ticks.
pub struct WorkerState {
    /// Chunks waiting to be written, oldest first.
    pub pending_writes: Vec<Vec<u8>>,
    /// The latest requested terminal size, not yet applied.
    pub pending_resize: Option<(u16, u16)>,
    /// Remote output not yet handed to the UI.
    pub out_buf: Vec<u8>,
    /// Reads that ended without data.
    pub read_timeouts: u64,
    pub keep_alive: bool,
}

/// The views of queued chunks.
pub open spec fn chunk_views(v: Seq<Vec<u8>>) -> Seq<Seq<u8>> {
    v.map_values(|c: Vec<u8>| c@)
}

/// The text reported when a session ends: a deliberate stop, the remote
/// closing, or a failure whose message mentions `Timeout` end quietly;
/// any other failure is reported as an error.
pub open spec fn end_report(reason: Option<Seq<char>>, stopped: bool) -> Option<Seq<char>> {
    match reason {
        Some(e) => if !stopped && !contains_seq(e, "Timeout"@) {
            Some(e)
        } else {
            None
        },
        None => None,
    }
}

impl WorkerState {
    pub fn new(keep_alive: bool) -> (s: Self)
        ensures
            s.pending_writes@.len() == 0,
            s.pending_resize is None,
            s.out_buf@.len() == 0,
            s.read_timeouts == 0,
            s.keep_alive == keep_alive,
    {
        WorkerState {
            pending_writes: Vec::new(),
            pending_resize: None,
            out_buf: Vec::new(),
            read_timeouts: 0,
            keep_alive,
        }
    }

    /// Take one message from the UI: data is queued in write-sized chunks,
    /// a resize replaces any earlier one not yet applied, a keep-alive
    /// toggle is recorded. Returns whether the keep-alive timer restarts.
    pub fn accept(&mut self, msg: GuiToSsh) -> (restart_keepalive: bool)
        ensures
            match msg {
                GuiToSsh::Data(d) => {
                    &&& chunk_views(final(self).pending_writes@) == chunk_views(
                        old(self).pending_writes@,
                    ) + chunks_spec(d@, SSH_WRITE_CHUNK as nat)
                    &&& final(self).pending_resize == old(self).pending_resize
                    &&& final(self).keep_alive == old(self).keep_alive
                    &&& !restart_keepalive
                },
                GuiToSsh::Resize { cols, rows } => {
                    &&& final(self).pending_writes@ == old(self).pending_writes@
                    &&& final(self).pending_resize == Some((cols, rows))
                    &&& final(self).keep_alive == old(self).keep_alive
                    &&& !restart_keepalive
                },
                GuiToSsh::KeepAlive(on) => {
                    &&& final(self).pending_writes@ == old(self).pending_writes@
                    &&& final(self).pending_resize == old(self).pending_resize
                    &&& final(self).keep_alive == on
                    &&& restart_keepalive
                },
            },
            final(self).out_buf@ == old(self).out_buf@,
            final(self).read_timeouts == old(self).read_timeouts,
    {
        match msg {
            GuiToSsh::Data(data) => {
                let chunks = write_chunks(data.as_slice());
                let ghost start = chunk_views(self.pending_writes@);
                let mut i: usize = 0;
                while i < chunks.len()
                    invariant
                        i <= chunks.len(),
                        chunk_views(self.pending_writes@) == start + chunk_views(chunks@).take(
                            i as int,
                        ),
                        self.pending_resize == old(self).pending_resize,
                        self.keep_alive == old(self).keep_alive,
                        self.out_buf@ == old(self).out_buf@,
                        self.read_timeouts == old(self).read_timeouts,
                        start == chunk_views(old(self).pending_writes@),
                    decreases chunks.len() - i,
                {
                    let ghost before = self.pending_writes@;
                    let c = copy_bytes(&chunks[i]);
                    self.pending_writes.push(c);
                    assert(chunk_views(self.pending_writes@) =~= chunk_views(before).push(
                        chunks@[i as int]@,
                    ));
                    assert(chunk_views(chunks@).take(i + 1) =~= chunk_views(chunks@).take(
                        i as int,
                    ).push(chunks@[i as int]@));
                    i += 1;
                }
                assert(chunk_views(chunks@).take(chunks.len() as int) =~= chunk_views(chunks@));
                false
            },
            GuiToSsh::Resize { cols, rows } => {
                self.pending_resize = Some((cols, rows));
                false
            },
            GuiToSsh::KeepAlive(on) => {
                self.keep_alive = on;
                true
            },
        }
    }

    /// The resize to apply before reading, if one was requested.
    pub fn take_resize(&mut self) -> (r: Option<(u16, u16)>)
        ensures
            r == old(self).pending_resize,
            final(self).pending_resize is None,
            final(self).pending_writes@ == old(self).pending_writes@,
            final(self).out_buf@ == old(self).out_buf@,
            final(self).read_timeouts == old(self).read_timeouts,
            final(self).keep_alive == old(self).keep_alive,
    {
        let r = self.pending_resize;
        self.pending_resize = None;
        r
    }

    /// The chunks to write this tick: the oldest ones, at most
    /// [`WRITE_CHUNKS_PER_TICK`]; the rest stay queued in order.
    pub fn writes_for_tick(&mut self) -> (w: Vec<Vec<u8>>)
        ensures
            w@.len() == if old(self).pending_writes@.len() < WRITE_CHUNKS_PER_TICK {
                old(self).pending_writes@.len()
            } else {
                WRITE_CHUNKS_PER_TICK as nat
            },
            chunk_views(w@) + chunk_views(final(self).pending_writes@) == chunk_views(
                old(self).pending_writes@,
            ),
            final(self).pending_resize == old(self).pending_resize,
            final(self).out_buf@ == old(self).out_buf@,
            final(self).read_timeouts == old(self).read_timeouts,
            final(self).keep_alive == old(self).keep_alive,
    {
        let mut w: Vec<Vec<u8>> = Vec::new();
        let ghost all = chunk_views(self.pending_writes@);
        while w.len() < WRITE_CHUNKS_PER_TICK && self.pending_writes.len() > 0
            invariant
                w.len() <= WRITE_CHUNKS_PER_TICK,
                chunk_views(w@) + chunk_views(self.pending_writes@) == all,
                all == chunk_views(old(self).pending_writes@),
                w.len() + self.pending_writes.len() == old(self).pending_writes.len(),
                self.pending_resize == old(self).pending_resize,
                self.out_buf@ == old(self).out_buf@,
                self.read_timeouts == old(self).read_timeouts,
                self.keep_alive == old(self).keep_alive,
            decreases self.pending_writes.len(),
        {
            let ghost q = self.pending_writes@;
            let ghost before = w@;
            let c = self.pending_writes.remove(0);
            w.push(c);
            assert(chunk_views(w@) =~= chunk_views(before).push(q[0]@));
            assert(chunk_views(q) =~= seq![q[0]@] + chunk_views(self.pending_writes@));
            assert(chunk_views(w@) + chunk_views(self.pending_writes@) =~= chunk_views(before)
                + chunk_views(q));
        }
        w
    }

    /// Record the outcome of a read: data is buffered, a read that timed
    /// out is counted.
    pub fn record_read(&mut self, data: &[u8], timed_out: bool)
        requires
            timed_out ==> old(self).read_timeouts < u64::MAX,
        ensures
            final(self).out_buf@ == old(self).out_buf@ + if timed_out {
                Seq::<u8>::empty()
            } else {
                data@
            },
            final(self).read_timeouts == old(self).read_timeouts + if timed_out {
                1int
            } else {
                0int
            },
            final(self).pending_writes@ == old(self).pending_writes@,
            final(self).pending_resize == old(self).pending_resize,
            final(self).keep_alive == old(self).keep_alive,
    {
        if timed_out {
            self.read_timeouts = self.read_timeouts + 1;
            assert(self.out_buf@ =~= old(self).out_buf@ + Seq::<u8>::empty());
            return;
        }
        let mut i: usize = 0;
        while i < data.len()
            invariant
                i <= data.len(),
                self.out_buf@ == old(self).out_buf@ + data@.take(i as int),
                self.pending_writes@ == old(self).pending_writes@,
                self.pending_resize == old(self).pending_resize,
                self.keep_alive == old(self).keep_alive,
                self.read_timeouts == old(self).read_timeouts,
            decreases data.len() - i,
        {
            self.out_buf.push(data[i]);
            i += 1;
            assert(self.out_buf@ =~= old(self).out_buf@ + data@.take(i as int));
        }
        assert(data@.take(data.len() as int) =~= data@);
    }

    /// Whether buffered output is handed to the UI now: when there is some,
    /// and it reached the threshold or the flush interval has passed.
    pub fn should_flush(&self, interval_elapsed: bool) -> (b: bool)
        ensures
            b == (self.out_buf@.len() > 0 && (self.out_buf@.len() >= FLUSH_THRESHOLD
                || interval_elapsed)),
    {
        self.out_buf.len() > 0 && (self.out_buf.len() >= FLUSH_THRESHOLD || interval_elapsed)
    }

    /// Hand over the buffered output.
    pub fn take_output(&mut self) -> (out: Vec<u8>)
        ensures
            out@ == old(self).out_buf@,
            final(self).out_buf@.len() == 0,
            final(self).pending_writes@ == old(self).pending_writes@,
            final(self).pending_resize == old(self).pending_resize,
            final(self).read_timeouts == old(self).read_timeouts,
            final(self).keep_alive == old(self).keep_alive,
    {
        let mut out: Vec<u8> = Vec::new();
        std::mem::swap(&mut out, &mut self.out_buf);
        out
    }

    /// Whether a keep-alive probe is due.
    pub fn keepalive_due(&self, interval_elapsed: bool) -> (b: bool)
        ensures
            b == (self.keep_alive && interval_elapsed),
    {
        self.keep_alive && interval_elapsed
    }

    /// The heartbeat reporting the worker's queues.
    pub fn heartbeat(&self) -> (m: SshMsg)
        ensures
            m == (SshMsg::Heartbeat {
                pending_chunks: self.pending_writes@.len() as usize,
                buffered_output: self.out_buf@.len() as usize,
                read_timeouts: self.read_timeouts,
            }),
    {
        SshMsg::Heartbeat {
            pending_chunks: self.pending_writes.len(),
            buffered_output: self.out_buf.len(),
            read_timeouts: self.read_timeouts,
        }
    }
}

fn copy_bytes(v: &Vec<u8>) -> (r: Vec<u8>)
    ensures
        r@ == v@,
{
    let mut r: Vec<u8> = Vec::new();
    let mut i: usize = 0;
    while i < v.len()
        invariant
            i <= v.len(),
            r@ == v@.take(i as int),
        decreases v.len() - i,
    {
        r.push(v[i]);
        i += 1;
        assert(r@ =~= v@.take(i as int));
    }
    assert(v@.take(v.len() as int) =~= v@);
    r
}

/// How the end of a session is reported, given why the loop ended and
/// whether the tab asked the worker to stop.
pub fn end_message(reason: Option<String>, stopped: bool) -> (m: SshMsg)
    ensures
        match end_report(
            match reason {
                Some(e) => Some(e@),
                None => None,
            },
            stopped,
        ) {
            Some(e) => m matches SshMsg::Error(s) && s@ == e,
            None => m matches SshMsg::Disconnected,
        },
{
    match reason {
        Some(e) => {
            if stopped {
                return SshMsg::Disconnected;
            }
            let ev = chars_of(e.as_str());
            let t = chars_of("Timeout");
            if contains_chars(&ev, &t) {
                SshMsg::Disconnected
            } else {
                SshMsg::Error(e)
            }
        },
        None => SshMsg::Disconnected,
    }
}

/// Whether a frame has drained as many worker messages or bytes as it
/// may; the rest waits for the next frame.
pub fn frame_limit_hit(msgs: usize, bytes: usize) -> (b: bool)
    ensures
        b == (msgs >= MAX_MSGS_PER_FRAME || bytes >= MAX_BYTES_PER_FRAME),
{
    msgs >= MAX_MSGS_PER_FRAME || bytes >= MAX_BYTES_PER_FRAME
}

/// What a tab knows of its connection, apart from the screen contents.
pub struct SessionStatus {
    pub connected: bool,
    pub disconnected: bool,
    pub error: Option<String>,
    pub cols: u16,
    pub rows: u16,
    /// Bytes received from the remote.
    pub received: u64,
    /// Bumped whenever new terminal data arrives (invalidates search cache).
    pub generation: u64,
}

impl SessionStatus {
    pub fn new(cols: u16, rows: u16) -> (s: Self)
        ensures
            !s.connected,
            !s.disconnected,
            s.error is None,
            s.cols == cols,
            s.rows == rows,
            s.received == 0,
            s.generation == 0,
    {
        SessionStatus {
            connected: false,
            disconnected: false,
            error: None,
            cols,
            rows,
            received: 0,
            generation: 0,
        }
    }

    /// The canvas now has `cols` by `rows` cells. Returns whether that is a
    /// change, which the emulator, the row stamps and the worker must
    /// follow; the size is then recorded.
    pub fn resize(&mut self, cols: u16, rows: u16) -> (changed: bool)
        ensures
            changed == (cols != old(self).cols || rows != old(self).rows),
            final(self).cols == cols,
            final(self).rows == rows,
            final(self).connected == old(self).connected,
            final(self).disconnected == old(self).disconnected,
            final(self).error == old(self).error,
            final(self).received == old(self).received,
            final(self).generation == old(self).generation,
    {
        if cols == self.cols && rows == self.rows {
            return false;
        }
        self.cols = cols;
        self.rows = rows;
        true
    }

    /// Apply one worker message to the status. Data counts as received and
    /// bumps the generation; the bytes themselves go to the emulator.
    pub fn apply(&mut self, msg: SshMsg)
        requires
            msg matches SshMsg::Data(d) ==> old(self).received + d@.len() <= u64::MAX
                && old(self).generation < u64::MAX,
        ensures
            match msg {
                SshMsg::Connected { cols, rows } => {
                    &&& final(self).connected
                    &&& final(self).cols == cols && final(self).rows == rows
                    &&& final(self).disconnected == old(self).disconnected
                    &&& final(self).error == old(self).error
                    &&& final(self).received == old(self).received
                    &&& final(self).generation == old(self).generation
                },
                SshMsg::Data(d) => {
                    &&& final(self).received == old(self).received + d@.len()
                    &&& final(self).generation == old(self).generation + 1
                    &&& final(self).connected == old(self).connected
                    &&& final(self).disconnected == old(self).disconnected
                    &&& final(self).error == old(self).error
                    &&& final(self).cols == old(self).cols && final(self).rows == old(self).rows
                },
                SshMsg::Heartbeat { .. } => *final(self) == *old(self),
                SshMsg::Disconnected => {
                    &&& !final(self).connected && final(self).disconnected
                    &&& final(self).error == old(self).error
                    &&& final(self).received == old(self).received
                    &&& final(self).generation == old(self).generation
                    &&& final(self).cols == old(self).cols && final(self).rows == old(self).rows
                },
                SshMsg::Error(e) => {
                    &&& !final(self).connected && final(self).disconnected
                    &&& final(self).error == Some(e)
                    &&& final(self).received == old(self).received
                    &&& final(self).generation == old(self).generation
                    &&& final(self).cols == old(self).cols && final(self).rows == old(self).rows
                },
            },
    {
        match msg {
            SshMsg::Connected { cols, rows } => {
                self.connected = true;
                self.cols = cols;
                self.rows = rows;
            },
            SshMsg::Data(d) => {
                self.received = self.received + d.len() as u64;
                self.generation = self.generation + 1;
            },
            SshMsg::Heartbeat { .. } => {},
            SshMsg::Disconnected => {
                self.connected = false;
                self.disconnected = true;
            },
            SshMsg::Error(e) => {
                self.connected = false;
                self.disconnected = true;
                self.error = Some(e);
            },
        }
    }

    /// The worker's channel closed: the session counts as disconnected.
    pub fn channel_closed(&mut self)
        ensures
            final(self).disconnected,
            !old(self).disconnected ==> !final(self).connected,
            old(self).disconnected ==> final(self).connected == old(self).connected,
            final(self).error == old(self).error,
            final(self).received == old(self).received,
            final(self).generation == old(self).generation,
            final(self).cols == old(self).cols && final(self).rows == old(self).rows,
    {
        if !self.disconnected {
            self.connected = false;
            self.disconnected = true;
        }
    }
}

/// `user@host:port`, the target a reconnect form is filled with.
pub open spec fn target_spec(user: Seq<char>, host: Seq<char>, port: u16) -> Seq<char> {
    user + seq!['@'] + host + seq![':'] + dec_chars(port as nat)
}

/// The target `user@host:port` of a connection.
pub fn format_target(user: &str, host: &str, port: u16) -> (r: String)
    ensures
        r@ == target_spec(user@, host@, port),
{
    let mut r = String::new();
    push_str_chars(&mut r, user);
    r.push('@');
    push_str_chars(&mut r, host);
    r.push(':');
    push_dec_chars(&mut r, port as u64);
    assert(r@ =~= target_spec(user@, host@, port));
    r
}

proof fn lemma_dec_chars_value(n: nat)
    ensures
        dec_chars(n).len() > 0,
        all_digits(dec_chars(n)),
        digits_value(dec_chars(n)) == n,
        dec_chars(n)[0] != '+',
        forall|i: int| 0 <= i < dec_chars(n).len() ==> #[trigger] dec_chars(n)[i] != ':',
    decreases n,
{
    lemma_dec_digits(n);
    let d = dec_chars(n);
    assert forall|i: int| 0 <= i < d.len() implies is_ascii_digit(#[trigger] d[i]) && d[i] != ':' by {
        assert(d[i] == dec(n)[i] as char);
    }
    if n >= 10 {
        let m = n / 10;
        let r = n % 10;
        lemma_dec_chars_value(m);
        assert(dec(n) == dec(m).push((48 + r) as u8));
        assert(d.drop_last() =~= dec_chars(m));
        assert(d.last() == (48 + r) as u8 as char);
        assert(((48 + r) as u8 as char) as u32 == 48 + r);
        assert(digits_value(d) == digits_value(d.drop_last()) * 10 + ((d.last() as u32) - 0x30) as nat);
        assert(n == m * 10 + r);
    } else {
        assert(dec(n) == seq![(48 + n) as u8]);
        assert(d =~= seq![(48 + n) as u8 as char]);
        assert(d.drop_last() =~= Seq::<char>::empty());
        assert(((48 + n) as u8 as char) as u32 == 48 + n);
        assert(digits_value(d) == digits_value(d.drop_last()) * 10 + ((d.last() as u32) - 0x30) as nat);
    }
}

/// A reconnect form reads back as the connection it was filled from: for a
/// user without `@` and a host without `:`, parsing `user@host:port` gives
/// that user, host and port.
pub proof fn lemma_target_parses_back(user: Seq<char>, host: Seq<char>, port: u16)
    requires
        forall|i: int| 0 <= i < user.len() ==> user[i] != '@',
        forall|i: int| 0 <= i < host.len() ==> host[i] != ':',
    ensures
        host_spec(target_spec(user, host, port)) == (user, host, port),
{
    let s = target_spec(user, host, port);
    let d = dec_chars(port as nat);
    lemma_dec_chars_value(port as nat);
    let u = user.len() as int;
    assert(s[u] == '@');
    assert forall|j: int| 0 <= j < u implies s[j] != '@' by {
        assert(s[j] == user[j]);
    }
    lemma_first_index(s, '@', Some(u));
    let rest = s.skip(u + 1);
    assert(rest =~= host + seq![':'] + d);
    assert(s.take(u) =~= user);
    let h = host.len() as int;
    assert(rest[h] == ':');
    assert forall|j: int| h < j < rest.len() implies rest[j] != ':' by {
        assert(rest[j] == d[j - h - 1]);
    }
    lemma_last_index(rest, ':', Some(h));
    assert(rest.take(h) =~= host);
    assert(rest.skip(h + 1) =~= d);
    assert(strip_plus(d) == d);
}


/// The shorter forms read back too: for a host without `@` or `:`,
/// `host:port` gives no user, that host and that port, and `host` alone
/// gives no user, that host and port 22.
pub proof fn lemma_host_forms_parse_back(host: Seq<char>, port: u16)
    requires
        forall|i: int| 0 <= i < host.len() ==> host[i] != '@' && host[i] != ':',
    ensures
        host_spec(host + seq![':'] + dec_chars(port as nat)) == (Seq::<char>::empty(), host, port),
        host_spec(host) == (Seq::<char>::empty(), host, 22u16),
{
    let d = dec_chars(port as nat);
    lemma_dec_chars_value(port as nat);
    let s = host + seq![':'] + d;
    let h = host.len() as int;
    assert forall|j: int| 0 <= j < s.len() implies s[j] != '@' by {
        if j < h {
            assert(s[j] == host[j]);
        } else if j > h {
            assert(s[j] == d[j - h - 1]);
        }
    }
    lemma_first_index(s, '@', None);
    assert(s[h] == ':');
    assert forall|j: int| h < j < s.len() implies s[j] != ':' by {
        assert(s[j] == d[j - h - 1]);
    }
    lemma_last_index(s, ':', Some(h));
    assert(s.take(h) =~= host);
    assert(s.skip(h + 1) =~= d);
    assert(strip_plus(d) == d);
    lemma_first_index(host, '@', None);
    lemma_last_index(host, ':', None);
}

/// Text shown before the identity of a connection that ended without error.
pub open spec fn disconnected_from_prefix() -> Seq<char> {
    "Disconnected from "@
}

impl PendingConn {
    /// The form a disconnected tab returns to: pre-filled with the
    /// connection's target and key, and showing the session's error, or
    /// `Disconnected from <identity>` when there was none.
    pub fn reconnect_form(params: &ConnParams, error: Option<String>) -> (f: PendingConn)
        ensures
            f.host@ == target_spec(params.user@, params.host@, params.port),
            f.key_path@ == match params.key_path {
                Some(k) => k@,
                None => Seq::<char>::empty(),
            },
            f.error is Some,
            match error {
                Some(e) => f.error->0@ == e@,
                None => f.error->0@ == disconnected_from_prefix() + identity_spec(params.user@, params.host@),
            },
            f.password@.len() == 0,
            f.save_as@.len() == 0,
            !f.connecting,
    {
        let host = format_target(params.user.as_str(), params.host.as_str(), params.port);
        let key_path = match &params.key_path {
            Some(k) => k.clone(),
            None => String::new(),
        };
        let message = match error {
            Some(e) => e,
            None => {
                let mut m = String::new();
                push_str_chars(&mut m, "Disconnected from ");
                push_str_chars(&mut m, params.identity().as_str());
                m
            },
        };
        PendingConn {
            host,
            key_path,
            password: String::new(),
            save_as: String::new(),
            error: Some(message),
            connecting: false,
        }
    }
}


/// What connecting from a form asks of it: a host in `[user@]host[:port]`
/// once trimmed, and a password or a key. An empty user falls back to
/// `local_user`, an empty key field to `default_key` (the default key found
/// on disk, if any). The result is the connection's parameters, or the
/// error the form shows.
pub open spec fn form_params_spec(
    host: Seq<char>,
    key_path: Seq<char>,
    password: Seq<char>,
    local_user: Seq<char>,
    default_key: Option<Seq<char>>,
) -> Result<ParamsView, Seq<char>> {
    let (u, h, port) = host_spec(trim(host));
    let key = if trim(key_path).len() == 0 {
        default_key
    } else {
        Some(trim(key_path))
    };
    let pw = if password.len() == 0 {
        None
    } else {
        Some(password)
    };
    if h.len() == 0 {
        Err("Enter a host"@)
    } else if key is None && pw is None {
        Err("No password given and no default key found"@)
    } else {
        Ok(
            ParamsView {
                host: h,
                port,
                user: if u.len() == 0 {
                    local_user
                } else {
                    u
                },
                password: pw,
                key_path: key,
                timeout_secs: 15,
                verbose: false,
            },
        )
    }
}

impl PendingConn {
    /// Check the form before connecting. On success the form is marked as
    /// connecting, its error cleared, and the parameters are returned; else
    /// the form shows the error and nothing is returned.
    pub fn begin_connect(&mut self, local_user: &str, default_key: Option<String>) -> (r: Option<ConnParams>)
        ensures
            final(self).host == old(self).host,
            final(self).key_path == old(self).key_path,
            final(self).password == old(self).password,
            final(self).save_as == old(self).save_as,
            match form_params_spec(
                old(self).host@,
                old(self).key_path@,
                old(self).password@,
                local_user@,
                opt_view(default_key),
            ) {
                Ok(p) => {
                    &&& r matches Some(c) && params_view(c) == p
                    &&& final(self).connecting
                    &&& final(self).error is None
                },
                Err(e) => {
                    &&& r is None
                    &&& final(self).connecting == old(self).connecting
                    &&& final(self).error matches Some(m) && m@ == e
                },
            },
    {
        let spec = parse_host(trimmed(self.host.as_str()).as_str());
        if spec.host.as_str().is_empty() {
            let mut e = String::new();
            push_str_chars(&mut e, "Enter a host");
            self.error = Some(e);
            return None;
        }
        let user = if spec.user.as_str().is_empty() {
            let mut u = String::new();
            push_str_chars(&mut u, local_user);
            u
        } else {
            spec.user
        };
        let key = trimmed(self.key_path.as_str());
        let key_path = if key.as_str().is_empty() {
            default_key
        } else {
            Some(key)
        };
        let password = if self.password.as_str().is_empty() {
            None
        } else {
            Some(Secret::new(self.password.as_str()))
        };
        if key_path.is_none() && password.is_none() {
            let mut e = String::new();
            push_str_chars(&mut e, "No password given and no default key found");
            self.error = Some(e);
            return None;
        }
        self.connecting = true;
        self.error = None;
        Some(
            ConnParams {
                host: spec.host,
                port: spec.port,
                user,
                password,
                key_path,
                timeout_secs: 15,
                verbose: false,
            },
        )
    }
}


/// The parameters a saved profile connects with.
pub fn profile_params(p: &Profile) -> (c: ConnParams)
    ensures
        params_view(c) == (ParamsView {
            host: p.host@,
            port: p.port,
            user: p.user@,
            password: opt_view(p.password),
            key_path: opt_view(p.key_path),
            timeout_secs: 15,
            verbose: false,
        }),
{
    ConnParams {
        host: p.host.clone(),
        port: p.port,
        user: p.user.clone(),
        password: match &p.password {
            Some(pw) => Some(Secret::new(pw.as_str())),
            None => None,
        },
        key_path: p.key_path.clone(),
        timeout_secs: 15,
        verbose: false,
    }
}

/// The remote directory a profile's file tools open in: its own, else `/tmp`.
pub fn profile_remote_dir(p: &Profile) -> (d: String)
    ensures
        d@ == match p.remote_dir {
            Some(r) => r@,
            None => "/tmp"@,
        },
{
    match &p.remote_dir {
        Some(r) => r.clone(),
        None => {
            let mut d = String::new();
            push_str_chars(&mut d, "/tmp");
            d
        },
    }
}

impl PendingConn {
    /// The form kept behind a tab opened from the profile `name`: its
    /// target, its key, and the name it is saved as.
    pub fn for_profile(p: &Profile, name: &str) -> (f: PendingConn)
        ensures
            f.host@ == target_spec(p.user@, p.host@, p.port),
            f.key_path@ == match p.key_path {
                Some(k) => k@,
                None => Seq::<char>::empty(),
            },
            f.save_as@ == name@,
            f.password@.len() == 0,
            f.error is None,
            !f.connecting,
    {
        let mut save_as = String::new();
        push_str_chars(&mut save_as, name);
        PendingConn {
            host: format_target(p.user.as_str(), p.host.as_str(), p.port),
            key_path: match &p.key_path {
                Some(k) => k.clone(),
                None => String::new(),
            },
            password: String::new(),
            save_as,
            error: None,
            connecting: false,
        }
    }
}


/// When each live-screen row last changed, found by comparing each row's
/// hash with the one seen before.
pub struct RowStamps<T> {
    pub hashes: Vec<u64>,
    pub times: Vec<Option<T>>,
}

impl<T: Copy> RowStamps<T> {
    /// Stamps for `rows` rows, none of them seen yet.
    pub fn new(rows: u16) -> (s: Self)
        ensures
            s.hashes@ == Seq::new(rows as nat, |i: int| 0u64),
            s.times@ == Seq::new(rows as nat, |i: int| None::<T>),
    {
        let mut hashes: Vec<u64> = Vec::new();
        let mut times: Vec<Option<T>> = Vec::new();
        let mut i: u16 = 0;
        while i < rows
            invariant
                i <= rows,
                hashes@ == Seq::new(i as nat, |k: int| 0u64),
                times@ == Seq::new(i as nat, |k: int| None::<T>),
            decreases rows - i,
        {
            hashes.push(0);
            times.push(None);
            i += 1;
            assert(hashes@ =~= Seq::new(i as nat, |k: int| 0u64));
            assert(times@ =~= Seq::new(i as nat, |k: int| None::<T>));
        }
        RowStamps { hashes, times }
    }

    /// When row `row` last changed, if it has.
    pub fn row_time(&self, row: usize) -> (t: Option<T>)
        ensures
            t == if row < self.times@.len() {
                self.times@[row as int]
            } else {
                None
            },
    {
        if row < self.times.len() {
            self.times[row]
        } else {
            None
        }
    }

    /// Record the hashes of the rows now shown (`fresh[r]` for row `r`, of
    /// the first `rows` rows): each row whose hash changed gets the new
    /// hash and the time `now`.
    pub fn stamp(&mut self, fresh: &Vec<u64>, rows: u16, now: T)
        requires
            old(self).times@.len() == old(self).hashes@.len(),
            fresh.len() >= rows,
        ensures
            final(self).hashes@.len() == old(self).hashes@.len(),
            final(self).times@.len() == old(self).times@.len(),
            forall|r: int|
                0 <= r < old(self).hashes@.len() ==> {
                    let changed = r < rows && old(self).hashes@[r] != fresh@[r];
                    &&& #[trigger] final(self).hashes@[r] == if changed {
                        fresh@[r]
                    } else {
                        old(self).hashes@[r]
                    }
                    &&& final(self).times@[r] == if changed {
                        Some(now)
                    } else {
                        old(self).times@[r]
                    }
                },
    {
        let n = if (rows as usize) < self.hashes.len() {
            rows as usize
        } else {
            self.hashes.len()
        };
        let mut r: usize = 0;
        while r < n
            invariant
                n <= old(self).hashes@.len(),
                old(self).times@.len() == old(self).hashes@.len(),
                n <= rows,
                fresh.len() >= rows,
                r <= n,
                self.hashes@.len() == old(self).hashes@.len(),
                self.times@.len() == old(self).times@.len(),
                forall|k: int|
                    0 <= k < old(self).hashes@.len() ==> {
                        let changed = k < r && old(self).hashes@[k] != fresh@[k];
                        &&& #[trigger] self.hashes@[k] == if changed {
                            fresh@[k]
                        } else {
                            old(self).hashes@[k]
                        }
                        &&& self.times@[k] == if changed {
                            Some(now)
                        } else {
                            old(self).times@[k]
                        }
                    },
            decreases n - r,
        {
            if self.hashes[r] != fresh[r] {
                self.hashes.set(r, fresh[r]);
                self.times.set(r, Some(now));
            }
            r += 1;
        }
    }
}

} // verus!
