//! Connection parameters and the secret wrapper for passwords.

use vstd::prelude::*;
use crate::text::{chars_of, dec_chars, push_dec_chars, push_str_chars};

verus! {

/// A secret string. It has no `Debug` output of its contents: use
/// [`Secret::debug_repr`], which prints `Secret(***)`.
#[derive(Clone, Default, PartialEq)]
pub struct Secret(String);

impl View for Secret {
    type V = Seq<char>;

    closed spec fn view(&self) -> Seq<char> {
        self.0@
    }
}

impl Secret {
    pub fn new(s: &str) -> (r: Self)
        ensures
            r@ == s@,
    {
        let mut inner = String::new();
        push_str_chars(&mut inner, s);
        assert(inner@ =~= s@);
        Secret(inner)
    }

    pub fn expose(&self) -> (r: &str)
        ensures
            r@ == self@,
    {
        self.0.as_str()
    }

    /// The debug rendering, which never shows the secret.
    pub fn debug_repr(&self) -> (r: String)
        ensures
            r@ == secret_debug(),
    {
        let mut r = String::new();
        push_str_chars(&mut r, "Secret(***)");
        proof {
            reveal_strlit("Secret(***)");
        }
        assert(r@ =~= secret_debug());
        r
    }
}

pub open spec fn secret_debug() -> Seq<char> {
    seq!['S', 'e', 'c', 'r', 'e', 't', '(', '*', '*', '*', ')']
}

/// Canonical in-memory connection bundle.
#[derive(Clone)]
pub struct ConnParams {
    pub host: String,
    pub port: u16,
    pub user: String,
    pub password: Option<Secret>,
    pub key_path: Option<String>,
    pub timeout_secs: u64,
    pub verbose: bool,
}

impl Default for ConnParams {
    fn default() -> (p: Self)
        ensures
            p.host@ == Seq::<char>::empty(),
            p.port == 22,
            p.user@ == Seq::<char>::empty(),
            p.password is None,
            p.key_path is None,
            p.timeout_secs == 15,
            !p.verbose,
    {
        ConnParams {
            host: String::new(),
            port: 22,
            user: String::new(),
            password: None,
            key_path: None,
            timeout_secs: 15,
            verbose: false,
        }
    }
}

/// `host:port`.
pub open spec fn addr_spec(host: Seq<char>, port: u16) -> Seq<char> {
    host + seq![':'] + dec_chars(port as nat)
}

/// `user@host`, or just `host` when there is no user.
pub open spec fn identity_spec(user: Seq<char>, host: Seq<char>) -> Seq<char> {
    if user.len() == 0 {
        host
    } else {
        user + seq!['@'] + host
    }
}

/// A string as std's `Debug` writes it: quoted, with quotes, backslashes,
/// control characters and non-printable characters escaped (by std's
/// Unicode tables).
pub uninterp spec fn str_debug(s: Seq<char>) -> Seq<char>;

/// Calls `<str as Debug>::fmt` of std through `format!("{:?}")`; the
/// escaping follows std's Unicode tables and is not written out here: the
/// result is named `str_debug` of the argument.
#[verifier::external_body]
fn debug_str(s: &str) -> (r: String)
    ensures
        r@ == str_debug(s@),
{
    format!("{:?}", s)
}

fn push_debug_str(out: &mut String, s: &str)
    ensures
        final(out)@ == old(out)@ + str_debug(s@),
{
    let d = debug_str(s);
    push_str_chars(out, d.as_str());
}

impl ConnParams {
    pub fn addr(&self) -> (r: String)
        ensures
            r@ == addr_spec(self.host@, self.port),
    {
        let mut r = self.host.clone();
        r.push(':');
        push_dec_chars(&mut r, self.port as u64);
        assert(r@ =~= addr_spec(self.host@, self.port));
        r
    }

    pub fn identity(&self) -> (r: String)
        ensures
            r@ == identity_spec(self.user@, self.host@),
    {
        if self.user.as_str().is_empty() {
            self.host.clone()
        } else {
            let mut r = self.user.clone();
            r.push('@');
            push_str_chars(&mut r, self.host.as_str());
            assert(r@ =~= identity_spec(self.user@, self.host@));
            r
        }
    }

    /// The debug rendering, with any password shown as `Secret(***)`.
    #[verifier::rlimit(50)]
    pub fn debug_repr(&self) -> (r: String)
        ensures
            r@ == conn_debug(*self),
    {
        proof {
            reveal_strlit("ConnParams { host: ");
            reveal_strlit(", port: ");
            reveal_strlit(", user: ");
            reveal_strlit(", password: ");
            reveal_strlit("Some(Secret(***))");
            reveal_strlit("None");
            reveal_strlit(", key_path: ");
            reveal_strlit("Some(");
            reveal_strlit(")");
            reveal_strlit(", timeout_secs: ");
            reveal_strlit(", verbose: ");
            reveal_strlit("true");
            reveal_strlit("false");
            reveal_strlit(" }");
        }
        let mut r = String::new();
        push_str_chars(&mut r, "ConnParams { host: ");
        push_debug_str(&mut r, self.host.as_str());
        push_str_chars(&mut r, ", port: ");
        push_dec_chars(&mut r, self.port as u64);
        push_str_chars(&mut r, ", user: ");
        push_debug_str(&mut r, self.user.as_str());
        let ghost part1 = r@;
        assert(part1 =~= conn_debug_head(*self));
        push_str_chars(&mut r, ", password: ");
        match &self.password {
            Some(_) => push_str_chars(&mut r, "Some(Secret(***))"),
            None => push_str_chars(&mut r, "None"),
        }
        push_str_chars(&mut r, ", key_path: ");
        match &self.key_path {
            Some(k) => {
                push_str_chars(&mut r, "Some(");
                push_debug_str(&mut r, k.as_str());
                push_str_chars(&mut r, ")");
            },
            None => push_str_chars(&mut r, "None"),
        }
        let ghost part2 = r@;
        assert(part2 =~= part1 + conn_debug_mid(*self));
        push_str_chars(&mut r, ", timeout_secs: ");
        push_dec_chars(&mut r, self.timeout_secs);
        push_str_chars(&mut r, ", verbose: ");
        if self.verbose {
            push_str_chars(&mut r, "true");
        } else {
            push_str_chars(&mut r, "false");
        }
        push_str_chars(&mut r, " }");
        assert(r@ =~= part2 + conn_debug_tail(*self));
        r
    }
}

pub open spec fn conn_debug_head(p: ConnParams) -> Seq<char> {
    seq!['C', 'o', 'n', 'n', 'P', 'a', 'r', 'a', 'm', 's', ' ', '{', ' ', 'h', 'o', 's', 't', ':', ' ']
        + str_debug(p.host@) + seq![',', ' ', 'p', 'o', 'r', 't', ':', ' '] + dec_chars(p.port as nat)
        + seq![',', ' ', 'u', 's', 'e', 'r', ':', ' '] + str_debug(p.user@)
}

pub open spec fn conn_debug_mid(p: ConnParams) -> Seq<char> {
    seq![',', ' ', 'p', 'a', 's', 's', 'w', 'o', 'r', 'd', ':', ' '] + (match p.password {
        Some(_) => seq!['S', 'o', 'm', 'e', '('] + secret_debug() + seq![')'],
        None => seq!['N', 'o', 'n', 'e'],
    }) + seq![',', ' ', 'k', 'e', 'y', '_', 'p', 'a', 't', 'h', ':', ' '] + (match p.key_path {
        Some(k) => seq!['S', 'o', 'm', 'e', '('] + str_debug(k@) + seq![')'],
        None => seq!['N', 'o', 'n', 'e'],
    })
}

pub open spec fn conn_debug_tail(p: ConnParams) -> Seq<char> {
    seq![',', ' ', 't', 'i', 'm', 'e', 'o', 'u', 't', '_', 's', 'e', 'c', 's', ':', ' ']
        + dec_chars(p.timeout_secs as nat) + seq![',', ' ', 'v', 'e', 'r', 'b', 'o', 's', 'e', ':', ' ']
        + (if p.verbose {
        seq!['t', 'r', 'u', 'e']
    } else {
        seq!['f', 'a', 'l', 's', 'e']
    }) + seq![' ', '}']
}

/// Debug rendering of connection parameters; the password, when present,
/// is shown as `Secret(***)`.
pub open spec fn conn_debug(p: ConnParams) -> Seq<char> {
    conn_debug_head(p) + conn_debug_mid(p) + conn_debug_tail(p)
}

/// **The password never shows.** The debug rendering of connection
/// parameters holds no character of the password other than through the
/// fixed `Secret(***)` text, whatever the password is.
pub proof fn lemma_debug_hides_password(p: ConnParams, q: ConnParams)
    requires
        p.host == q.host,
        p.port == q.port,
        p.user == q.user,
        p.key_path == q.key_path,
        p.timeout_secs == q.timeout_secs,
        p.verbose == q.verbose,
        p.password is Some <==> q.password is Some,
    ensures
        conn_debug(p) == conn_debug(q),
{
}

#[verifier::external_type_specification]
#[verifier::external_body]
pub struct ExSshError(ssh::SshError);

/// What a failed SSH operation is reported as.
pub enum SshFailure {
    Auth,
    Timeout,
    VersionMismatch { our: String, their: String },
    KeyExchange(String),
    PrivateKey(String),
    ConnectionRefused,
    NetworkTimedOut,
    ClosedByRemote,
    /// Any other I/O failure, with its description.
    Network(String),
    /// Any other SSH failure, with its description.
    Other(String),
}

/// Which kind of failure `f` is, by its variant (fields aside).
pub open spec fn failure_tag(f: SshFailure) -> nat {
    match f {
        SshFailure::Auth => 0,
        SshFailure::Timeout => 1,
        SshFailure::VersionMismatch { .. } => 2,
        SshFailure::KeyExchange(_) => 3,
        SshFailure::PrivateKey(_) => 4,
        SshFailure::ConnectionRefused => 5,
        SshFailure::NetworkTimedOut => 6,
        SshFailure::ClosedByRemote => 7,
        SshFailure::Network(_) => 8,
        SshFailure::Other(_) => 9,
    }
}

/// The kind of failure (a `failure_tag`) that `failure_of` gives an
/// ssh-rs error: fixed by the error's variant and, for an I/O error, by its
/// `std::io::ErrorKind`.
pub uninterp spec fn ssh_error_kind(e: ssh::SshError) -> nat;

/// The texts a failure carries: both version strings of a version
/// mismatch, the message of a key-exchange, key or other failure, nothing
/// for the others.
pub open spec fn failure_details(f: SshFailure) -> Seq<Seq<char>> {
    match f {
        SshFailure::VersionMismatch { our, their } => seq![our@, their@],
        SshFailure::KeyExchange(m) => seq![m@],
        SshFailure::PrivateKey(m) => seq![m@],
        SshFailure::Other(m) => seq![m@],
        _ => Seq::empty(),
    }
}

/// The texts (`failure_details`) that `failure_of` takes from an ssh-rs
/// error that is not an I/O error: the fields of a version mismatch, a
/// key-exchange or a key-parse error, or the error's `Display` text, which
/// ssh-rs writes from fixed formats.
pub uninterp spec fn ssh_error_detail(e: ssh::SshError) -> Seq<Seq<char>>;

/// The user-facing message for a failure.
pub open spec fn failure_text(f: SshFailure) -> Seq<char> {
    match f {
        SshFailure::Auth => "Authentication failed: check username, password, or key"@,
        SshFailure::Timeout => "Connection timed out"@,
        SshFailure::VersionMismatch { our, their } => "SSH version mismatch (local "@ + our@
            + ", remote "@ + their@ + ")"@,
        SshFailure::KeyExchange(m) => "Key exchange failed: "@ + m@,
        SshFailure::PrivateKey(m) => "Could not parse private key: "@ + m@,
        SshFailure::ConnectionRefused => "Connection refused by host"@,
        SshFailure::NetworkTimedOut => "Connection timed out"@,
        SshFailure::ClosedByRemote => "Connection closed by remote host"@,
        SshFailure::Network(m) => "Network error: "@ + m@,
        SshFailure::Other(m) => "SSH error: "@ + m@,
    }
}

/// Map a failure to its user-facing message.
pub fn failure_message(f: &SshFailure) -> (r: String)
    ensures
        r@ == failure_text(*f),
{
    let mut r = String::new();
    match f {
        SshFailure::Auth => push_str_chars(&mut r, "Authentication failed: check username, password, or key"),
        SshFailure::Timeout => push_str_chars(&mut r, "Connection timed out"),
        SshFailure::VersionMismatch { our, their } => {
            push_str_chars(&mut r, "SSH version mismatch (local ");
            push_str_chars(&mut r, our.as_str());
            push_str_chars(&mut r, ", remote ");
            push_str_chars(&mut r, their.as_str());
            push_str_chars(&mut r, ")");
        },
        SshFailure::KeyExchange(m) => {
            push_str_chars(&mut r, "Key exchange failed: ");
            push_str_chars(&mut r, m.as_str());
        },
        SshFailure::PrivateKey(m) => {
            push_str_chars(&mut r, "Could not parse private key: ");
            push_str_chars(&mut r, m.as_str());
        },
        SshFailure::ConnectionRefused => push_str_chars(&mut r, "Connection refused by host"),
        SshFailure::NetworkTimedOut => push_str_chars(&mut r, "Connection timed out"),
        SshFailure::ClosedByRemote => push_str_chars(&mut r, "Connection closed by remote host"),
        SshFailure::Network(m) => {
            push_str_chars(&mut r, "Network error: ");
            push_str_chars(&mut r, m.as_str());
        },
        SshFailure::Other(m) => {
            push_str_chars(&mut r, "SSH error: ");
            push_str_chars(&mut r, m.as_str());
        },
    }
    r
}

/// Tells the variants of ssh-rs's `SshError` apart: authentication,
/// timeout, version mismatch, key exchange and key parsing errors keep their
/// fields; an I/O error is told apart by `std::io::Error::kind` (refused,
/// timed out, unexpected end of file) or else carries its `Display` text;
/// any other variant carries its `Display` text. The variant of the result
/// is named `ssh_error_kind` of the error, and the texts it carries
/// `ssh_error_detail` of it, except for an I/O error's text: an
/// operating-system error is described in the system's locale, so that
/// text is not stated.
#[verifier::external_body]
fn failure_of(e: &ssh::SshError) -> (f: SshFailure)
    ensures
        failure_tag(f) == ssh_error_kind(*e),
        !(f is Network) ==> failure_details(f) == ssh_error_detail(*e),
{
    match e {
        ssh::SshError::AuthError => SshFailure::Auth,
        ssh::SshError::TimeoutError => SshFailure::Timeout,
        ssh::SshError::VersionDismatchError { our, their } => SshFailure::VersionMismatch { our: our.clone(), their: their.clone() },
        ssh::SshError::KexError(m) => SshFailure::KeyExchange(m.clone()),
        ssh::SshError::SshPubKeyError(m) => SshFailure::PrivateKey(m.clone()),
        ssh::SshError::IoError(io) => match io.kind() {
            std::io::ErrorKind::ConnectionRefused => SshFailure::ConnectionRefused,
            std::io::ErrorKind::TimedOut => SshFailure::NetworkTimedOut,
            std::io::ErrorKind::UnexpectedEof => SshFailure::ClosedByRemote,
            _ => SshFailure::Network(format!("{io}")),
        },
        other => SshFailure::Other(format!("{other}")),
    }
}

/// Map ssh-rs errors to user-facing messages.
pub fn friendly_error(e: &ssh::SshError) -> (r: String)
    ensures
        exists|f: SshFailure|
            {
                &&& failure_tag(f) == ssh_error_kind(*e)
                &&& !(f is Network) ==> failure_details(f) == ssh_error_detail(*e)
                &&& r@ == failure_text(f)
            },
{
    let f = failure_of(e);
    let r = failure_message(&f);
    assert(r@ == failure_text(f));
    r
}

/// Why a connection cannot even be attempted: no host, no user, or neither
/// a password nor a key.
pub open spec fn connect_refusal(host: Seq<char>, user: Seq<char>, has_password: bool, has_key: bool) -> Option<Seq<char>> {
    if host.len() == 0 {
        Some("No host given"@)
    } else if user.len() == 0 {
        Some("No username given"@)
    } else if !has_password && !has_key {
        Some("No password or key available for authentication"@)
    } else {
        None
    }
}

/// The checks made before connecting. Never prompts.
pub fn check_connectable(params: &ConnParams) -> (r: Result<(), String>)
    ensures
        match connect_refusal(params.host@, params.user@, params.password is Some, params.key_path is Some) {
            Some(m) => r matches Err(e) && e@ == m,
            None => r is Ok,
        },
{
    let mut e = String::new();
    if params.host.as_str().is_empty() {
        push_str_chars(&mut e, "No host given");
        return Err(e);
    }
    if params.user.as_str().is_empty() {
        push_str_chars(&mut e, "No username given");
        return Err(e);
    }
    if params.password.is_none() && params.key_path.is_none() {
        push_str_chars(&mut e, "No password or key available for authentication");
        return Err(e);
    }
    Ok(())
}

/// Read timeout of the interactive loops, in milliseconds, so a worker can
/// poll its stop flag and input queue.
pub const READ_TIMEOUT_MS: u64 = 20;

/// Chunk size for writes to the remote PTY.
pub const SSH_WRITE_CHUNK: usize = 4096;

/// The pieces `bytes` is written in: consecutive chunks of
/// [`SSH_WRITE_CHUNK`] bytes, the last one possibly shorter.
pub open spec fn chunks_spec(bytes: Seq<u8>, size: nat) -> Seq<Seq<u8>>
    decreases bytes.len(),
{
    if bytes.len() == 0 || size == 0 {
        Seq::empty()
    } else if bytes.len() <= size {
        seq![bytes]
    } else {
        seq![bytes.take(size as int)] + chunks_spec(bytes.skip(size as int), size)
    }
}

/// Split `bytes` into the chunks it is written to the remote PTY in.
pub fn write_chunks(bytes: &[u8]) -> (r: Vec<Vec<u8>>)
    ensures
        r@.map_values(|c: Vec<u8>| c@) == chunks_spec(bytes@, SSH_WRITE_CHUNK as nat),
{
    let mut out: Vec<Vec<u8>> = Vec::new();
    let n = bytes.len();
    let mut start: usize = 0;
    proof {
        assert(bytes@.skip(0) =~= bytes@);
    }
    while start < n
        invariant
            start <= n == bytes@.len(),
            out@.map_values(|c: Vec<u8>| c@) + chunks_spec(bytes@.skip(start as int), SSH_WRITE_CHUNK as nat)
                == chunks_spec(bytes@, SSH_WRITE_CHUNK as nat),
        decreases n - start,
    {
        let end = if n - start > SSH_WRITE_CHUNK {
            start + SSH_WRITE_CHUNK
        } else {
            n
        };
        let mut chunk: Vec<u8> = Vec::new();
        let mut i = start;
        while i < end
            invariant
                start <= i <= end <= n == bytes@.len(),
                chunk@ == bytes@.subrange(start as int, i as int),
            decreases end - i,
        {
            chunk.push(bytes[i]);
            i += 1;
            assert(chunk@ =~= bytes@.subrange(start as int, i as int));
        }
        let ghost rest = bytes@.skip(start as int);
        proof {
            if end == n {
                assert(chunk@ =~= rest);
                assert(chunks_spec(rest, SSH_WRITE_CHUNK as nat) == seq![rest]);
                assert(bytes@.skip(end as int) =~= Seq::<u8>::empty());
            } else {
                assert(chunk@ =~= rest.take(SSH_WRITE_CHUNK as int));
                assert(rest.skip(SSH_WRITE_CHUNK as int) =~= bytes@.skip(end as int));
            }
        }
        let ghost before = out@.map_values(|c: Vec<u8>| c@);
        out.push(chunk);
        assert(out@.map_values(|c: Vec<u8>| c@) =~= before.push(chunk@));
        start = end;
    }
    proof {
        assert(bytes@.skip(n as int) =~= Seq::<u8>::empty());
        assert(out@.map_values(|c: Vec<u8>| c@) + Seq::<Seq<u8>>::empty() =~= out@.map_values(|c: Vec<u8>| c@));
    }
    out
}

/// All bytes of `chunks`, in order.
pub open spec fn flatten(chunks: Seq<Seq<u8>>) -> Seq<u8>
    decreases chunks.len(),
{
    if chunks.len() == 0 {
        Seq::empty()
    } else {
        chunks[0] + flatten(chunks.drop_first())
    }
}

/// Chunking loses, adds and reorders nothing: the chunks put together are
/// the bytes, and each chunk holds between one and `size` bytes.
pub proof fn lemma_chunks_rebuild(bytes: Seq<u8>, size: nat)
    requires
        size > 0,
    ensures
        flatten(chunks_spec(bytes, size)) == bytes,
        forall|i: int|
            0 <= i < chunks_spec(bytes, size).len() ==> 1 <= (#[trigger] chunks_spec(bytes, size)[i]).len()
                <= size,
    decreases bytes.len(),
{
    let c = chunks_spec(bytes, size);
    if bytes.len() == 0 {
        assert(flatten(c) =~= bytes);
    } else if bytes.len() <= size {
        assert(c.drop_first() =~= Seq::<Seq<u8>>::empty());
        assert(flatten(Seq::<Seq<u8>>::empty()) =~= Seq::<u8>::empty());
        assert(flatten(c) == c[0] + flatten(c.drop_first()));
        assert(flatten(c) =~= bytes);
    } else {
        let rest = bytes.skip(size as int);
        lemma_chunks_rebuild(rest, size);
        assert(c.drop_first() =~= chunks_spec(rest, size));
        assert(bytes.take(size as int) + rest =~= bytes);
        assert(flatten(c) == c[0] + flatten(c.drop_first()));
        assert forall|i: int| 0 <= i < c.len() implies 1 <= (#[trigger] c[i]).len() <= size by {
            if i > 0 {
                assert(c[i] == chunks_spec(rest, size)[i - 1]);
            }
        }
    }
}

} // verus!
