//! Host string parsing and default key names.

use vstd::prelude::*;
use crate::text::{chars_of, string_from_chars, find_char, rfind_char, first_index, last_index,
    lemma_first_index, lemma_last_index, parse_unsigned, parse_unsigned_range};

verus! {

/// Parsed `[user@]host[:port]`. Port defaults to 22; an invalid port falls
/// back to 22.
#[derive(Debug, Clone, PartialEq)]
pub struct HostSpec {
    pub user: String,
    pub host: String,
    pub port: u16,
}

/// The port written after the last `:`, or 22 when absent or invalid.
pub open spec fn port_of(p: Seq<char>) -> u16 {
    match parse_unsigned(p, 65535) {
        Some(n) => n as u16,
        None => 22,
    }
}

/// Meaning of `[user@]host[:port]`: the user is what precedes the first `@`
/// (empty when there is none); host and port are split at the last `:` of
/// the rest.
pub open spec fn host_spec(s: Seq<char>) -> (Seq<char>, Seq<char>, u16) {
    let (user, rest) = match first_index(s, '@') {
        Some(i) => (s.take(i), s.skip(i + 1)),
        None => (Seq::empty(), s),
    };
    match last_index(rest, ':') {
        Some(j) => (user, rest.take(j), port_of(rest.skip(j + 1))),
        None => (user, rest, 22u16),
    }
}

#[verifier::rlimit(40)]
pub fn parse_host(input: &str) -> (h: HostSpec)
    ensures
        (h.user@, h.host@, h.port) == host_spec(input@),
{
    let v = chars_of(input);
    let n = v.len();
    let at = find_char(&v, '@', 0, n);
    proof {
        assert(v@.subrange(0, n as int) =~= v@);
        lemma_first_index(v@, '@', match at {
            Some(i) => Some(i as int),
            None => None,
        });
    }
    let (user, rest_start) = match at {
        Some(i) => (string_from_chars(&v, 0, i), i + 1),
        None => (String::new(), 0),
    };
    let ghost rest = v@.subrange(rest_start as int, n as int);
    proof {
        match at {
            Some(i) => {
                assert(user@ =~= v@.take(i as int));
                assert(rest =~= v@.skip(i + 1));
            },
            None => {
                assert(rest =~= v@);
            },
        }
    }
    let colon = rfind_char(&v, ':', rest_start, n);
    proof {
        let r = match colon {
            Some(j) => Some(j - rest_start),
            None => None,
        };
        assert forall|j: int| 0 <= j < rest.len() implies rest[j] == v@[rest_start + j] by {}
        lemma_last_index(rest, ':', r);
    }
    match colon {
        Some(j) => {
            let host = string_from_chars(&v, rest_start, j);
            let port = match parse_unsigned_range(&v, j + 1, n, 65535) {
                Some(p) => p as u16,
                None => 22,
            };
            proof {
                let jj = j - rest_start;
                assert(host@ =~= rest.take(jj));
                assert(v@.subrange(j + 1, n as int) =~= rest.skip(jj + 1));
            }
            HostSpec { user, host, port }
        },
        None => {
            let host = string_from_chars(&v, rest_start, n);
            HostSpec { user, host, port: 22 }
        },
    }
}

/// The default key file names, in priority order.
pub open spec fn key_names_spec() -> Seq<Seq<char>> {
    seq!["id_ed25519"@, "id_rsa"@, "id_ecdsa"@, "id_ed25519_sk"@, "id_ecdsa_sk"@]
}

/// Default key candidates in stable priority order.
pub fn default_key_names() -> (names: Vec<&'static str>)
    ensures
        names@.map_values(|s: &str| s@) == key_names_spec(),
{
    let mut names: Vec<&'static str> = Vec::new();
    names.push("id_ed25519");
    names.push("id_rsa");
    names.push("id_ecdsa");
    names.push("id_ed25519_sk");
    names.push("id_ecdsa_sk");
    assert(names@.map_values(|s: &str| s@) =~= key_names_spec());
    names
}

/// The first key name, in priority order, that `present` marks as existing.
pub fn first_present_key(present: &Vec<bool>) -> (r: Option<usize>)
    ensures
        match r {
            Some(i) => i < present.len() && present@[i as int] && forall|j: int| 0 <= j < i ==> !present@[j],
            None => forall|j: int| 0 <= j < present.len() ==> !present@[j],
        },
{
    let mut i: usize = 0;
    while i < present.len()
        invariant
            i <= present.len(),
            forall|j: int| 0 <= j < i ==> !present@[j],
        decreases present.len() - i,
    {
        if present[i] {
            return Some(i);
        }
        i += 1;
    }
    None
}

} // verus!
