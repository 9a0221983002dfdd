//! Saved connection profiles and command snippets, and the default name a
//! connection is saved under.

use vstd::prelude::*;
use crate::text::push_str_chars;

verus! {

/// A saved connection.
#[derive(Debug, Clone, PartialEq)]
pub struct Profile {
    pub host: String,
    pub port: u16,
    pub user: String,
    pub key_path: Option<String>,
    pub remote_dir: Option<String>,
    /// Only persisted when the user explicitly opts in to saving a password.
    pub password: Option<String>,
}

impl Default for Profile {
    fn default() -> (p: Self)
        ensures
            p.host@.len() == 0,
            p.port == 0,
            p.user@.len() == 0,
            p.key_path is None,
            p.remote_dir is None,
            p.password is None,
    {
        Profile {
            host: String::new(),
            port: 0,
            user: String::new(),
            key_path: None,
            remote_dir: None,
            password: None,
        }
    }
}

/// A named command the user can send with one action.
#[derive(Debug, Clone, PartialEq)]
pub struct Snippet {
    pub name: String,
    pub command: String,
}

impl Default for Snippet {
    fn default() -> (s: Self)
        ensures
            s.name@.len() == 0,
            s.command@.len() == 0,
    {
        Snippet { name: String::new(), command: String::new() }
    }
}

/// The port of a profile saved without one.
pub fn default_port() -> (p: u16)
    ensures
        p == 22,
{
    22
}

/// `user@host`, or `host` alone when there is no user.
pub open spec fn profile_name_spec(user: Seq<char>, host: Seq<char>) -> Seq<char> {
    if user.len() == 0 {
        host
    } else {
        user + seq!['@'] + host
    }
}

/// Default profile name for a connection: `user@host` or `host`.
pub fn default_profile_name(user: &str, host: &str) -> (r: String)
    ensures
        r@ == profile_name_spec(user@, host@),
{
    let mut r = String::new();
    if user.is_empty() {
        push_str_chars(&mut r, host);
        assert(r@ =~= host@);
    } else {
        push_str_chars(&mut r, user);
        r.push('@');
        push_str_chars(&mut r, host);
        assert(r@ =~= user@ + seq!['@'] + host@);
    }
    r
}

/// A connection is saved under the name its tab shows: the default
/// profile name is the identity of the connection (`user@host`, or `host`).
pub proof fn lemma_profile_name_is_identity(user: Seq<char>, host: Seq<char>)
    ensures
        profile_name_spec(user, host) == crate::ssh_client::identity_spec(user, host),
{
}

} // verus!
