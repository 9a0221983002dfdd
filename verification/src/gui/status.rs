//! The texts a terminal tab shows about itself: its title, its status bar
//! (size, traffic, idle time, the worker's heartbeat, the last status
//! message) and the find bar's match counter.

use vstd::prelude::*;
use crate::gui::dialogs::{human_size, human_size_spec};
use crate::text::{dec_chars, push_dec_chars, push_str_chars};

verus! {

/// A tab's title: the connection's identity, or `New connection` while the
/// tab holds the connection form.
pub fn tab_title(identity: Option<&str>) -> (t: String)
    ensures
        t@ == match identity {
            Some(i) => i@,
            None => "New connection"@,
        },
{
    let mut t = String::new();
    match identity {
        Some(i) => push_str_chars(&mut t, i),
        None => push_str_chars(&mut t, "New connection"),
    }
    t
}

/// The terminal size, `cols×rows`.
pub open spec fn size_text_spec(cols: u16, rows: u16) -> Seq<char> {
    dec_chars(cols as nat) + "×"@ + dec_chars(rows as nat)
}

/// The terminal size as the status bar shows it.
pub fn size_text(cols: u16, rows: u16) -> (t: String)
    ensures
        t@ == size_text_spec(cols, rows),
{
    let mut t = String::new();
    push_dec_chars(&mut t, cols as u64);
    push_str_chars(&mut t, "×");
    push_dec_chars(&mut t, rows as u64);
    t
}

/// Bytes sent and received, `↑sent ↓received`, each in human units.
pub open spec fn traffic_text_spec(sent: u64, received: u64) -> Seq<char> {
    "↑"@ + human_size_spec(sent) + " ↓"@ + human_size_spec(received)
}

/// The traffic as the status bar shows it.
pub fn traffic_text(sent: u64, received: u64) -> (t: String)
    ensures
        t@ == traffic_text_spec(sent, received),
{
    let mut t = String::new();
    push_str_chars(&mut t, "↑");
    push_str_chars(&mut t, human_size(sent).as_str());
    push_str_chars(&mut t, " ↓");
    push_str_chars(&mut t, human_size(received).as_str());
    t
}

/// How long no data has arrived, `idle Ns`.
pub open spec fn idle_text_spec(secs: u64) -> Seq<char> {
    "idle "@ + dec_chars(secs as nat) + "s"@
}

/// The idle time as the status bar shows it.
pub fn idle_text(secs: u64) -> (t: String)
    ensures
        t@ == idle_text_spec(secs),
{
    let mut t = String::new();
    push_str_chars(&mut t, "idle ");
    push_dec_chars(&mut t, secs);
    push_str_chars(&mut t, "s");
    t
}

/// The worker's last heartbeat: how long ago, the chunks waiting to be
/// written, the output buffered, and the read timeouts so far.
pub open spec fn heartbeat_text_spec(ago: u64, pending: usize, buffered: usize, timeouts: u64) -> Seq<char> {
    "hb "@ + dec_chars(ago as nat) + "s ago · q"@ + dec_chars(pending as nat) + " · buf"@ + dec_chars(
        buffered as nat,
    ) + " · to"@ + dec_chars(timeouts as nat)
}

/// The heartbeat as the status bar shows it.
pub fn heartbeat_text(ago: u64, pending: usize, buffered: usize, timeouts: u64) -> (t: String)
    ensures
        t@ == heartbeat_text_spec(ago, pending, buffered, timeouts),
{
    let mut t = String::new();
    push_str_chars(&mut t, "hb ");
    push_dec_chars(&mut t, ago);
    push_str_chars(&mut t, "s ago · q");
    push_dec_chars(&mut t, pending as u64);
    push_str_chars(&mut t, " · buf");
    push_dec_chars(&mut t, buffered as u64);
    push_str_chars(&mut t, " · to");
    push_dec_chars(&mut t, timeouts);
    t
}

/// How long a status message stays in the status bar, in seconds.
pub const STATUS_SHOWN_SECS: u64 = 6;

/// Whether a status message set `age_ms` milliseconds ago is still shown.
pub fn status_shown(age_ms: u128) -> (b: bool)
    ensures
        b == (age_ms < STATUS_SHOWN_SECS * 1000),
{
    age_ms < 6000
}

/// The find bar's counter: the active match's position among all of them,
/// `No matches` when a query finds none, nothing for an empty query.
pub open spec fn match_counter_spec(query_empty: bool, count: usize, active: usize) -> Seq<char> {
    if count == 0 {
        if query_empty {
            Seq::empty()
        } else {
            "No matches"@
        }
    } else {
        dec_chars(active as nat + 1) + "/"@ + dec_chars(count as nat)
    }
}

/// The find bar's counter.
pub fn match_counter(query_empty: bool, count: usize, active: usize) -> (t: String)
    requires
        active < usize::MAX,
    ensures
        t@ == match_counter_spec(query_empty, count, active),
{
    let mut t = String::new();
    if count == 0 {
        if !query_empty {
            push_str_chars(&mut t, "No matches");
        }
    } else {
        push_dec_chars(&mut t, (active + 1) as u64);
        push_str_chars(&mut t, "/");
        push_dec_chars(&mut t, count as u64);
    }
    t
}

} // verus!
