//! The dock's sections and what the dock asks the application to do.

use vstd::prelude::*;
use vstd::utf8::encode_utf8;

verus! {

#[derive(Debug, Clone, Copy, PartialEq, Eq, Structural)]
pub enum DockSection {
    Hosts,
    Snippets,
    Theme,
    Session,
    Help,
}

pub enum DockAction {
    NoAction,
    NewTab,
    ToggleFlyout(DockSection),
    OpenFileTools,
    ConnectProfile(String),
    DeleteProfile(String),
    RunSnippet(String),
    DeleteSnippet(usize),
    AddSnippet,
    ToggleDebugLog,
    OpenLogFolder,
    ToggleKeepAlive,
    SetTheme(usize),
}

/// The djb2 hash of `bytes` in 32-bit arithmetic: start at 5381, then
/// `h * 33 + b` for each byte, wrapping.
pub open spec fn djb2(bytes: Seq<u8>) -> u32
    decreases bytes.len(),
{
    if bytes.len() == 0 {
        5381
    } else {
        let h = djb2(bytes.drop_last()) as nat;
        (((h * 33) % 0x1_0000_0000 + bytes.last()) % 0x1_0000_0000) as u32
    }
}

/// Number of accent colors a profile can get.
pub const PROFILE_COLORS: usize = 6;

/// Which accent color a profile's name gets: its djb2 hash modulo the
/// number of colors, so a name always keeps its color.
pub fn profile_color_index(name: &str) -> (i: usize)
    ensures
        i as nat == djb2(encode_utf8(name@)) as nat % PROFILE_COLORS as nat,
{
    let b = name.as_bytes();
    let ghost bs = encode_utf8(name@);
    let mut h: u32 = 5381;
    let mut k: usize = 0;
    while k < b.len()
        invariant
            k <= b.len(),
            b@ == bs,
            h == djb2(bs.take(k as int)),
        decreases b.len() - k,
    {
        proof {
            assert(bs.take(k + 1).drop_last() =~= bs.take(k as int));
            assert(bs.take(k + 1).last() == b@[k as int]);
        }
        h = h.wrapping_mul(33).wrapping_add(b[k] as u32);
        k += 1;
    }
    assert(bs.take(b.len() as int) =~= bs);
    (h as usize) % PROFILE_COLORS
}

} // verus!
