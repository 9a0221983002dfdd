//! Remote path naming for uploads and the temp-file cleanup record.

use vstd::prelude::*;
use crate::text::{chars_of, trim_end_char, trim_end_char_index, push_chars, push_str_chars};

verus! {

/// Join a remote POSIX directory and a file name: trailing slashes of the
/// directory are dropped, and an empty directory means the root.
pub open spec fn remote_join_spec(dir: Seq<char>, name: Seq<char>) -> Seq<char> {
    let d = trim_end_char(dir, '/');
    if d.len() == 0 {
        seq!['/'] + name
    } else {
        d + seq!['/'] + name
    }
}

/// Join a remote POSIX directory and filename.
pub fn remote_join(dir: &str, name: &str) -> (r: String)
    ensures
        r@ == remote_join_spec(dir@, name@),
{
    let v = chars_of(dir);
    let end = trim_end_char_index(&v, '/', 0, v.len());
    proof {
        assert(v@.subrange(0, v@.len() as int) =~= v@);
    }
    let mut out = String::new();
    if end == 0 {
        out.push('/');
        push_str_chars(&mut out, name);
        assert(out@ =~= seq!['/'] + name@);
    } else {
        push_chars(&mut out, &v, 0, end);
        out.push('/');
        push_str_chars(&mut out, name);
        assert(out@ =~= v@.subrange(0, end as int) + seq!['/'] + name@);
    }
    out
}

/// A temp path (file or directory) that is to be deleted when the owner is
/// done with it, unless disarmed.
pub struct TempCleanup {
    pub path: String,
    pub armed: bool,
}

impl TempCleanup {
    pub open spec fn is_armed(&self) -> bool {
        self.armed
    }

    pub fn new(path: String) -> (t: Self)
        ensures
            t.path == path,
            t.is_armed(),
    {
        TempCleanup { path, armed: true }
    }

    /// Keep the file (e.g. when handing ownership elsewhere).
    pub fn disarm(&mut self)
        ensures
            final(self).path == old(self).path,
            !final(self).is_armed(),
    {
        self.armed = false;
    }

    /// Whether the path should be deleted on release.
    pub fn armed(&self) -> (b: bool)
        ensures
            b == self.is_armed(),
    {
        self.armed
    }
}

/// The remote filename for a clipboard image taken at the time written as
/// `stamp`.
pub fn clip_name(stamp: &str) -> (r: String)
    ensures
        r@ == "clip_"@ + stamp@ + ".png"@,
{
    let mut r = String::new();
    push_str_chars(&mut r, "clip_");
    push_str_chars(&mut r, stamp);
    push_str_chars(&mut r, ".png");
    r
}


/// What a finished upload reports: the status text, whether it is a
/// success, and the text typed into the shell (the remote path, when the
/// upload asked for it).
pub open spec fn upload_report_spec(result: Result<Seq<char>, Seq<char>>, type_path: bool) -> (Seq<char>, bool, Option<Seq<char>>) {
    match result {
        Ok(remote) => (
            "Uploaded: "@ + remote + " (copied)"@,
            true,
            if type_path {
                Some(remote)
            } else {
                None
            },
        ),
        Err(e) => ("Upload failed: "@ + e, false, None),
    }
}

/// The status line and shell input for a finished upload.
pub fn upload_report(result: Result<String, String>, type_path: bool) -> (r: (String, bool, Option<String>))
    ensures
        (r.0@, r.1, match r.2 {
            Some(t) => Some(t@),
            None => None,
        }) == upload_report_spec(
            match result {
                Ok(x) => Ok(x@),
                Err(e) => Err(e@),
            },
            type_path,
        ),
{
    match result {
        Ok(remote) => {
            let mut status = String::new();
            push_str_chars(&mut status, "Uploaded: ");
            push_str_chars(&mut status, remote.as_str());
            push_str_chars(&mut status, " (copied)");
            let typed = if type_path {
                Some(remote)
            } else {
                None
            };
            (status, true, typed)
        },
        Err(e) => {
            let mut status = String::new();
            push_str_chars(&mut status, "Upload failed: ");
            push_str_chars(&mut status, e.as_str());
            (status, false, None)
        },
    }
}

} // verus!
