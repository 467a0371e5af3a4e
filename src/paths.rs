//! Names of the daemon's side files, and quoting for AppleScript strings.

use vstd::prelude::*;
use crate::text::{chars_of, push_char};

verus! {

/// Name of the PID file in the cache directory.
pub const PID_FILE_NAME: &'static str = "ts-reminder.pid";

/// Name of the interval file in the cache directory.
pub const INTERVAL_FILE_NAME: &'static str = "ts-reminder-interval";

/// `name` in directory `dir`, as `Path::join` puts them together: a `/`
/// between them unless `dir` is empty or already ends with one.
pub open spec fn joined_path(dir: Seq<char>, name: Seq<char>) -> Seq<char> {
    if dir.len() == 0 || dir.last() == '/' {
        dir + name
    } else {
        dir + seq!['/'] + name
    }
}

fn join_path(dir: &str, name: &str) -> (r: String)
    ensures
        r@ == joined_path(dir@, name@),
{
    let v = chars_of(dir);
    let mut out = String::from_str(dir);
    if v.len() > 0 && v[v.len() - 1] != '/' {
        push_char(&mut out, '/');
    }
    out.append(name);
    assert(out@ =~= joined_path(dir@, name@));
    out
}

/// Path of the PID file in the cache directory `cache_dir`.
pub fn reminder_pid_path(cache_dir: &str) -> (r: String)
    ensures
        r@ == joined_path(cache_dir@, PID_FILE_NAME@),
{
    join_path(cache_dir, PID_FILE_NAME)
}

/// Path of the interval file, beside the PID file in `cache_dir`.
pub fn reminder_interval_path(cache_dir: &str) -> (r: String)
    ensures
        r@ == joined_path(cache_dir@, INTERVAL_FILE_NAME@),
{
    join_path(cache_dir, INTERVAL_FILE_NAME)
}

/// `c` as it stands inside an AppleScript string literal.
pub open spec fn escaped_char(c: char) -> Seq<char> {
    if c == '\\' {
        seq!['\\', '\\']
    } else if c == '"' {
        seq!['\\', '"']
    } else {
        seq![c]
    }
}

pub open spec fn escaped(s: Seq<char>) -> Seq<char>
    decreases s.len(),
{
    if s.len() == 0 {
        Seq::empty()
    } else {
        escaped(s.drop_last()) + escaped_char(s.last())
    }
}

/// `s` with each backslash and double quote escaped by a backslash.
pub fn escape_applescript_string(s: &str) -> (r: String)
    ensures
        r@ == escaped(s@),
{
    let v = chars_of(s);
    let mut out = String::new();
    let mut i: usize = 0;
    while i < v.len()
        invariant
            i <= v.len(),
            v@ == s@,
            out@ == escaped(v@.take(i as int)),
        decreases v.len() - i,
    {
        let c = v[i];
        assert(v@.take(i + 1).drop_last() =~= v@.take(i as int));
        if c == '\\' {
            push_char(&mut out, '\\');
            push_char(&mut out, '\\');
        } else if c == '"' {
            push_char(&mut out, '\\');
            push_char(&mut out, '"');
        } else {
            push_char(&mut out, c);
        }
        assert(out@ =~= escaped(v@.take(i + 1)));
        i = i + 1;
    }
    assert(v@.take(i as int) =~= s@);
    out
}

} // verus!
