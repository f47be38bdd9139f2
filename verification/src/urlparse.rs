use vstd::prelude::*;
use vstd::string::StrSliceExecFns;
use vstd::string::StringExecFns;

use crate::text::{alnum_char, digit_char, has_seq_at, is_alnum_char, is_digit_char, seq_at};
use crate::RunError;

verus! {

/// A parsed reference to one thread: the board code (original case kept) and
/// the numeric thread id (kept as a string, digits as written).
#[derive(Clone, Debug, PartialEq, Eq)]
pub struct ThreadRef {
    pub board: String,
    pub thread_id: String,
}

/// The host-and-scheme prefix of a thread URL on the worksafe domain.
pub open spec fn long_host() -> Seq<char> {
    "https://boards.4channel.org/"@
}

/// The host-and-scheme prefix of a thread URL on the main domain.
pub open spec fn short_host() -> Seq<char> {
    "https://boards.4chan.org/"@
}

/// The path segment that separates the board code from the thread id.
pub open spec fn thread_segment() -> Seq<char> {
    "/thread/"@
}

/// End of the run of ASCII alphanumeric characters that starts at `i`.
pub open spec fn alnum_run_end(s: Seq<char>, i: int) -> int
    decreases s.len() - i,
{
    if 0 <= i < s.len() && is_alnum_char(s[i]) {
        alnum_run_end(s, i + 1)
    } else {
        i
    }
}

/// End of the run of ASCII decimal digits that starts at `i`.
pub open spec fn digit_run_end(s: Seq<char>, i: int) -> int
    decreases s.len() - i,
{
    if 0 <= i < s.len() && is_digit_char(s[i]) {
        digit_run_end(s, i + 1)
    } else {
        i
    }
}

/// Length of the accepted scheme-and-host prefix of `s`, if one is present.
pub open spec fn spec_host_len(s: Seq<char>) -> Option<int> {
    if has_seq_at(s, 0, long_host()) {
        Some(long_host().len() as int)
    } else if has_seq_at(s, 0, short_host()) {
        Some(short_host().len() as int)
    } else {
        None
    }
}

/// The board code and thread id that the accepted thread-URL shape yields:
/// one of the two host prefixes, a non-empty alphanumeric board code,
/// "/thread/", a non-empty digit run, then arbitrary trailing content
/// (slug, query string), which is ignored. `None` when `s` does not match.
pub open spec fn spec_parse_thread_url(s: Seq<char>) -> Option<(Seq<char>, Seq<char>)> {
    match spec_host_len(s) {
        None => None,
        Some(p) => {
            let b_end = alnum_run_end(s, p);
            if b_end == p {
                None
            } else if !has_seq_at(s, b_end, thread_segment()) {
                None
            } else {
                let id_start = b_end + thread_segment().len();
                let id_end = digit_run_end(s, id_start);
                if id_end == id_start {
                    None
                } else {
                    Some((s.subrange(p, b_end), s.subrange(id_start, id_end)))
                }
            }
        },
    }
}

fn scan_alnum(s: &str, i: usize) -> (e: usize)
    requires
        i <= s@.len(),
    ensures
        i <= e <= s@.len(),
        e as int == alnum_run_end(s@, i as int),
{
    let len = s.unicode_len();
    let mut j: usize = i;
    while j < len
        invariant
            i <= j <= len,
            len == s@.len(),
            alnum_run_end(s@, i as int) == alnum_run_end(s@, j as int),
        decreases len - j,
    {
        let c = s.get_char(j);
        if !alnum_char(c) {
            return j;
        }
        j += 1;
    }
    j
}

fn scan_digits(s: &str, i: usize) -> (e: usize)
    requires
        i <= s@.len(),
    ensures
        i <= e <= s@.len(),
        e as int == digit_run_end(s@, i as int),
{
    let len = s.unicode_len();
    let mut j: usize = i;
    while j < len
        invariant
            i <= j <= len,
            len == s@.len(),
            digit_run_end(s@, i as int) == digit_run_end(s@, j as int),
        decreases len - j,
    {
        let c = s.get_char(j);
        if !digit_char(c) {
            return j;
        }
        j += 1;
    }
    j
}

/// Parse a pasted thread URL. On a match, the board and id are exactly the
/// two captured segments of the accepted shape; every other string is
/// rejected with `RunError::InvalidInput`, and the caller re-prompts.
pub fn parse_thread_url(s: &str) -> (r: Result<ThreadRef, RunError>)
    ensures
        match r {
            Ok(t) => spec_parse_thread_url(s@) == Some((t.board@, t.thread_id@)),
            Err(e) => e == RunError::InvalidInput && spec_parse_thread_url(s@) is None,
        },
{
    let slen = s.unicode_len();
    let long = "https://boards.4channel.org/";
    let short = "https://boards.4chan.org/";
    let host_len: usize;
    if seq_at(s, 0, long) {
        host_len = long.unicode_len();
    } else if seq_at(s, 0, short) {
        host_len = short.unicode_len();
    } else {
        return Err(RunError::InvalidInput);
    }
    let b_end = scan_alnum(s, host_len);
    if b_end == host_len {
        return Err(RunError::InvalidInput);
    }
    let segment = "/thread/";
    if !seq_at(s, b_end, segment) {
        return Err(RunError::InvalidInput);
    }
    let seg_len = segment.unicode_len();
    proof {
        assert(b_end + seg_len <= slen);
    }
    let id_start = b_end + seg_len;
    let id_end = scan_digits(s, id_start);
    if id_end == id_start {
        return Err(RunError::InvalidInput);
    }
    let board = s.substring_char(host_len, b_end);
    let id = s.substring_char(id_start, id_end);
    Ok(ThreadRef { board: String::from_str(board), thread_id: String::from_str(id) })
}

} // verus!
