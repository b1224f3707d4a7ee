//! The persistent, rotating sync log: what a line looks like, when the file rotates,
//! and what the diagnostics tail shows. The file I/O happens outside this crate and is
//! best-effort: logging never fails a sync.
use vstd::prelude::*;
use crate::text::{chars_of, push_char, push_str, string_of_chars, to_owned_string};

verus! {

/// Rotate once the active log exceeds this many bytes (one `.1` generation is kept).
pub const MAX_LOG_BYTES: u64 = 524288;

/// A sync log at a file path.
pub struct SyncLog {
    path: String,
}

impl SyncLog {
    pub closed spec fn path_spec(&self) -> Seq<char> {
        self.path@
    }

    /// A log writing to the file at `log_path` (the caller has created its directory).
    pub fn new(log_path: String) -> (l: SyncLog)
        ensures
            l.path_spec() == log_path@,
    {
        SyncLog { path: log_path }
    }

    /// The log file's path.
    pub fn path(&self) -> (p: &str)
        ensures
            p@ == self.path_spec(),
    {
        self.path.as_str()
    }
}

/// Whether a log of `len` bytes must be rotated before the next append.
pub fn needs_rotation(len: u64) -> (r: bool)
    ensures
        r == (len > MAX_LOG_BYTES),
{
    len > MAX_LOG_BYTES
}

/// The line appended for `line` at time `ts` (RFC 3339): `"{ts} {line}\n"`.
pub fn log_line(ts: &str, line: &str) -> (s: String)
    ensures
        s@ == ts@ + seq![' '] + line@ + seq!['\n'],
{
    let mut s = to_owned_string(ts);
    push_char(&mut s, ' ');
    push_str(&mut s, line);
    push_char(&mut s, '\n');
    s
}

/// Where reading the tail of a `len`-byte log starts, when it is longer than
/// `max_bytes`.
pub fn tail_start(len: u64, max_bytes: u64) -> (r: Option<u64>)
    ensures
        r == (if len > max_bytes { Some((len - max_bytes) as u64) } else { None::<u64> }),
{
    if len > max_bytes { Some(len - max_bytes) } else { None }
}

/// The index of the first `'\n'` in `s`.
pub open spec fn first_newline(s: Seq<char>) -> Option<int> {
    if exists|i: int| 0 <= i < s.len() && s[i] == '\n' {
        Some(choose|i: int| 0 <= i < s.len() && s[i] == '\n' && forall|j: int| 0 <= j < i ==> s[j] != '\n')
    } else {
        None
    }
}

/// The tail as shown: when reading started mid-file, the (possibly partial) first line
/// is dropped up to and including its newline.
pub fn trim_tail(out: &str, started_mid_file: bool) -> (r: String)
    ensures
        !started_mid_file ==> r@ == out@,
        started_mid_file ==> match first_newline(out@) {
            Some(i) => r@ == out@.subrange(i + 1, out@.len() as int),
            None => r@ == out@,
        },
{
    let v = chars_of(out);
    if !started_mid_file {
        assert(v@.subrange(0, v@.len() as int) =~= v@);
        return string_of_chars(&v, 0, v.len());
    }
    let mut i: usize = 0;
    while i < v.len() && v[i] != '\n'
        invariant
            v@ == out@,
            i <= v@.len(),
            forall|j: int| 0 <= j < i ==> v@[j] != '\n',
        decreases v@.len() - i,
    {
        i = i + 1;
    }
    if i < v.len() {
        proof {
            let w = choose|w: int| 0 <= w < out@.len() && out@[w] == '\n' && forall|j: int| 0 <= j < w ==> out@[j] != '\n';
            assert(out@[i as int] == '\n');
            if w < i {
                assert(v@[w] != '\n');
            } else if w > i {
                assert(out@[i as int] != '\n');
            }
        }
        string_of_chars(&v, i + 1, v.len())
    } else {
        assert(v@.subrange(0, v@.len() as int) =~= v@);
        string_of_chars(&v, 0, v.len())
    }
}

} // verus!
