//! The Firebase REST backend's offline rules: Firestore and Storage resource names and
//! URLs, what counts as a compare-and-swap conflict, how long an upload may take, and
//! the project number a Firebase app id carries. The requests themselves are made by
//! the application.
use vstd::prelude::*;
use vstd::utf8::encode_utf8;
use crate::config::CloudConfig;
use crate::error::SyncError;
use crate::json::{field_str, json_field_str, json_path3_bool, json_path3_str, path3_bool, path3_str};
use crate::oauth::{pct_encode, percent_encode};
use crate::manifest::{EtagInner, ManifestEtag};
use crate::types::GcEntryId;
use crate::text::{chars_of, contains_str, contains_text, pieces, push_str, split_on, split_ranges, string_of_chars, to_owned_string};
use flate2::read::GzDecoder;
use flate2::write::GzEncoder;
use flate2::Compression;
use std::io::{Read, Write};

verus! {

/// `https://firestore.googleapis.com/v1/projects/{project}/databases/(default)/documents`.
pub open spec fn firestore_base_of(project_id: Seq<char>) -> Seq<char> {
    "https://firestore.googleapis.com/v1/projects/"@ + project_id + "/databases/(default)/documents"@
}

/// The Firestore document base URL of the configured project.
pub fn firestore_base(config: &CloudConfig) -> (url: String)
    ensures
        url@ == firestore_base_of(config.project_id@),
{
    let mut url = to_owned_string("https://firestore.googleapis.com/v1/projects/");
    push_str(&mut url, config.project_id.as_str());
    push_str(&mut url, "/databases/(default)/documents");
    url
}

/// The fully-qualified resource name of the document at `relative` (for `:commit`
/// writes): `projects/{project}/databases/(default)/documents/{relative}`.
pub fn doc_name(config: &CloudConfig, relative: &str) -> (name: String)
    ensures
        name@ == "projects/"@ + config.project_id@ + "/databases/(default)/documents/"@ + relative@,
{
    let mut name = to_owned_string("projects/");
    push_str(&mut name, config.project_id.as_str());
    push_str(&mut name, "/databases/(default)/documents/");
    push_str(&mut name, relative);
    name
}

/// `https://firebasestorage.googleapis.com/v0/b/{bucket}/o`.
pub open spec fn storage_base_of(bucket: Seq<char>) -> Seq<char> {
    "https://firebasestorage.googleapis.com/v0/b/"@ + bucket + "/o"@
}

/// The Storage object base URL of the configured bucket.
pub fn storage_base(config: &CloudConfig) -> (url: String)
    ensures
        url@ == storage_base_of(config.storage_bucket@),
{
    let mut url = to_owned_string("https://firebasestorage.googleapis.com/v0/b/");
    push_str(&mut url, config.storage_bucket.as_str());
    push_str(&mut url, "/o");
    url
}

/// Where a user's manifest document lives: `users/{uid}/vault/manifest`.
pub fn manifest_doc_path(uid: &str) -> (p: String)
    ensures
        p@ == "users/"@ + uid@ + "/vault/manifest"@,
{
    let mut p = to_owned_string("users/");
    push_str(&mut p, uid);
    push_str(&mut p, "/vault/manifest");
    p
}

/// The URL of a user's manifest document (read and delete).
pub fn manifest_url(config: &CloudConfig, uid: &str) -> (url: String)
    ensures
        url@ == firestore_base_of(config.project_id@) + "/"@ + ("users/"@ + uid@ + "/vault/manifest"@),
{
    let mut url = firestore_base(config);
    push_str(&mut url, "/");
    let p = manifest_doc_path(uid);
    push_str(&mut url, p.as_str());
    url
}

/// The `:commit` endpoint of the project's documents.
pub fn commit_url(config: &CloudConfig) -> (url: String)
    ensures
        url@ == firestore_base_of(config.project_id@) + ":commit"@,
{
    let mut url = firestore_base(config);
    push_str(&mut url, ":commit");
    url
}

/// The relative path of a queued GC document: `users/{uid}/gc_queue/{id}`.
pub fn gc_doc_path(uid: &str, id: &str) -> (p: String)
    ensures
        p@ == "users/"@ + uid@ + "/gc_queue/"@ + id@,
{
    let mut p = to_owned_string("users/");
    push_str(&mut p, uid);
    push_str(&mut p, "/gc_queue/");
    push_str(&mut p, id);
    p
}

/// The listing URL of a user's GC queue (one page of up to 300 documents).
pub fn gc_list_url(config: &CloudConfig, uid: &str) -> (url: String)
    ensures
        url@ == firestore_base_of(config.project_id@) + "/users/"@ + uid@ + "/gc_queue?pageSize=300"@,
{
    let mut url = firestore_base(config);
    push_str(&mut url, "/users/");
    push_str(&mut url, uid);
    push_str(&mut url, "/gc_queue?pageSize=300");
    url
}

/// The URL of one queued GC document, its id percent-encoded.
pub fn gc_entry_url(config: &CloudConfig, uid: &str, id: &str) -> (url: String)
    ensures
        url@ == firestore_base_of(config.project_id@) + "/users/"@ + uid@ + "/gc_queue/"@
            + pct_encode(encode_utf8(id@)),
{
    let mut url = firestore_base(config);
    push_str(&mut url, "/users/");
    push_str(&mut url, uid);
    push_str(&mut url, "/gc_queue/");
    let enc = percent_encode(id);
    push_str(&mut url, enc.as_str());
    url
}

/// The URL of a device document, its id percent-encoded.
pub fn device_url(config: &CloudConfig, uid: &str, device_id: &str) -> (url: String)
    ensures
        url@ == firestore_base_of(config.project_id@) + "/users/"@ + uid@ + "/devices/"@
            + pct_encode(encode_utf8(device_id@)),
{
    let mut url = firestore_base(config);
    push_str(&mut url, "/users/");
    push_str(&mut url, uid);
    push_str(&mut url, "/devices/");
    let enc = percent_encode(device_id);
    push_str(&mut url, enc.as_str());
    url
}

/// The upload URL of a blob: the Storage base with the key as the `name` query value.
pub fn upload_url(config: &CloudConfig, key: &str) -> (url: String)
    ensures
        url@ == storage_base_of(config.storage_bucket@) + "?name="@ + pct_encode(encode_utf8(key@)),
{
    let mut url = storage_base(config);
    push_str(&mut url, "?name=");
    let enc = percent_encode(key);
    push_str(&mut url, enc.as_str());
    url
}

/// The URL of a blob object (delete), its key percent-encoded as one path segment.
pub fn object_url(config: &CloudConfig, key: &str) -> (url: String)
    ensures
        url@ == storage_base_of(config.storage_bucket@) + "/"@ + pct_encode(encode_utf8(key@)),
{
    let mut url = storage_base(config);
    push_str(&mut url, "/");
    let enc = percent_encode(key);
    push_str(&mut url, enc.as_str());
    url
}

/// The download URL of a blob: its object URL asking for the media.
pub fn download_url(config: &CloudConfig, key: &str) -> (url: String)
    ensures
        url@ == storage_base_of(config.storage_bucket@) + "/"@ + pct_encode(encode_utf8(key@)) + "?alt=media"@,
{
    let mut url = object_url(config, key);
    push_str(&mut url, "?alt=media");
    url
}

/// One page of a prefix listing (up to 1000 names), continuing from `page_token` when
/// given.
pub fn list_url(config: &CloudConfig, prefix: &str, page_token: Option<&str>) -> (url: String)
    ensures
        url@ == storage_base_of(config.storage_bucket@) + "?prefix="@ + pct_encode(encode_utf8(prefix@))
            + "&maxResults=1000"@ + match page_token {
                Some(t) => "&pageToken="@ + pct_encode(encode_utf8(t@)),
                None => Seq::<char>::empty(),
            },
{
    let mut url = storage_base(config);
    push_str(&mut url, "?prefix=");
    let enc = percent_encode(prefix);
    push_str(&mut url, enc.as_str());
    push_str(&mut url, "&maxResults=1000");
    match page_token {
        Some(t) => {
            push_str(&mut url, "&pageToken=");
            let te = percent_encode(t);
            push_str(&mut url, te.as_str());
        },
        None => {
            assert(url@ + Seq::<char>::empty() =~= url@);
        },
    }
    url
}

/// Whether a failed `:commit` lost the compare-and-swap (as opposed to a real error):
/// 409 or 412, a 400 that names `FAILED_PRECONDITION`, or a body carrying the quoted
/// status `"FAILED_PRECONDITION"` or `"ABORTED"`.
pub open spec fn conflict(status: u16, body: Seq<char>) -> bool {
    ||| status == 409
    ||| status == 412
    ||| (status == 400 && contains_text(body, "FAILED_PRECONDITION"@))
    ||| contains_text(body, "\"FAILED_PRECONDITION\""@)
    ||| contains_text(body, "\"ABORTED\""@)
}

/// Whether a failed `:commit` is a compare-and-swap conflict (see [`conflict`]).
pub fn is_conflict(status: u16, body: &str) -> (r: bool)
    ensures
        r == conflict(status, body@),
{
    status == 409 || status == 412 || (status == 400 && contains_str(body, "FAILED_PRECONDITION"))
        || contains_str(body, "\"FAILED_PRECONDITION\"") || contains_str(body, "\"ABORTED\"")
}

/// The error a failed manifest `:commit` maps to: a conflict when it lost the race,
/// else the status (as the HTTP layer prints it) and the response text.
pub fn commit_error(status: u16, status_text: &str, body: &str) -> (e: SyncError)
    ensures
        conflict(status, body@) ==> e == SyncError::CloudSyncConflict,
        !conflict(status, body@) ==> (e matches SyncError::CloudSync(m)
            && m@ == "manifest commit HTTP "@ + status_text@ + ": "@ + body@),
{
    if is_conflict(status, body) {
        SyncError::CloudSyncConflict
    } else {
        let mut m = to_owned_string("manifest commit HTTP ");
        push_str(&mut m, status_text);
        push_str(&mut m, ": ");
        push_str(&mut m, body);
        SyncError::CloudSync(m)
    }
}

/// The server token of the etag a Firebase manifest write expects; a counter etag means
/// a backend mix-up.
pub fn etag_token(etag: &ManifestEtag) -> (r: Result<String, SyncError>)
    ensures
        match etag.0 {
            EtagInner::Token(t) => r matches Ok(s) && s@ == t@,
            EtagInner::Counter(_) => r matches Err(SyncError::CloudSync(m))
                && m@ == "expected a server etag token"@,
        },
{
    match etag.as_token() {
        Some(t) => Ok(to_owned_string(t)),
        None => Err(SyncError::CloudSync(to_owned_string("expected a server etag token"))),
    }
}

/// The overall deadline of one blob upload, in seconds: 30 s plus one second per
/// 32 KiB, never under 120 s.
pub fn transfer_timeout_secs(bytes: usize) -> (secs: u64)
    ensures
        secs == (if 30 + bytes / 32768 > 120 { 30 + bytes / 32768 } else { 120 }),
{
    let scaled: u64 = 30 + (bytes / 32768) as u64;
    if scaled > 120 { scaled } else { 120 }
}

/// The overall deadline of one blob download, in seconds.
pub const DOWNLOAD_TIMEOUT_SECS: u64 = 600;

/// The part of `s` after its last `/` (all of `s` when it has none).
pub open spec fn last_segment(s: Seq<char>) -> Seq<char>
    decreases s.len(),
{
    if s.len() == 0 {
        s
    } else if s.last() == '/' {
        Seq::empty()
    } else {
        last_segment(s.drop_last()).push(s.last())
    }
}

proof fn lemma_last_segment(s: Seq<char>, i: int, k: int)
    requires
        0 <= i <= k <= s.len(),
        forall|j: int| i <= j < k ==> s[j] != '/',
        i == 0 || s[i - 1] == '/',
    ensures
        last_segment(s.subrange(0, k)) == s.subrange(i, k),
    decreases k - i,
{
    if k > i {
        lemma_last_segment(s, i, k - 1);
        let p = s.subrange(0, k);
        assert(p.drop_last() =~= s.subrange(0, k - 1));
        assert(p.last() == s[k - 1]);
        assert(s.subrange(i, k) =~= s.subrange(i, k - 1).push(s[k - 1]));
    } else if i == 0 {
        assert(s.subrange(0, 0) =~= Seq::<char>::empty());
    } else {
        let p = s.subrange(0, i);
        assert(p.last() == s[i - 1]);
        assert(s.subrange(i, i) =~= Seq::<char>::empty());
    }
}

/// The last `/`-separated segment of a key or resource name: a blob's file name (the
/// full key embeds the uid, which stays out of logs), or a document's id.
pub fn basename(key: &str) -> (name: String)
    ensures
        name@ == last_segment(key@),
{
    let v = chars_of(key);
    let n = v.len();
    let mut i: usize = n;
    while i > 0 && v[i - 1] != '/'
        invariant
            n == v@.len(),
            i <= n,
            forall|j: int| i <= j < n ==> v@[j] != '/',
        decreases i,
    {
        i = i - 1;
    }
    proof {
        lemma_last_segment(v@, i as int, n as int);
        assert(v@.subrange(0, n as int) =~= v@);
    }
    string_of_chars(&v, i, n)
}

/// An ASCII decimal digit.
pub open spec fn is_digit(c: char) -> bool {
    '0' <= c <= '9'
}

/// The value of a run of decimal digits.
pub open spec fn digits_value(s: Seq<char>) -> int
    decreases s.len(),
{
    if s.len() == 0 {
        0
    } else {
        digits_value(s.drop_last()) * 10 + (s.last() as int - 48)
    }
}

/// Every character of `d` is a decimal digit.
pub open spec fn all_digits(d: Seq<char>) -> bool {
    forall|i: int| 0 <= i < d.len() ==> is_digit(#[trigger] d[i])
}

/// `s` without its leading `+` or `-`, if it has one.
pub open spec fn unsigned_part(s: Seq<char>) -> Seq<char> {
    if s.len() > 0 && (s[0] == '-' || s[0] == '+') { s.drop_first() } else { s }
}

/// What `str::parse::<i64>` accepts: an optional `+` or `-`, then one or more ASCII
/// digits, whose value fits an `i64`.
pub open spec fn parse_i64(s: Seq<char>) -> Option<int> {
    let d = unsigned_part(s);
    let v = if s.len() > 0 && s[0] == '-' { -digits_value(d) } else { digits_value(d) };
    if d.len() > 0 && all_digits(d) && i64::MIN <= v <= i64::MAX {
        Some(v)
    } else {
        None
    }
}

/// The GCP project number of a Firebase app id `1:<projectNumber>:<platform>:<hash>`:
/// its second `:`-separated field, read as an `i64`.
pub open spec fn project_number_of(app_id: Seq<char>) -> Option<int> {
    let parts = split_on(app_id, ':');
    if parts.len() >= 2 { parse_i64(parts[1]) } else { None }
}

/// `v[lo..hi]` read as an `i64`, as [`parse_i64`] says.
fn parse_i64_range(v: &Vec<char>, lo: usize, hi: usize) -> (r: Option<i64>)
    requires
        lo <= hi <= v@.len(),
    ensures
        match r {
            Some(n) => parse_i64(v@.subrange(lo as int, hi as int)) == Some(n as int),
            None => parse_i64(v@.subrange(lo as int, hi as int)) is None,
        },
{
    let ghost s = v@.subrange(lo as int, hi as int);
    let mut i = lo;
    let mut neg = false;
    if i < hi && (v[i] == '-' || v[i] == '+') {
        neg = v[i] == '-';
        i = i + 1;
    }
    let start = i;
    let ghost d = v@.subrange(start as int, hi as int);
    assert(d =~= unsigned_part(s));
    if start == hi {
        return None;
    }
    // The magnitude read so far, saturated just above the largest one an i64 can hold.
    let cap: u128 = 9223372036854775809;
    let mut acc: u128 = 0;
    assert(v@.subrange(start as int, start as int) =~= Seq::<char>::empty());
    while i < hi
        invariant
            start <= i <= hi <= v@.len(),
            cap == 9223372036854775809,
            d == v@.subrange(start as int, hi as int),
            s == v@.subrange(lo as int, hi as int),
            d == unsigned_part(s),
            neg == (s.len() > 0 && s[0] == '-'),
            acc == (if digits_value(v@.subrange(start as int, i as int)) < cap {
                digits_value(v@.subrange(start as int, i as int))
            } else {
                cap as int
            }),
            forall|j: int| start <= j < i ==> is_digit(#[trigger] v@[j]),
            digits_value(v@.subrange(start as int, i as int)) >= 0,
        decreases hi - i,
    {
        let c = v[i];
        if !('0' <= c && c <= '9') {
            assert(d[i - start] == c);
            assert(!is_digit(d[i - start]));
            assert(!all_digits(d));
            return None;
        }
        let ghost pre = v@.subrange(start as int, i as int);
        let ghost nxt = v@.subrange(start as int, i + 1);
        assert(nxt.drop_last() =~= pre);
        assert(nxt.last() == c);
        let digit: u128 = (c as u32 - 48) as u128;
        let next = acc * 10 + digit;
        acc = if next > cap { cap } else { next };
        i = i + 1;
    }
    assert forall|j: int| 0 <= j < d.len() implies is_digit(#[trigger] d[j]) by {
        assert(d[j] == v@[start + j]);
    }
    if neg {
        if acc <= 9223372036854775808 {
            let m: i128 = 0 - (acc as i128);
            Some(m as i64)
        } else {
            None
        }
    } else {
        if acc <= 9223372036854775807 {
            Some(acc as i64)
        } else {
            None
        }
    }
}

/// The project number Play Integrity needs, parsed from the Firebase app id (see
/// [`project_number_of`]); an app id without one is an error naming it.
pub fn parse_project_number(app_id: &str) -> (r: Result<i64, SyncError>)
    ensures
        match r {
            Ok(n) => project_number_of(app_id@) == Some(n as int),
            Err(e) => project_number_of(app_id@) is None && (e matches SyncError::CloudSync(m)
                && m@ == "could not parse a project number from Firebase app id '"@ + app_id@ + "'"@),
        },
{
    let v = chars_of(app_id);
    let ranges = split_ranges(&v, ':');
    if ranges.len() >= 2 {
        let (lo, hi) = ranges[1];
        assert(pieces(v@, ranges@)[1] == v@.subrange(lo as int, hi as int));
        match parse_i64_range(&v, lo, hi) {
            Some(n) => return Ok(n),
            None => {},
        }
    }
    let mut m = to_owned_string("could not parse a project number from Firebase app id '");
    push_str(&mut m, app_id);
    push_str(&mut m, "'");
    Err(SyncError::CloudSync(m))
}

/// The bytes flate2's gzip encoder (`write::GzEncoder`, default compression, default
/// header) produces for `data`.
pub uninterp spec fn gzip_of(data: Seq<u8>) -> Seq<u8>;

/// What flate2's gzip decoder (`read::GzDecoder`, read to the end) yields for `data`:
/// the decompressed bytes, or `None` when it reports an error.
pub uninterp spec fn gunzip_of(data: Seq<u8>) -> Option<Seq<u8>>;

/// Which step of gzip encoding failed, with the encoder's message.
pub enum GzipFailure {
    Write(String),
    Finish(String),
}

/// Gzip `data` with flate2's `GzEncoder` into a `Vec` (`write_all`, then `finish`).
/// Trusted: the call succeeds (the sink is a `Vec`, whose `Write` never fails, and the
/// in-memory deflate reports no error on a fresh stream); the output is [`gzip_of`] of
/// the input, begins with the gzip magic bytes `1f 8b` of its 10-byte header, and
/// [`gunzip_of`] gives the input back.
#[verifier::external_body]
fn gzip_encode(data: &[u8]) -> (r: Result<Vec<u8>, GzipFailure>)
    ensures
        r is Ok,
        r matches Ok(out) ==> out@ == gzip_of(data@) && out@.len() >= 10 && out@[0] == 0x1f
            && out@[1] == 0x8b && gunzip_of(out@) == Some(data@),
{
    let mut enc = GzEncoder::new(Vec::new(), Compression::default());
    if let Err(e) = enc.write_all(data) {
        return Err(GzipFailure::Write(e.to_string()));
    }
    enc.finish().map_err(|e| GzipFailure::Finish(e.to_string()))
}

/// Decompress `data` with flate2's `GzDecoder` (`read_to_end`). Trusted: the result is
/// [`gunzip_of`] of the input; the error's message is not described.
#[verifier::external_body]
fn gzip_decode(data: &[u8]) -> (r: Result<Vec<u8>, String>)
    ensures
        match r {
            Ok(out) => gunzip_of(data@) == Some(out@),
            Err(_) => gunzip_of(data@) is None,
        },
{
    let mut dec = GzDecoder::new(data);
    let mut out = Vec::new();
    dec.read_to_end(&mut out).map(|_| out).map_err(|e| e.to_string())
}

/// Compress a bucket blob for upload (stored as `application/gzip`, never as a
/// transfer encoding). It always succeeds, and what it makes decompresses to `data`
/// again.
pub fn compress_blob(data: &[u8]) -> (r: Result<Vec<u8>, SyncError>)
    ensures
        r is Ok,
        r matches Ok(out) ==> out@ == gzip_of(data@) && gunzip_of(out@) == Some(data@),
{
    match gzip_encode(data) {
        Ok(out) => Ok(out),
        Err(GzipFailure::Write(m)) => {
            let mut msg = to_owned_string("gzip: ");
            push_str(&mut msg, m.as_str());
            Err(SyncError::CloudSync(msg))
        },
        Err(GzipFailure::Finish(m)) => {
            let mut msg = to_owned_string("gzip finish: ");
            push_str(&mut msg, m.as_str());
            Err(SyncError::CloudSync(msg))
        },
    }
}

/// Decompress a downloaded blob; the pipeline only ever sees uncompressed bytes.
pub fn decompress_blob(data: &[u8]) -> (r: Result<Vec<u8>, SyncError>)
    ensures
        match r {
            Ok(out) => gunzip_of(data@) == Some(out@),
            Err(e) => gunzip_of(data@) is None && e is CloudSync,
        },
{
    match gzip_decode(data) {
        Ok(out) => Ok(out),
        Err(m) => {
            let mut msg = to_owned_string("gunzip: ");
            push_str(&mut msg, m.as_str());
            Err(SyncError::CloudSync(msg))
        },
    }
}

/// One document of a GC-queue listing, as the due-entry selection reads it.
pub struct QueuedGcDoc {
    /// The document's resource name, when the listing gave one.
    pub name: Option<String>,
    /// When its entry may be deleted, in nanoseconds after the Unix epoch; `None` when
    /// its payload did not parse.
    pub delete_after_nanos: Option<u128>,
}

/// The listed documents, in order, whose payload parsed, whose entry is due by
/// `due_before` and which have a name: each as its index and its id (the last
/// segment of its name).
pub open spec fn due_docs(docs: Seq<QueuedGcDoc>, due_before: u128) -> Seq<(int, Seq<char>)>
    decreases docs.len(),
{
    if docs.len() == 0 {
        Seq::empty()
    } else {
        let r = due_docs(docs.drop_last(), due_before);
        let d = docs.last();
        if d.delete_after_nanos matches Some(t) && t <= due_before && d.name is Some {
            r.push(((docs.len() - 1) as int, last_segment(d.name.unwrap()@)))
        } else {
            r
        }
    }
}

/// A selection as indices and ids.
pub open spec fn picks_view(v: Seq<(usize, GcEntryId)>) -> Seq<(int, Seq<char>)> {
    Seq::new(v.len(), |k: int| (v[k].0 as int, v[k].1.0@))
}

/// How many due entries one dequeue returns: `limit`, but at least one.
pub open spec fn dequeue_cap(limit: usize) -> int {
    if limit == 0 { 1 } else { limit as int }
}

proof fn lemma_due_prefix(docs: Seq<QueuedGcDoc>, due_before: u128, k: int)
    requires
        0 <= k <= docs.len(),
    ensures
        due_docs(docs.subrange(0, k), due_before).len() <= due_docs(docs, due_before).len(),
        due_docs(docs, due_before).take(due_docs(docs.subrange(0, k), due_before).len() as int)
            == due_docs(docs.subrange(0, k), due_before),
    decreases docs.len() - k,
{
    let full = due_docs(docs, due_before);
    if k < docs.len() {
        lemma_due_prefix(docs, due_before, k + 1);
        let pk = docs.subrange(0, k);
        let pk1 = docs.subrange(0, k + 1);
        assert(pk1.drop_last() =~= pk);
        let a = due_docs(pk, due_before);
        let b = due_docs(pk1, due_before);
        assert(b.take(a.len() as int) =~= a);
        assert(full.take(b.len() as int).take(a.len() as int) =~= full.take(a.len() as int));
    } else {
        assert(docs.subrange(0, k) =~= docs);
        assert(full.take(full.len() as int) =~= full);
    }
}

/// Pick the due entries of one GC-queue listing page: in listing order, those whose
/// payload parsed, whose `delete_after` is at or before `due_before` and which carry a
/// name, each with its id; it stops once it holds `limit` of them (and never returns
/// more than one when `limit` is 0).
pub fn select_due(docs: &Vec<QueuedGcDoc>, due_before: u128, limit: usize) -> (picks: Vec<(usize, GcEntryId)>)
    ensures
        picks_view(picks@) == due_docs(docs@, due_before).take(
            if due_docs(docs@, due_before).len() < dequeue_cap(limit) {
                due_docs(docs@, due_before).len() as int
            } else {
                dequeue_cap(limit)
            },
        ),
{
    let mut out: Vec<(usize, GcEntryId)> = Vec::new();
    let mut i: usize = 0;
    let n = docs.len();
    let cap: usize = if limit == 0 { 1 } else { limit };
    assert(docs@.subrange(0, 0) =~= Seq::<QueuedGcDoc>::empty());
    assert(picks_view(out@) =~= Seq::<(int, Seq<char>)>::empty());
    while i < n
        invariant_except_break
            out@.len() < cap,
        invariant
            n == docs@.len(),
            i <= n,
            cap == dequeue_cap(limit),
            picks_view(out@) == due_docs(docs@.subrange(0, i as int), due_before),
        ensures
            picks_view(out@) == due_docs(docs@.subrange(0, i as int), due_before),
            out@.len() == cap || i == n,
            out@.len() <= cap,
        decreases n - i,
    {
        let ghost pre = docs@.subrange(0, i as int);
        let ghost nxt = docs@.subrange(0, i + 1);
        assert(nxt.drop_last() =~= pre);
        assert(nxt.last() == docs@[i as int]);
        let d = &docs[i];
        let due = match d.delete_after_nanos {
            Some(t) => t <= due_before,
            None => false,
        };
        if due {
            match &d.name {
                Some(name) => {
                    let ghost before = out@;
                    let id = basename(name.as_str());
                    out.push((i, GcEntryId(id)));
                    assert(picks_view(out@) =~= picks_view(before).push((i as int, last_segment(name@))));
                },
                None => {},
            }
        }
        i = i + 1;
        if out.len() >= cap {
            break;
        }
    }
    proof {
        lemma_due_prefix(docs@, due_before, i as int);
        if i == n {
            assert(docs@.subrange(0, n as int) =~= docs@);
            let full = due_docs(docs@, due_before);
            assert(full.take(full.len() as int) =~= full);
        }
    }
    out
}

/// The page token a prefix listing continues with after reading page `page` (counted
/// from 0): the next-page token the response named, when it is non-empty and fewer
/// than 1000 pages have been read.
pub fn next_page_token(page: usize, token: Option<String>) -> (next: Option<String>)
    ensures
        next == (if page + 1 < 1000 && (token matches Some(t) && t@.len() > 0) { token } else { None::<String> }),
{
    if page >= 999 {
        return None;
    }
    match token {
        Some(t) => {
            if t.unicode_len() > 0 { Some(t) } else { None }
        },
        None => None,
    }
}

/// The payload a Firestore document keeps as its single JSON string field
/// (`fields.json.stringValue`); a document without one is an error.
pub fn doc_json_field(doc: &[u8]) -> (r: Result<String, SyncError>)
    ensures
        match json_path3_str(doc@, "fields"@, "json"@, "stringValue"@) {
            Some(j) => r matches Ok(s) && s@ == j,
            None => r matches Err(SyncError::CloudSync(m)) && m@ == "Firestore doc missing `json` field"@,
        },
{
    match path3_str(doc, "fields", "json", "stringValue") {
        Some(s) => Ok(s),
        None => Err(SyncError::CloudSync(to_owned_string("Firestore doc missing `json` field"))),
    }
}

/// A Firestore document's server `updateTime`, the compare-and-swap token of its next
/// write.
pub fn update_time(doc: &[u8]) -> (r: Option<String>)
    ensures
        match r {
            Some(t) => json_field_str(doc@, "updateTime"@) == Some(t@),
            None => json_field_str(doc@, "updateTime"@) is None,
        },
{
    field_str(doc, "updateTime")
}

/// The etag of a read manifest document: its `updateTime` as a server token; a document
/// without one is an error.
pub fn manifest_etag(doc: &[u8]) -> (r: Result<ManifestEtag, SyncError>)
    ensures
        match json_field_str(doc@, "updateTime"@) {
            Some(t) => r matches Ok(e) && (e.0 matches EtagInner::Token(s) && s@ == t),
            None => r matches Err(SyncError::CloudSync(m)) && m@ == "manifest doc missing updateTime"@,
        },
{
    match update_time(doc) {
        Some(t) => Ok(ManifestEtag::token(t)),
        None => Err(SyncError::CloudSync(to_owned_string("manifest doc missing updateTime"))),
    }
}

/// Whether a device document is revoked: its separate boolean field `revoked` (written
/// apart from the heartbeat's payload), false when absent.
pub fn device_revoked(doc: &[u8]) -> (r: bool)
    ensures
        r == (json_path3_bool(doc@, "fields"@, "revoked"@, "booleanValue"@) == Some(true)),
{
    match path3_bool(doc, "fields", "revoked", "booleanValue") {
        Some(b) => b,
        None => false,
    }
}

} // verus!
