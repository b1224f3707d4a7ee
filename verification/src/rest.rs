//! Error mapping shared by the Firebase REST calls: a non-success response becomes an
//! HTTP error carrying a short, URL- and key-free code distilled from the body, since
//! that code reaches logs, IPC and the UI.
use vstd::prelude::*;
use vstd::utf8::encode_utf8;
use crate::error::SyncError;
use crate::json::{json_nested_str, nested_str};
use crate::text::{chars_of, contains_str, contains_text, occurs_at, is_white_space, push_char, push_str, string_of_chars, to_owned_string};

verus! {

/// Characters of a machine error token (`INVALID_REFRESH_TOKEN`).
pub open spec fn token_char(c: char) -> bool {
    ('A' <= c <= 'Z') || ('0' <= c <= '9') || c == '_'
}

/// The part of `m` before its first `:` or space.
pub open spec fn head_token(m: Seq<char>) -> Seq<char>
    decreases m.len(),
{
    if m.len() == 0 {
        Seq::empty()
    } else if m[0] == ':' || m[0] == ' ' {
        Seq::empty()
    } else {
        seq![m[0]] + head_token(m.drop_first())
    }
}

/// A non-empty token of at most 64 uppercase letters, digits and underscores.
pub open spec fn is_token(t: Seq<char>) -> bool {
    0 < t.len() <= 64 && forall|i: int| 0 <= i < t.len() ==> token_char(#[trigger] t[i])
}

/// A word survives the fallback when it carries no URL and no API key.
pub open spec fn keep_word(w: Seq<char>) -> bool {
    !contains_text(w, "http://"@) && !contains_text(w, "https://"@) && !contains_text(w, "key="@)
}

/// Append word `w` (if non-empty and kept) to the space-joined text `j`.
pub open spec fn flush_word(j: Seq<char>, w: Seq<char>) -> Seq<char> {
    if w.len() > 0 && keep_word(w) {
        if j.len() == 0 { w } else { j + seq![' '] + w }
    } else {
        j
    }
}

/// The kept words of `s` so far, joined by single spaces, and the word being read.
pub open spec fn strip_acc(s: Seq<char>) -> (Seq<char>, Seq<char>)
    decreases s.len(),
{
    if s.len() == 0 {
        (Seq::empty(), Seq::empty())
    } else {
        let (j, cur) = strip_acc(s.drop_last());
        let c = s.last();
        if is_white_space(c) { (flush_word(j, cur), Seq::empty()) } else { (j, cur.push(c)) }
    }
}

/// The white-space separated words of `s` that carry no URL or key, joined by single
/// spaces.
pub open spec fn strip_words(s: Seq<char>) -> Seq<char> {
    flush_word(strip_acc(s).0, strip_acc(s).1)
}

/// The fallback code: the stripped text cut to 120 characters, with `…` when cut.
pub open spec fn truncated(st: Seq<char>) -> Seq<char> {
    if st.len() > 120 { st.subrange(0, 120) + seq!['\u{2026}'] } else { st }
}

/// The code distilled from an error body: a token-shaped `error.message` (its part
/// before any `:` or space), else `error.status`, else the message (or the whole body)
/// stripped of URL/key words and truncated.
pub open spec fn sanitized(body: Seq<char>) -> Seq<char> {
    let msg = json_nested_str(encode_utf8(body), "error"@, "message"@);
    if msg is Some && is_token(head_token(msg.unwrap())) {
        head_token(msg.unwrap())
    } else if json_nested_str(encode_utf8(body), "error"@, "status"@) is Some {
        json_nested_str(encode_utf8(body), "error"@, "status"@).unwrap()
    } else {
        let m = match msg {
            Some(m) => m,
            None => body,
        };
        truncated(strip_words(m))
    }
}

proof fn lemma_head_token_prefix(m: Seq<char>, i: int)
    requires
        0 <= i <= m.len(),
        forall|k: int| 0 <= k < i ==> m[k] != ':' && m[k] != ' ',
        i < m.len() ==> m[i] == ':' || m[i] == ' ',
    ensures
        head_token(m) == m.subrange(0, i),
    decreases i,
{
    if i > 0 {
        lemma_head_token_prefix(m.drop_first(), i - 1);
        assert(m.subrange(0, i) =~= seq![m[0]] + m.drop_first().subrange(0, i - 1));
    } else {
        assert(m.subrange(0, 0) =~= Seq::<char>::empty());
    }
}

/// The part of `m` before its first `:` or space.
fn head_token_of(m: &str) -> (t: String)
    ensures
        t@ == head_token(m@),
{
    let v = chars_of(m);
    let mut i: usize = 0;
    while i < v.len() && v[i] != ':' && v[i] != ' '
        invariant
            i <= v@.len(),
            forall|k: int| 0 <= k < i ==> v@[k] != ':' && v@[k] != ' ',
        decreases v@.len() - i,
    {
        i = i + 1;
    }
    proof {
        lemma_head_token_prefix(v@, i as int);
    }
    string_of_chars(&v, 0, i)
}

/// Whether `t` is token-shaped.
fn token_shaped(t: &str) -> (r: bool)
    ensures
        r == is_token(t@),
{
    let n = t.unicode_len();
    if n == 0 || n > 64 {
        return false;
    }
    let mut i: usize = 0;
    while i < n
        invariant
            n == t@.len(),
            i <= n,
            forall|k: int| 0 <= k < i ==> token_char(#[trigger] t@[k]),
        decreases n - i,
    {
        let c = t.get_char(i);
        if !(('A' <= c && c <= 'Z') || ('0' <= c && c <= '9') || c == '_') {
            return false;
        }
        i = i + 1;
    }
    true
}

fn flush(j: &mut String, w: &Vec<char>)
    ensures
        final(j)@ == flush_word(old(j)@, w@),
{
    if w.len() == 0 {
        return;
    }
    let s = string_of_chars(w, 0, w.len());
    assert(w@.subrange(0, w@.len() as int) =~= w@);
    if contains_str(s.as_str(), "http://") || contains_str(s.as_str(), "https://") || contains_str(s.as_str(), "key=") {
        return;
    }
    if j.unicode_len() > 0 {
        push_char(j, ' ');
    }
    push_str(j, s.as_str());
    assert(j@ =~= flush_word(old(j)@, w@));
}

/// The words of `m` without URL or key words, joined by single spaces.
fn strip(m: &str) -> (r: String)
    ensures
        r@ == strip_words(m@),
{
    let v = chars_of(m);
    let mut j = String::new();
    let mut cur: Vec<char> = Vec::new();
    let mut i: usize = 0;
    while i < v.len()
        invariant
            i <= v@.len(),
            v@ == m@,
            (j@, cur@) == strip_acc(v@.subrange(0, i as int)),
        decreases v@.len() - i,
    {
        let ghost pre = v@.subrange(0, i as int);
        let ghost nxt = v@.subrange(0, i + 1);
        assert(nxt.drop_last() =~= pre);
        assert(nxt.last() == v@[i as int]);
        let c = v[i];
        if white_space_char(c) {
            flush(&mut j, &cur);
            cur = Vec::new();
            assert(cur@ =~= Seq::<char>::empty());
        } else {
            cur.push(c);
        }
        i = i + 1;
    }
    assert(v@.subrange(0, v@.len() as int) =~= m@);
    flush(&mut j, &cur);
    j
}

fn white_space_char(c: char) -> (r: bool)
    ensures
        r == is_white_space(c),
{
    let u = c as u32;
    (0x09 <= u && u <= 0x0d) || u == 0x20 || u == 0x85 || u == 0xa0 || u == 0x1680
        || (0x2000 <= u && u <= 0x200a) || u == 0x2028 || u == 0x2029 || u == 0x202f
        || u == 0x205f || u == 0x3000
}

/// Extract a short, URL- and key-free code from a Google error body (see
/// [`sanitized`]).
pub fn sanitize_error_code(body: &str) -> (code: String)
    ensures
        code@ == sanitized(body@),
{
    let message = nested_str(body.as_bytes(), "error", "message");
    match &message {
        Some(msg) => {
            let token = head_token_of(msg.as_str());
            if token_shaped(token.as_str()) {
                return token;
            }
        },
        None => {},
    }
    match nested_str(body.as_bytes(), "error", "status") {
        Some(status) => return status,
        None => {},
    }
    let m: &str = match &message {
        Some(msg) => msg.as_str(),
        None => body,
    };
    let stripped = strip(m);
    let sv = chars_of(stripped.as_str());
    if sv.len() > 120 {
        let mut out = string_of_chars(&sv, 0, 120);
        push_char(&mut out, '\u{2026}');
        out
    } else {
        assert(sv@.subrange(0, sv@.len() as int) =~= sv@);
        string_of_chars(&sv, 0, sv.len())
    }
}

/// The error a non-success HTTP response maps to: its status and the code distilled
/// from its body. Transience follows from the status.
pub fn http_error(context: &str, status: u16, body: &str) -> (e: SyncError)
    ensures
        e matches SyncError::CloudSyncHttp { context: c, status: s, code }
            && c@ == context@ && s == status && code@ == sanitized(body@),
{
    SyncError::CloudSyncHttp { context: to_owned_string(context), status, code: sanitize_error_code(body) }
}

/// Whether `p` has neither a space nor an ellipsis, so no occurrence of it can straddle
/// a word boundary or the truncation mark.
pub open spec fn plain_pattern(p: Seq<char>) -> bool {
    p.len() > 0 && forall|k: int| 0 <= k < p.len() ==> (#[trigger] p[k]) != ' ' && p[k] != '\u{2026}'
}

proof fn lemma_occurrence_in_part(x: Seq<char>, a: Seq<char>, off: int, p: Seq<char>, i: int)
    requires
        occurs_at(x, p, i),
        0 <= off,
        off + a.len() <= x.len(),
        x.subrange(off, off + a.len()) == a,
        off <= i,
        i + p.len() <= off + a.len(),
    ensures
        occurs_at(a, p, i - off),
{
    assert(a.subrange(i - off, i - off + p.len()) =~= x.subrange(i, i + p.len()));
}

/// Joining two texts free of a plain pattern with a space keeps it out.
proof fn lemma_join_clean(j: Seq<char>, w: Seq<char>, p: Seq<char>)
    requires
        plain_pattern(p),
        !contains_text(j, p),
        !contains_text(w, p),
    ensures
        !contains_text(j + seq![' '] + w, p),
{
    let x = j + seq![' '] + w;
    if contains_text(x, p) {
        let i = choose|i: int| occurs_at(x, p, i);
        if i + p.len() <= j.len() {
            assert(x.subrange(0, j.len() as int) =~= j);
            lemma_occurrence_in_part(x, j, 0, p, i);
        } else if i >= j.len() + 1 {
            assert(x.subrange(j.len() as int + 1, x.len() as int) =~= w);
            lemma_occurrence_in_part(x, w, j.len() as int + 1, p, i);
        } else {
            let k = j.len() - i;
            assert(x.subrange(i, i + p.len())[k] == x[j.len() as int]);
            assert(p[k] == ' ');
        }
    }
}

proof fn lemma_strip_acc_clean(s: Seq<char>, p: Seq<char>)
    requires
        plain_pattern(p),
        forall|w: Seq<char>| keep_word(w) ==> !#[trigger] contains_text(w, p),
    ensures
        !contains_text(strip_acc(s).0, p),
        !contains_text(flush_word(strip_acc(s).0, strip_acc(s).1), p),
    decreases s.len(),
{
    if s.len() > 0 {
        lemma_strip_acc_clean(s.drop_last(), p);
    }
    let (j, cur) = strip_acc(s);
    if cur.len() > 0 && keep_word(cur) && j.len() > 0 {
        lemma_join_clean(j, cur, p);
    }
}

/// A truncated clean text stays clean.
proof fn lemma_truncated_clean(st: Seq<char>, p: Seq<char>)
    requires
        plain_pattern(p),
        !contains_text(st, p),
    ensures
        !contains_text(truncated(st), p),
{
    if st.len() > 120 {
        let x = truncated(st);
        let head = st.subrange(0, 120);
        if contains_text(x, p) {
            let i = choose|i: int| occurs_at(x, p, i);
            if i + p.len() <= 120 {
                assert(x.subrange(0, 120) =~= head);
                lemma_occurrence_in_part(x, head, 0, p, i);
                assert(st.subrange(i, i + p.len()) =~= head.subrange(i, i + p.len()));
                assert(occurs_at(st, p, i));
            } else {
                let k = 120 - i;
                assert(x.subrange(i, i + p.len())[k] == x[120]);
                assert(p[k] == '\u{2026}');
            }
        }
    }
}

/// The fallback code is free of `p` when every kept word is.
proof fn lemma_fallback_clean(m: Seq<char>, p: Seq<char>)
    requires
        plain_pattern(p),
        forall|w: Seq<char>| keep_word(w) ==> !#[trigger] contains_text(w, p),
    ensures
        !contains_text(truncated(strip_words(m)), p),
{
    lemma_strip_acc_clean(m, p);
    lemma_truncated_clean(strip_words(m), p);
}

/// A token-shaped code holds neither a lowercase letter nor `=`, so no URL scheme or
/// key parameter.
proof fn lemma_token_clean(t: Seq<char>, p: Seq<char>)
    requires
        is_token(t),
        p.len() > 0,
        !token_char(p[0]),
    ensures
        !contains_text(t, p),
{
    if contains_text(t, p) {
        let i = choose|i: int| occurs_at(t, p, i);
        assert(t.subrange(i, i + p.len())[0] == t[i]);
        assert(token_char(t[i]));
    }
}

/// The distilled code never carries a URL or an API key, unless the body names an error
/// status, which is passed on as the server wrote it: a token-shaped message has no
/// lowercase letters or `=`, and the fallback drops every word holding `http://`,
/// `https://` or `key=`.
pub proof fn lemma_code_has_no_url_or_key(body: Seq<char>)
    requires
        !(json_nested_str(encode_utf8(body), "error"@, "message"@) is Some
            && is_token(head_token(json_nested_str(encode_utf8(body), "error"@, "message"@).unwrap())))
            ==> json_nested_str(encode_utf8(body), "error"@, "status"@) is None,
    ensures
        !contains_text(sanitized(body), "http://"@),
        !contains_text(sanitized(body), "https://"@),
        !contains_text(sanitized(body), "key="@),
{
    reveal_strlit("http://");
    reveal_strlit("https://");
    reveal_strlit("key=");
    let msg = json_nested_str(encode_utf8(body), "error"@, "message"@);
    if msg is Some && is_token(head_token(msg.unwrap())) {
        let t = head_token(msg.unwrap());
        lemma_token_clean(t, "http://"@);
        lemma_token_clean(t, "https://"@);
        lemma_token_clean(t, "key="@);
    } else {
        let m = match msg {
            Some(m) => m,
            None => body,
        };
        lemma_fallback_clean(m, "http://"@);
        lemma_fallback_clean(m, "https://"@);
        lemma_fallback_clean(m, "key="@);
    }
}

} // verus!
