//! Helpers of the OAuth 2.0 + PKCE sign-in flow: URL percent-encoding, query parsing,
//! the redirect-callback decision, and the PKCE challenge.
use vstd::prelude::*;
use base64::Engine;
use sha2::Digest;
use vstd::utf8::{decode_utf8, encode_utf8, encode_utf8_decode_utf8, encode_utf8_valid_utf8, is_ascii_chars, is_ascii_chars_encode_utf8, valid_utf8};
use crate::text::{chars_of, push_char, push_str, split_ranges, str_eq, string_of_chars, to_owned_string};
use crate::hex::hex_digit;
use crate::error::SyncError;
use crate::json::{field_str, json_field_str};
use crate::stamping::{decimal, push_decimal};

verus! {

/// Bytes that `percent_encode` leaves alone (the RFC 3986 unreserved set).
pub open spec fn unreserved(b: u8) -> bool {
    (65 <= b <= 90) || (97 <= b <= 122) || (48 <= b <= 57) || b == 45 || b == 95 || b == 46 || b == 126
}

/// An uppercase hex digit.
pub open spec fn hex_upper(n: nat) -> char {
    if n < 10 { ((48 + n) as u8) as char } else { ((55 + n) as u8) as char }
}

/// Percent-encoding of a byte string.
pub open spec fn pct_encode(b: Seq<u8>) -> Seq<char>
    decreases b.len(),
{
    if b.len() == 0 {
        Seq::empty()
    } else {
        let head = if unreserved(b[0]) {
            seq![b[0] as char]
        } else {
            seq!['%', hex_upper((b[0] / 16) as nat), hex_upper((b[0] % 16) as nat)]
        };
        head + pct_encode(b.drop_first())
    }
}

fn hex_upper_exec(n: u8) -> (c: char)
    requires
        n < 16,
    ensures
        c == hex_upper(n as nat),
{
    if n < 10 { (48 + n) as char } else { (55 + n) as char }
}

/// Percent-encode a string for use as a single URL path segment or query value: every
/// UTF-8 byte outside the unreserved set becomes `%XX` (so `/` → `%2F`).
pub fn percent_encode(s: &str) -> (out: String)
    ensures
        out@ == pct_encode(encode_utf8(s@)),
{
    let bytes = s.as_bytes();
    let ghost b = bytes@;
    let mut out = String::new();
    let mut i: usize = 0;
    assert(b.skip(0) == b);
    while i < bytes.len()
        invariant
            b == bytes@,
            i <= b.len(),
            out@ + pct_encode(b.skip(i as int)) == pct_encode(b),
        decreases b.len() - i,
    {
        let x = bytes[i];
        let ghost before = out@;
        assert(b.skip(i as int).drop_first() == b.skip(i + 1));
        assert(b.skip(i as int)[0] == x);
        if (65 <= x && x <= 90) || (97 <= x && x <= 122) || (48 <= x && x <= 57) || x == 45 || x == 95
            || x == 46 || x == 126 {
            push_char(&mut out, x as char);
            assert(out@ + pct_encode(b.skip(i + 1)) == before + (seq![x as char] + pct_encode(b.skip(i + 1))));
        } else {
            push_char(&mut out, '%');
            push_char(&mut out, hex_upper_exec(x / 16));
            push_char(&mut out, hex_upper_exec(x % 16));
            assert(out@ + pct_encode(b.skip(i + 1)) == before + (seq!['%', hex_upper((x / 16) as nat), hex_upper((x % 16) as nat)]
                + pct_encode(b.skip(i + 1))));
        }
        i = i + 1;
    }
    assert(b.skip(b.len() as int) =~= Seq::<u8>::empty());
    assert(out@ + Seq::<char>::empty() == out@);
    out
}

/// The value of a hex digit byte (either case).
pub open spec fn hex_byte_value(b: u8) -> Option<u8> {
    if 48 <= b <= 57 {
        Some((b - 48) as u8)
    } else if 97 <= b <= 102 {
        Some((b - 97 + 10) as u8)
    } else if 65 <= b <= 70 {
        Some((b - 65 + 10) as u8)
    } else {
        None
    }
}

/// The value of a hex digit byte (either case).
pub fn hex_val(b: u8) -> (r: Option<u8>)
    ensures
        r == hex_byte_value(b),
{
    if 48 <= b && b <= 57 {
        Some(b - 48)
    } else if 97 <= b && b <= 102 {
        Some(b - 97 + 10)
    } else if 65 <= b && b <= 70 {
        Some(b - 65 + 10)
    } else {
        None
    }
}

/// `application/x-www-form-urlencoded` decoding of bytes: `%XX` with two hex digits
/// becomes that byte, `+` becomes a space, everything else passes through.
pub open spec fn pct_decode(b: Seq<u8>) -> Seq<u8>
    decreases b.len(),
{
    if b.len() == 0 {
        Seq::empty()
    } else if b[0] == 37 && 2 < b.len() && hex_byte_value(b[1]) is Some && hex_byte_value(b[2]) is Some {
        seq![(hex_byte_value(b[1]).unwrap() * 16 + hex_byte_value(b[2]).unwrap()) as u8] + pct_decode(b.skip(3))
    } else if b[0] == 43 {
        seq![32u8] + pct_decode(b.skip(1))
    } else {
        seq![b[0]] + pct_decode(b.skip(1))
    }
}

/// What `String::from_utf8_lossy` makes of a byte string.
pub uninterp spec fn utf8_lossy(b: Seq<u8>) -> Seq<char>;

/// `String::from_utf8_lossy`: the bytes decoded as UTF-8, with each invalid sequence
/// replaced by U+FFFD. On valid UTF-8 the result is the exact decoding.
#[verifier::external_body]
fn string_from_utf8_lossy(bytes: &[u8]) -> (s: String)
    ensures
        s@ == utf8_lossy(bytes@),
        valid_utf8(bytes@) ==> s@ == decode_utf8(bytes@),
{
    String::from_utf8_lossy(bytes).into_owned()
}

/// The text a form-urlencoded string decodes to: the decoded bytes read as UTF-8,
/// exactly where they are valid UTF-8 and through `String::from_utf8_lossy` where not.
pub open spec fn form_decode(s: Seq<char>) -> Seq<char> {
    let b = pct_decode(encode_utf8(s));
    if valid_utf8(b) {
        decode_utf8(b)
    } else {
        utf8_lossy(b)
    }
}

/// Minimal `application/x-www-form-urlencoded` percent-decoder (`+` → space).
pub fn percent_decode(s: &str) -> (out: String)
    ensures
        out@ == form_decode(s@),
{
    let bytes = s.as_bytes();
    let ghost b = bytes@;
    let mut out: Vec<u8> = Vec::new();
    let mut i: usize = 0;
    assert(b.subrange(0, b.len() as int) == b);
    while i < bytes.len()
        invariant
            b == bytes@,
            i <= b.len(),
            out@ + pct_decode(b.subrange(i as int, b.len() as int)) == pct_decode(b),
        decreases b.len() - i,
    {
        let ghost rest = b.subrange(i as int, b.len() as int);
        let ghost before = out@;
        if bytes[i] == 37 && bytes.len() - i > 2 && hex_val(bytes[i + 1]).is_some() && hex_val(bytes[i + 2]).is_some() {
            let h = hex_val(bytes[i + 1]).unwrap();
            let l = hex_val(bytes[i + 2]).unwrap();
            out.push(h * 16 + l);
            assert(rest.skip(3) == b.subrange(i + 3, b.len() as int));
            assert(rest[1] == bytes@[i + 1] && rest[2] == bytes@[i + 2]);
            assert(out@ + pct_decode(b.subrange(i + 3, b.len() as int)) == before + (seq![(h * 16 + l) as u8]
                + pct_decode(b.subrange(i + 3, b.len() as int))));
            i = i + 3;
        } else if bytes[i] == 43 {
            out.push(32);
            assert(rest.skip(1) == b.subrange(i + 1, b.len() as int));
            assert(out@ + pct_decode(b.subrange(i + 1, b.len() as int)) == before + (seq![32u8]
                + pct_decode(b.subrange(i + 1, b.len() as int))));
            i = i + 1;
        } else {
            let x = bytes[i];
            out.push(x);
            assert(rest.skip(1) == b.subrange(i + 1, b.len() as int));
            assert(rest[0] == x);
            assert(out@ + pct_decode(b.subrange(i + 1, b.len() as int)) == before + (seq![x]
                + pct_decode(b.subrange(i + 1, b.len() as int))));
            i = i + 1;
        }
    }
    assert(b.subrange(b.len() as int, b.len() as int) =~= Seq::<u8>::empty());
    assert(out@ + Seq::<u8>::empty() == out@);
    string_from_utf8_lossy(out.as_slice())
}

} // verus!

verus! {

/// The value of the last pair keyed `k`.
pub open spec fn lookup_last(es: Seq<(Seq<char>, Seq<char>)>, k: Seq<char>) -> Option<Seq<char>>
    decreases es.len(),
{
    if es.len() == 0 {
        None
    } else if es.last().0 == k {
        Some(es.last().1)
    } else {
        lookup_last(es.drop_last(), k)
    }
}

/// The key part of a `key=value` piece: the text before the first `=`.
pub open spec fn pair_key(p: Seq<char>) -> Seq<char> {
    crate::text::split_on(p, '=')[0]
}

/// The value part of a `key=value` piece: the text after the first `=`, or empty.
pub open spec fn pair_value(p: Seq<char>) -> Seq<char> {
    let k = pair_key(p);
    if k.len() < p.len() { p.subrange(k.len() as int + 1, p.len() as int) } else { Seq::empty() }
}

/// The decoded `(key, value)` pairs of a query's `&`-separated pieces, skipping empty
/// pieces and empty keys.
pub open spec fn query_pairs(pieces: Seq<Seq<char>>) -> Seq<(Seq<char>, Seq<char>)>
    decreases pieces.len(),
{
    if pieces.len() == 0 {
        Seq::empty()
    } else {
        let rest = query_pairs(pieces.drop_last());
        let p = pieces.last();
        if p.len() == 0 || pair_key(p).len() == 0 {
            rest
        } else {
            rest.push((form_decode(pair_key(p)), form_decode(pair_value(p))))
        }
    }
}

/// Where key `k` stands in `es` (its last occurrence), or -1.
pub open spec fn key_pos(es: Seq<(Seq<char>, Seq<char>)>, k: Seq<char>) -> int
    decreases es.len(),
{
    if es.len() == 0 {
        -1
    } else if es.last().0 == k {
        es.len() - 1
    } else {
        key_pos(es.drop_last(), k)
    }
}

/// `es` with key `k` set to `v`: its entry replaced where it has one, else appended.
pub open spec fn assoc_put(es: Seq<(Seq<char>, Seq<char>)>, k: Seq<char>, v: Seq<char>) -> Seq<(Seq<char>, Seq<char>)> {
    let i = key_pos(es, k);
    if i >= 0 { es.update(i, (k, v)) } else { es.push((k, v)) }
}

/// The pairs with one entry per key, in order of first appearance, each holding the
/// key's last value.
pub open spec fn assoc_all(es: Seq<(Seq<char>, Seq<char>)>) -> Seq<(Seq<char>, Seq<char>)>
    decreases es.len(),
{
    if es.len() == 0 {
        Seq::empty()
    } else {
        assoc_put(assoc_all(es.drop_last()), es.last().0, es.last().1)
    }
}

proof fn lemma_key_pos(es: Seq<(Seq<char>, Seq<char>)>, k: Seq<char>)
    ensures
        -1 <= key_pos(es, k) < es.len(),
        key_pos(es, k) >= 0 ==> es[key_pos(es, k)].0 == k,
        key_pos(es, k) < 0 ==> forall|i: int| 0 <= i < es.len() ==> (#[trigger] es[i]).0 != k,
    decreases es.len(),
{
    if es.len() > 0 {
        lemma_key_pos(es.drop_last(), k);
        if es.last().0 != k {
            assert forall|i: int| 0 <= i < es.len() && key_pos(es, k) < 0 implies (#[trigger] es[i]).0 != k by {
                if i < es.len() - 1 {
                    assert(es[i] == es.drop_last()[i]);
                }
            }
        }
    }
}

proof fn lemma_put_lookup(a: Seq<(Seq<char>, Seq<char>)>, k: Seq<char>, v: Seq<char>, k2: Seq<char>)
    ensures
        lookup_last(assoc_put(a, k, v), k2) == (if k2 == k { Some(v) } else { lookup_last(a, k2) }),
    decreases a.len(),
{
    lemma_key_pos(a, k);
    let i = key_pos(a, k);
    if i < 0 {
        assert(a.push((k, v)).drop_last() =~= a);
    } else if a.last().0 == k {
        assert(a.update(i, (k, v)).drop_last() =~= a.drop_last());
    } else {
        let a0 = a.drop_last();
        lemma_put_lookup(a0, k, v, k2);
        assert(a.update(i, (k, v)).drop_last() =~= a0.update(i, (k, v)));
        assert(a.update(i, (k, v)).last() == a.last());
        lemma_key_pos(a0, k);
    }
}

proof fn lemma_assoc_lookup(es: Seq<(Seq<char>, Seq<char>)>, k: Seq<char>)
    ensures
        lookup_last(assoc_all(es), k) == lookup_last(es, k),
    decreases es.len(),
{
    if es.len() > 0 {
        lemma_assoc_lookup(es.drop_last(), k);
        lemma_put_lookup(assoc_all(es.drop_last()), es.last().0, es.last().1, k);
    }
}

/// Each key occurs once among the pairs.
pub open spec fn keys_distinct(es: Seq<(Seq<char>, Seq<char>)>) -> bool {
    forall|i: int, j: int| 0 <= i < j < es.len() ==> (#[trigger] es[i]).0 != (#[trigger] es[j]).0
}

proof fn lemma_assoc_distinct(es: Seq<(Seq<char>, Seq<char>)>)
    ensures
        keys_distinct(assoc_all(es)),
    decreases es.len(),
{
    if es.len() > 0 {
        let a = assoc_all(es.drop_last());
        lemma_assoc_distinct(es.drop_last());
        let k = es.last().0;
        lemma_key_pos(a, k);
        let r = assoc_put(a, k, es.last().1);
        assert forall|i: int, j: int| 0 <= i < j < r.len() implies (#[trigger] r[i]).0 != (#[trigger] r[j]).0 by {
            if key_pos(a, k) < 0 && j == a.len() {
                assert(r[i] == a[i]);
            } else {
                assert(r[i].0 == a[i].0 && r[j].0 == a[j].0);
            }
        }
    }
}

/// A parsed query string: the decoded `(key, value)` pairs, one per key, in order of the
/// key's first appearance, each with the key's last value.
pub struct QueryParams {
    pairs: Vec<(String, String)>,
}

impl View for QueryParams {
    type V = Seq<(Seq<char>, Seq<char>)>;

    closed spec fn view(&self) -> Seq<(Seq<char>, Seq<char>)> {
        self.pairs@.map_values(|p: (String, String)| (p.0@, p.1@))
    }
}

impl QueryParams {
    /// The value for key `k` (the last one given).
    pub fn get(&self, k: &str) -> (r: Option<&String>)
        ensures
            match r {
                Some(v) => lookup_last(self@, k@) == Some(v@),
                None => lookup_last(self@, k@) is None,
            },
    {
        let mut i = self.pairs.len();
        assert(self@.subrange(0, i as int) =~= self@);
        while i > 0
            invariant
                i <= self.pairs@.len(),
                lookup_last(self@, k@) == lookup_last(self@.subrange(0, i as int), k@),
            decreases i,
        {
            let ghost pre = self@.subrange(0, i as int);
            assert(pre.last() == (self.pairs@[i - 1].0@, self.pairs@[i - 1].1@));
            assert(pre.drop_last() == self@.subrange(0, i - 1));
            if str_eq(self.pairs[i - 1].0.as_str(), k) {
                return Some(&self.pairs[i - 1].1);
            }
            i = i - 1;
        }
        None
    }

    /// Number of keys.
    pub fn len(&self) -> (n: usize)
        ensures
            n == self@.len(),
    {
        self.pairs.len()
    }
}

proof fn lemma_pair_key(p: Seq<char>, j: int)
    requires
        0 <= j <= p.len(),
        forall|i: int| 0 <= i < j ==> p[i] != '=',
        j < p.len() ==> p[j] == '=',
    ensures
        pair_key(p) == p.subrange(0, j),
{
    let a = p.subrange(0, j);
    assert(!a.contains('=')) by {
        if a.contains('=') {
            let i = choose|i: int| 0 <= i < a.len() && a[i] == '=';
            assert(p[i] == '=');
        }
    }
    crate::text::lemma_split_no_sep(a, '=');
    if j < p.len() {
        let y = p.subrange(j + 1, p.len() as int);
        assert(p == a.push('=') + y);
        crate::text::lemma_split_concat(a, '=', y);
        crate::text::lemma_split_nonempty(y, '=');
        assert(crate::text::split_on(p, '=')[0] == crate::text::split_on(a, '=')[0]);
    } else {
        assert(p == a);
    }
}

/// Set key `k` to `v` among `pairs` (see [`assoc_put`]).
fn put_pair(pairs: &mut Vec<(String, String)>, k: String, v: String)
    ensures
        final(pairs)@.map_values(|p: (String, String)| (p.0@, p.1@)) == assoc_put(
            old(pairs)@.map_values(|p: (String, String)| (p.0@, p.1@)),
            k@,
            v@,
        ),
{
    let ghost es = pairs@.map_values(|p: (String, String)| (p.0@, p.1@));
    let mut i = pairs.len();
    assert(es.subrange(0, i as int) =~= es);
    while i > 0
        invariant
            i <= pairs@.len(),
            pairs@ == old(pairs)@,
            es == pairs@.map_values(|p: (String, String)| (p.0@, p.1@)),
            key_pos(es, k@) == key_pos(es.subrange(0, i as int), k@),
        decreases i,
    {
        let ghost pre = es.subrange(0, i as int);
        assert(pre.last() == es[i - 1]);
        assert(pre.drop_last() =~= es.subrange(0, i - 1));
        if str_eq(pairs[i - 1].0.as_str(), k.as_str()) {
            proof {
                lemma_key_pos(pre, k@);
            }
            pairs.set(i - 1, (k, v));
            proof {
                assert(key_pos(es, k@) == i - 1);
            }
            assert(pairs@.map_values(|p: (String, String)| (p.0@, p.1@)) =~= es.update(i - 1, (k@, v@)));
            return;
        }
        i = i - 1;
    }
    assert(key_pos(es.subrange(0, 0), k@) == -1);
    pairs.push((k, v));
    assert(pairs@.map_values(|p: (String, String)| (p.0@, p.1@)) =~= es.push((k@, v@)));
}

/// Parse an `x=1&y=2` query string into decoded pairs.
pub fn parse_query(q: &str) -> (params: QueryParams)
    ensures
        params@ == assoc_all(query_pairs(crate::text::split_on(q@, '&'))),
        keys_distinct(params@),
        forall|k: Seq<char>| #[trigger] lookup_last(params@, k) == lookup_last(query_pairs(crate::text::split_on(q@, '&')), k),
{
    let v = chars_of(q);
    let ranges = split_ranges(&v, '&');
    let ghost ps = crate::text::pieces(v@, ranges@);
    let mut pairs: Vec<(String, String)> = Vec::new();
    let mut r: usize = 0;
    while r < ranges.len()
        invariant
            r <= ranges@.len(),
            ps == crate::text::pieces(v@, ranges@),
            ps == crate::text::split_on(q@, '&'),
            v@ == q@,
            forall|k: int| 0 <= k < ranges@.len() ==> (#[trigger] ranges@[k]).0 <= ranges@[k].1 <= v@.len(),
            pairs@.map_values(|p: (String, String)| (p.0@, p.1@)) == assoc_all(query_pairs(ps.subrange(0, r as int))),
        decreases ranges@.len() - r,
    {
        let (lo, hi) = ranges[r];
        let ghost p = v@.subrange(lo as int, hi as int);
        assert(ps[r as int] == p);
        assert(ps.subrange(0, r + 1).drop_last() == ps.subrange(0, r as int));
        assert(ps.subrange(0, r + 1).last() == p);
        if lo < hi {
            let mut j = lo;
            while j < hi && v[j] != '='
                invariant
                    lo <= j <= hi,
                    hi <= v@.len(),
                    forall|i: int| lo <= i < j ==> v@[i] != '=',
                decreases hi - j,
            {
                j = j + 1;
            }
            proof {
                lemma_pair_key(p, j - lo);
            }
            if j > lo {
                let key = string_of_chars(&v, lo, j);
                let val = if j < hi { string_of_chars(&v, j + 1, hi) } else { String::new() };
                proof {
                    assert(p.subrange(0, j - lo) == v@.subrange(lo as int, j as int));
                    if j < hi {
                        assert(p.subrange(j - lo + 1, p.len() as int) == v@.subrange(j + 1, hi as int));
                    }
                }
                let dk = percent_decode(key.as_str());
                let dv = percent_decode(val.as_str());
                let ghost qp = query_pairs(ps.subrange(0, r as int));
                let ghost x = (form_decode(pair_key(p)), form_decode(pair_value(p)));
                put_pair(&mut pairs, dk, dv);
                assert(qp.push(x).drop_last() =~= qp);
            }
        }
        r = r + 1;
    }
    assert(ps.subrange(0, ranges@.len() as int) == ps);
    proof {
        let all = query_pairs(ps);
        lemma_assoc_distinct(all);
        assert forall|k: Seq<char>| #[trigger] lookup_last(assoc_all(all), k) == lookup_last(all, k) by {
            lemma_assoc_lookup(all, k);
        }
    }
    QueryParams { pairs }
}

/// What the OAuth redirect handler concludes from the callback query.
#[derive(Debug, PartialEq, Eq)]
pub enum CallbackResult {
    /// The authorization code to exchange.
    Code(String),
    /// Why sign-in failed.
    Error(String),
}

/// The redirect decision: a provider `error` wins; then the CSRF `state` must match;
/// then a `code` must be present.
pub open spec fn callback_spec(pairs: Seq<(Seq<char>, Seq<char>)>, expected_state: Seq<char>) -> (bool, Seq<char>) {
    if lookup_last(pairs, "error"@) is Some {
        (false, lookup_last(pairs, "error"@).unwrap())
    } else if lookup_last(pairs, "state"@) != Some(expected_state) {
        (false, "state mismatch"@)
    } else if lookup_last(pairs, "code"@) is Some {
        (true, lookup_last(pairs, "code"@).unwrap())
    } else {
        (false, "missing authorization code"@)
    }
}

/// Decide the outcome of the OAuth redirect from its raw query string.
pub fn callback_outcome(query: Option<&str>, expected_state: &str) -> (r: CallbackResult)
    ensures
        ({
            let q = match query { Some(s) => s@, None => Seq::empty() };
            let (ok, text) = callback_spec(query_pairs(crate::text::split_on(q, '&')), expected_state@);
            match r {
                CallbackResult::Code(c) => ok && c@ == text,
                CallbackResult::Error(e) => !ok && e@ == text,
            }
        }),
{
    let params = match query {
        Some(s) => parse_query(s),
        None => {
            proof {
                reveal_strlit("");
            }
            parse_query("")
        },
    };
    if let Some(err) = params.get("error") {
        return CallbackResult::Error(err.clone());
    }
    let state_ok = match params.get("state") {
        Some(s) => str_eq(s.as_str(), expected_state),
        None => false,
    };
    if !state_ok {
        return CallbackResult::Error(to_owned_string("state mismatch"));
    }
    match params.get("code") {
        Some(c) => CallbackResult::Code(c.clone()),
        None => CallbackResult::Error(to_owned_string("missing authorization code")),
    }
}

/// The URL-safe base64 digit for a 6-bit value.
pub open spec fn b64_digit(n: nat) -> char {
    if n < 26 {
        ((65 + n) as u8) as char
    } else if n < 52 {
        ((71 + n) as u8) as char
    } else if n < 62 {
        ((n - 4) as u8) as char
    } else if n == 62 {
        '-'
    } else {
        '_'
    }
}

/// URL-safe base64 without padding: each 3 bytes become 4 digits, a trailing 1 or 2
/// bytes become 2 or 3.
pub open spec fn b64url(b: Seq<u8>) -> Seq<char>
    decreases b.len(),
{
    if b.len() == 0 {
        Seq::empty()
    } else if b.len() == 1 {
        seq![b64_digit((b[0] / 4) as nat), b64_digit(((b[0] % 4) * 16) as nat)]
    } else if b.len() == 2 {
        seq![
            b64_digit((b[0] / 4) as nat),
            b64_digit(((b[0] % 4) * 16 + b[1] / 16) as nat),
            b64_digit(((b[1] % 16) * 4) as nat),
        ]
    } else {
        seq![
            b64_digit((b[0] / 4) as nat),
            b64_digit(((b[0] % 4) * 16 + b[1] / 16) as nat),
            b64_digit(((b[1] % 16) * 4 + b[2] / 64) as nat),
            b64_digit((b[2] % 64) as nat),
        ] + b64url(b.skip(3))
    }
}

/// `base64::engine::general_purpose::URL_SAFE_NO_PAD.encode`: the bytes in URL-safe
/// base64 without padding. The encoder panics only when the output length overflows
/// `usize`, which the length bound rules out.
#[verifier::external_body]
fn encode_b64url(bytes: &[u8]) -> (s: String)
    requires
        bytes@.len() <= usize::MAX / 2,
    ensures
        s@ == b64url(bytes@),
{
    base64::engine::general_purpose::URL_SAFE_NO_PAD.encode(bytes)
}

/// The SHA-256 digest of a byte string.
pub uninterp spec fn sha256(b: Seq<u8>) -> Seq<u8>;

/// `sha2::Sha256::digest`: the 32-byte SHA-256 digest of `bytes`.
#[verifier::external_body]
pub(crate) fn sha256_digest(bytes: &[u8]) -> (d: Vec<u8>)
    ensures
        d@ == sha256(bytes@),
        d@.len() == 32,
{
    sha2::Sha256::digest(bytes).to_vec()
}

/// `rand::random::<u8>()`: one byte from the thread-local generator. Nothing is promised
/// of its value.
#[verifier::external_body]
fn random_byte() -> (b: u8) {
    rand::random::<u8>()
}

/// `n` random bytes, one draw each.
fn random_bytes(n: usize) -> (b: Vec<u8>)
    ensures
        b@.len() == n,
{
    let mut b: Vec<u8> = Vec::new();
    let mut i: usize = 0;
    while i < n
        invariant
            i <= n,
            b@.len() == i,
        decreases n - i,
    {
        b.push(random_byte());
        i = i + 1;
    }
    b
}

/// The PKCE S256 challenge of a verifier: base64url-no-pad(SHA-256(verifier)).
pub fn code_challenge(verifier: &str) -> (c: String)
    ensures
        c@ == b64url(sha256(encode_utf8(verifier@))),
{
    let digest = sha256_digest(verifier.as_bytes());
    encode_b64url(digest.as_slice())
}

/// `n_bytes` of randomness in URL-safe base64 without padding: a PKCE verifier or a
/// CSRF state token.
pub fn random_b64url(n_bytes: usize) -> (s: String)
    requires
        n_bytes <= usize::MAX / 2,
    ensures
        exists|b: Seq<u8>| b.len() == n_bytes && s@ == b64url(b),
{
    let bytes = random_bytes(n_bytes);
    let s = encode_b64url(bytes.as_slice());
    assert(bytes@.len() == n_bytes && s@ == b64url(bytes@));
    s
}

/// PKCE + CSRF parameters of one authorization request.
pub struct AuthRequestParams<'a> {
    pub client_id: &'a str,
    pub redirect_uri: &'a str,
    /// base64url(SHA-256(verifier)): the PKCE `code_challenge` (S256).
    pub code_challenge: &'a str,
    /// Opaque CSRF token echoed back on the redirect and verified.
    pub state: &'a str,
}

/// The Google identity provider (OpenID Connect over OAuth 2.0 + PKCE).
#[derive(Clone, Copy, Debug)]
pub struct GoogleProvider;

/// Percent-encoding of a text's UTF-8 bytes.
pub open spec fn pe(s: Seq<char>) -> Seq<char> {
    pct_encode(encode_utf8(s))
}

/// The Google consent-screen URL for an authorization request.
pub open spec fn google_auth_url(client_id: Seq<char>, redirect: Seq<char>, challenge: Seq<char>, state: Seq<char>) -> Seq<char> {
    "https://accounts.google.com/o/oauth2/v2/auth?response_type=code&client_id="@ + pe(client_id)
        + "&redirect_uri="@ + pe(redirect) + "&scope="@ + pe("openid email profile"@)
        + "&code_challenge="@ + pe(challenge) + "&code_challenge_method=S256&state="@ + pe(state)
}

impl GoogleProvider {
    pub fn new() -> (p: GoogleProvider)
        ensures
            p == GoogleProvider,
    {
        GoogleProvider
    }

    /// Stable internal id.
    pub fn id(&self) -> (s: &'static str)
        ensures
            s@ == "google"@,
    {
        "google"
    }

    /// Human-readable name.
    pub fn display_name(&self) -> (s: &'static str)
        ensures
            s@ == "Google"@,
    {
        "Google"
    }

    /// Firebase `signInWithIdp` provider id.
    pub fn firebase_provider_id(&self) -> (s: &'static str)
        ensures
            s@ == "google.com"@,
    {
        "google.com"
    }

    /// OAuth scopes to request.
    pub fn scopes(&self) -> (v: Vec<&'static str>)
        ensures
            v@.map_values(|s: &'static str| s@) == seq!["openid"@, "email"@, "profile"@],
    {
        let v = vec!["openid", "email", "profile"];
        assert(v@.map_values(|s: &'static str| s@) =~= seq!["openid"@, "email"@, "profile"@]);
        v
    }

    /// Provider token endpoint (authorization-code exchange).
    pub fn token_endpoint(&self) -> (s: &'static str)
        ensures
            s@ == "https://oauth2.googleapis.com/token"@,
    {
        "https://oauth2.googleapis.com/token"
    }

    /// The full authorization URL the system browser opens; every parameter value is
    /// percent-encoded and the scopes are joined by spaces.
    pub fn authorization_url(&self, p: &AuthRequestParams) -> (url: String)
        ensures
            url@ == google_auth_url(p.client_id@, p.redirect_uri@, p.code_challenge@, p.state@),
    {
        let mut url = to_owned_string("https://accounts.google.com/o/oauth2/v2/auth?response_type=code&client_id=");
        let a = percent_encode(p.client_id);
        push_str(&mut url, a.as_str());
        push_str(&mut url, "&redirect_uri=");
        let b = percent_encode(p.redirect_uri);
        push_str(&mut url, b.as_str());
        push_str(&mut url, "&scope=");
        let c = percent_encode("openid email profile");
        push_str(&mut url, c.as_str());
        push_str(&mut url, "&code_challenge=");
        let d = percent_encode(p.code_challenge);
        push_str(&mut url, d.as_str());
        push_str(&mut url, "&code_challenge_method=S256&state=");
        let e = percent_encode(p.state);
        push_str(&mut url, e.as_str());
        url
    }

    /// The provider ID token out of the token-exchange JSON response body.
    pub fn extract_id_token(&self, token_response: &str) -> (r: Result<String, SyncError>)
        ensures
            match r {
                Ok(t) => json_field_str(encode_utf8(token_response@), "id_token"@) == Some(t@),
                Err(SyncError::CloudSyncAuth(m)) => json_field_str(encode_utf8(token_response@), "id_token"@) is None
                    && m@ == "token response missing id_token"@,
                Err(_) => false,
            },
    {
        match field_str(token_response.as_bytes(), "id_token") {
            Some(t) => Ok(t),
            None => Err(SyncError::CloudSyncAuth(to_owned_string("token response missing id_token"))),
        }
    }
}

/// An uppercase hex digit, as a byte.
pub open spec fn hex_upper_byte(n: nat) -> u8 {
    if n < 10 { (48 + n) as u8 } else { (55 + n) as u8 }
}

/// The bytes of a percent-encoding (it is ASCII).
pub open spec fn pct_encode_bytes(b: Seq<u8>) -> Seq<u8>
    decreases b.len(),
{
    if b.len() == 0 {
        Seq::empty()
    } else {
        let head = if unreserved(b[0]) {
            seq![b[0]]
        } else {
            seq![37u8, hex_upper_byte((b[0] / 16) as nat), hex_upper_byte((b[0] % 16) as nat)]
        };
        head + pct_encode_bytes(b.drop_first())
    }
}

proof fn lemma_pct_encode_ascii(b: Seq<u8>)
    ensures
        is_ascii_chars(pct_encode(b)),
        pct_encode(b).len() == pct_encode_bytes(b).len(),
        forall|i: int| 0 <= i < pct_encode(b).len() ==> (#[trigger] pct_encode(b)[i]) as u8 == pct_encode_bytes(b)[i],
    decreases b.len(),
{
    if b.len() > 0 {
        lemma_pct_encode_ascii(b.drop_first());
        let hi = (b[0] / 16) as nat;
        let lo = (b[0] % 16) as nat;
        assert(hex_upper(hi) as u8 == hex_upper_byte(hi));
        assert(hex_upper(lo) as u8 == hex_upper_byte(lo));
        assert(unreserved(b[0]) ==> (b[0] as char) as u8 == b[0]);
    }
}

proof fn lemma_decode_encoded(b: Seq<u8>)
    ensures
        pct_decode(pct_encode_bytes(b)) == b,
    decreases b.len(),
{
    if b.len() > 0 {
        lemma_decode_encoded(b.drop_first());
        let e = pct_encode_bytes(b);
        let rest = pct_encode_bytes(b.drop_first());
        if unreserved(b[0]) {
            assert(e.skip(1) =~= rest);
        } else {
            let hi = (b[0] / 16) as nat;
            let lo = (b[0] % 16) as nat;
            assert(e.skip(3) =~= rest);
            assert(hex_byte_value(hex_upper_byte(hi)) == Some(hi as u8));
            assert(hex_byte_value(hex_upper_byte(lo)) == Some(lo as u8));
            assert((hi * 16 + lo) as u8 == b[0]);
        }
        assert(e.len() > 0);
        assert(pct_decode(e) =~= seq![b[0]] + b.drop_first());
    }
}

/// Percent-decoding undoes percent-encoding: the decoded bytes of an encoded text are
/// the text's own UTF-8 bytes, so decoding yields the text back.
pub proof fn lemma_percent_roundtrip(s: Seq<char>)
    ensures
        pct_decode(encode_utf8(pct_encode(encode_utf8(s)))) == encode_utf8(s),
        valid_utf8(pct_decode(encode_utf8(pct_encode(encode_utf8(s))))),
        decode_utf8(pct_decode(encode_utf8(pct_encode(encode_utf8(s))))) == s,
        form_decode(pct_encode(encode_utf8(s))) == s,
{
    let b = encode_utf8(s);
    lemma_pct_encode_ascii(b);
    is_ascii_chars_encode_utf8(pct_encode(b));
    assert(encode_utf8(pct_encode(b)) =~= pct_encode_bytes(b));
    lemma_decode_encoded(b);
    encode_utf8_valid_utf8(s);
    encode_utf8_decode_utf8(s);
}

/// How long the loopback flow waits for the browser's redirect, in seconds.
pub const FLOW_TIMEOUT_SECS: u64 = 300;

/// The loopback redirect URI for the listener's OS-assigned port.
pub fn loopback_redirect_uri(port: u16) -> (uri: String)
    ensures
        uri@ == "http://127.0.0.1:"@ + decimal(port as nat),
{
    let mut uri = to_owned_string("http://127.0.0.1:");
    push_decimal(&mut uri, port as usize);
    uri
}

/// How waiting for the browser's redirect ended.
pub enum FlowWait {
    /// The redirect arrived and was judged.
    Redirect(CallbackResult),
    /// The listener went away before a redirect arrived.
    Canceled,
    /// No redirect within [`FLOW_TIMEOUT_SECS`].
    TimedOut,
}

/// The authorization code the flow goes on to exchange, or why sign-in failed.
pub fn flow_code(wait: FlowWait) -> (r: Result<String, SyncError>)
    ensures
        match wait {
            FlowWait::Redirect(CallbackResult::Code(c)) => r == Ok::<String, SyncError>(c),
            FlowWait::Redirect(CallbackResult::Error(m)) => r matches Err(SyncError::CloudSyncAuth(e))
                && e@ == "authorization failed: "@ + m@,
            FlowWait::Canceled => r matches Err(SyncError::CloudSyncAuth(e)) && e@ == "sign-in canceled"@,
            FlowWait::TimedOut => r matches Err(SyncError::CloudSyncAuth(e)) && e@ == "sign-in timed out"@,
        },
{
    match wait {
        FlowWait::Redirect(CallbackResult::Code(c)) => Ok(c),
        FlowWait::Redirect(CallbackResult::Error(m)) => {
            let mut e = to_owned_string("authorization failed: ");
            push_str(&mut e, m.as_str());
            Err(SyncError::CloudSyncAuth(e))
        },
        FlowWait::Canceled => Err(SyncError::CloudSyncAuth(to_owned_string("sign-in canceled"))),
        FlowWait::TimedOut => Err(SyncError::CloudSyncAuth(to_owned_string("sign-in timed out"))),
    }
}

/// The form posted to the token endpoint to exchange the code and the PKCE verifier.
pub fn token_exchange_form(
    code: &str,
    client_id: &str,
    client_secret: &str,
    redirect_uri: &str,
    verifier: &str,
) -> (form: Vec<(&'static str, String)>)
    ensures
        form@.len() == 6,
        form@[0].0@ == "grant_type"@ && form@[0].1@ == "authorization_code"@,
        form@[1].0@ == "code"@ && form@[1].1@ == code@,
        form@[2].0@ == "client_id"@ && form@[2].1@ == client_id@,
        form@[3].0@ == "client_secret"@ && form@[3].1@ == client_secret@,
        form@[4].0@ == "redirect_uri"@ && form@[4].1@ == redirect_uri@,
        form@[5].0@ == "code_verifier"@ && form@[5].1@ == verifier@,
{
    let mut form: Vec<(&'static str, String)> = Vec::new();
    form.push(("grant_type", to_owned_string("authorization_code")));
    form.push(("code", to_owned_string(code)));
    form.push(("client_id", to_owned_string(client_id)));
    form.push(("client_secret", to_owned_string(client_secret)));
    form.push(("redirect_uri", to_owned_string(redirect_uri)));
    form.push(("code_verifier", to_owned_string(verifier)));
    form
}

/// The error of a refused token exchange: the status as the HTTP layer prints it, and
/// the response text.
pub fn token_exchange_error(status_text: &str, body: &str) -> (e: SyncError)
    ensures
        e matches SyncError::CloudSyncAuth(m) && m@ == "token exchange HTTP "@ + status_text@ + ": "@ + body@,
{
    let mut m = to_owned_string("token exchange HTTP ");
    push_str(&mut m, status_text);
    push_str(&mut m, ": ");
    push_str(&mut m, body);
    SyncError::CloudSyncAuth(m)
}

/// The identity providers this build offers, in display order (Google only).
pub fn enabled_providers() -> (v: Vec<GoogleProvider>)
    ensures
        v@ == seq![GoogleProvider],
{
    let mut v: Vec<GoogleProvider> = Vec::new();
    v.push(GoogleProvider::new());
    v
}

/// The enabled provider with this id, if any.
pub fn provider_by_id(id: &str) -> (p: Option<GoogleProvider>)
    ensures
        p == (if id@ == "google"@ { Some(GoogleProvider) } else { None::<GoogleProvider> }),
{
    let providers = enabled_providers();
    let mut i: usize = 0;
    while i < providers.len()
        invariant
            providers@ == seq![GoogleProvider],
            i <= 1,
            i == 1 ==> id@ != "google"@,
        decreases 1 - i,
    {
        if str_eq(providers[i].id(), id) {
            return Some(providers[i]);
        }
        i = i + 1;
    }
    None
}

/// The redirect URI of a native mobile sign-in: the app's reversed-client-id scheme
/// with the `/oauth2redirect` path.
pub fn mobile_redirect_uri(callback_scheme: &str) -> (uri: String)
    ensures
        uri@ == callback_scheme@ + ":/oauth2redirect"@,
{
    let mut uri = to_owned_string(callback_scheme);
    push_str(&mut uri, ":/oauth2redirect");
    uri
}

/// The secrets of a native sign-in in progress, kept between building the consent URL
/// and the app's return from the browser.
pub struct PendingAuth {
    pub provider_id: String,
    /// The CSRF token the callback must echo.
    pub state: String,
    /// The PKCE verifier the code exchange presents.
    pub verifier: String,
}

/// Check the callback of a native sign-in against the secrets kept for it: there must
/// be a sign-in in progress, and the `state` must match.
pub fn check_pending(pending: Option<PendingAuth>, state: &str) -> (r: Result<PendingAuth, SyncError>)
    ensures
        match pending {
            None => r matches Err(SyncError::CloudSyncAuth(m)) && m@ == "no sign-in in progress"@,
            Some(p) => if p.state@ == state@ {
                r matches Ok(q) && q == p
            } else {
                r matches Err(SyncError::CloudSyncAuth(m)) && m@ == "state mismatch"@
            },
        },
{
    match pending {
        None => Err(SyncError::CloudSyncAuth(to_owned_string("no sign-in in progress"))),
        Some(p) => {
            if str_eq(p.state.as_str(), state) {
                Ok(p)
            } else {
                Err(SyncError::CloudSyncAuth(to_owned_string("state mismatch")))
            }
        },
    }
}

/// The error for a provider id this build does not offer.
pub fn unknown_provider(provider_id: &str) -> (e: SyncError)
    ensures
        e matches SyncError::CloudSyncAuth(m) && m@ == "unknown provider "@ + provider_id@,
{
    let mut m = to_owned_string("unknown provider ");
    push_str(&mut m, provider_id);
    SyncError::CloudSyncAuth(m)
}

} // verus!
