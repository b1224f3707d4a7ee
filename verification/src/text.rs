//! Character-sequence helpers shared by the sync modules.
use vstd::prelude::*;
use vstd::string::*;

verus! {

/// Byte-lexicographic order on strings. UTF-8 preserves code-point order, so
/// comparing code points one by one is the same order Rust's `str` comparison uses.
pub open spec fn lex_lt(a: Seq<char>, b: Seq<char>) -> bool
    decreases a.len(),
{
    if a.len() == 0 {
        b.len() > 0
    } else if b.len() == 0 {
        false
    } else if (a[0] as u32) < (b[0] as u32) {
        true
    } else if a[0] == b[0] {
        lex_lt(a.drop_first(), b.drop_first())
    } else {
        false
    }
}

/// Appends one character (`String::push`).
#[verifier::external_body]
pub(crate) fn push_char(s: &mut String, c: char)
    ensures
        final(s)@ == old(s)@.push(c),
{
    s.push(c);
}

/// `a < b` on strings.
pub fn str_lt(a: &str, b: &str) -> (r: bool)
    ensures
        r == lex_lt(a@, b@),
{
    let na = a.unicode_len();
    let nb = b.unicode_len();
    let mut i: usize = 0;
    assert(a@.skip(0) == a@);
    assert(b@.skip(0) == b@);
    while i < na && i < nb
        invariant
            na == a@.len(),
            nb == b@.len(),
            i <= na,
            i <= nb,
            a@.subrange(0, i as int) == b@.subrange(0, i as int),
            lex_lt(a@, b@) == lex_lt(a@.skip(i as int), b@.skip(i as int)),
        decreases na - i,
    {
        let ca = a.get_char(i);
        let cb = b.get_char(i);
        assert(a@.skip(i as int)[0] == ca);
        assert(b@.skip(i as int)[0] == cb);
        if (ca as u32) < (cb as u32) {
            return true;
        }
        if ca != cb {
            return false;
        }
        assert(a@.skip(i as int).drop_first() == a@.skip(i + 1));
        assert(b@.skip(i as int).drop_first() == b@.skip(i + 1));
        assert(a@.subrange(0, i + 1) == a@.subrange(0, i as int).push(ca));
        assert(b@.subrange(0, i + 1) == b@.subrange(0, i as int).push(cb));
        i = i + 1;
    }
    i < nb
}

} // verus!

verus! {

/// Comparing two concatenations whose first parts have equal length: the first parts
/// decide unless they are equal.
pub proof fn lemma_lex_concat(x: Seq<char>, x2: Seq<char>, y: Seq<char>, y2: Seq<char>)
    requires
        x.len() == x2.len(),
    ensures
        lex_lt(x + y, x2 + y2) == (lex_lt(x, x2) || (x == x2 && lex_lt(y, y2))),
    decreases x.len(),
{
    if x.len() == 0 {
        assert(x + y == y);
        assert(x2 + y2 == y2);
        assert(x == x2);
    } else {
        assert((x + y)[0] == x[0]);
        assert((x2 + y2)[0] == x2[0]);
        assert((x + y).drop_first() == x.drop_first() + y);
        assert((x2 + y2).drop_first() == x2.drop_first() + y2);
        lemma_lex_concat(x.drop_first(), x2.drop_first(), y, y2);
        if x[0] == x2[0] {
            if x.drop_first() == x2.drop_first() {
                assert(x == x2) by {
                    assert(x =~= seq![x[0]] + x.drop_first());
                    assert(x2 =~= seq![x2[0]] + x2.drop_first());
                }
            }
            if x == x2 {
                assert(x.drop_first() == x2.drop_first());
            }
        } else {
            assert(x != x2);
        }
    }
}

/// Comparing two one-character sequences compares the characters.
pub proof fn lemma_lex_single(c: char, d: char)
    ensures
        lex_lt(seq![c], seq![d]) == ((c as u32) < (d as u32)),
{
    assert(seq![c].drop_first() =~= Seq::<char>::empty());
    assert(seq![d].drop_first() =~= Seq::<char>::empty());
    reveal_with_fuel(lex_lt, 2);
}

/// Appending one character to equal-length prefixes.
pub proof fn lemma_lex_push(p: Seq<char>, q: Seq<char>, c: char, d: char)
    requires
        p.len() == q.len(),
    ensures
        lex_lt(p.push(c), q.push(d)) == (lex_lt(p, q) || (p == q && (c as u32) < (d as u32))),
{
    assert(p.push(c) =~= p + seq![c]);
    assert(q.push(d) =~= q + seq![d]);
    lemma_lex_concat(p, q, seq![c], seq![d]);
    lemma_lex_single(c, d);
}

/// `lex_lt` is irreflexive.
pub proof fn lemma_lex_irreflexive(a: Seq<char>)
    ensures
        !lex_lt(a, a),
    decreases a.len(),
{
    if a.len() > 0 {
        lemma_lex_irreflexive(a.drop_first());
    }
}

/// `lex_lt` is asymmetric.
pub proof fn lemma_lex_asymmetric(a: Seq<char>, b: Seq<char>)
    ensures
        lex_lt(a, b) ==> !lex_lt(b, a),
    decreases a.len(),
{
    if a.len() > 0 && b.len() > 0 {
        lemma_lex_asymmetric(a.drop_first(), b.drop_first());
    }
}

/// Distinct characters have distinct code points.
pub proof fn lemma_char_code_injective(c: char, d: char)
    ensures
        ((c as u32) == (d as u32)) == (c == d),
{
}

/// `lex_lt` is total on distinct sequences.
pub proof fn lemma_lex_total(a: Seq<char>, b: Seq<char>)
    ensures
        a != b ==> lex_lt(a, b) || lex_lt(b, a),
    decreases a.len(),
{
    if a.len() > 0 && b.len() > 0 {
        lemma_lex_total(a.drop_first(), b.drop_first());
        lemma_char_code_injective(a[0], b[0]);
        if a[0] == b[0] && a.drop_first() == b.drop_first() {
            assert(a =~= seq![a[0]] + a.drop_first());
            assert(b =~= seq![b[0]] + b.drop_first());
        }
    } else if a.len() == 0 && b.len() == 0 {
        assert(a =~= b);
    }
}

/// `lex_lt` is transitive.
pub proof fn lemma_lex_transitive(a: Seq<char>, b: Seq<char>, c: Seq<char>)
    ensures
        lex_lt(a, b) && lex_lt(b, c) ==> lex_lt(a, c),
    decreases a.len(),
{
    if a.len() > 0 && b.len() > 0 && c.len() > 0 {
        lemma_lex_transitive(a.drop_first(), b.drop_first(), c.drop_first());
    }
}

} // verus!

verus! {

/// The characters of a string, in order.
pub fn chars_of(s: &str) -> (v: Vec<char>)
    ensures
        v@ == s@,
{
    let n = s.unicode_len();
    let mut v: Vec<char> = Vec::new();
    let mut i: usize = 0;
    while i < n
        invariant
            n == s@.len(),
            i <= n,
            v@ == s@.subrange(0, i as int),
        decreases n - i,
    {
        let c = s.get_char(i);
        v.push(c);
        assert(s@.subrange(0, i + 1) == s@.subrange(0, i as int).push(c));
        i = i + 1;
    }
    assert(s@.subrange(0, n as int) == s@);
    v
}

/// Appends every character of `v[lo..hi]`.
pub fn push_chars(out: &mut String, v: &Vec<char>, lo: usize, hi: usize)
    requires
        lo <= hi <= v@.len(),
    ensures
        final(out)@ == old(out)@ + v@.subrange(lo as int, hi as int),
{
    let mut i = lo;
    while i < hi
        invariant
            lo <= i <= hi,
            hi <= v@.len(),
            out@ == old(out)@ + v@.subrange(lo as int, i as int),
        decreases hi - i,
    {
        push_char(out, v[i]);
        assert(v@.subrange(lo as int, i + 1) == v@.subrange(lo as int, i as int).push(v@[i as int]));
        i = i + 1;
    }
}

/// Appends every character of `s`.
pub fn push_str(out: &mut String, s: &str)
    ensures
        final(out)@ == old(out)@ + s@,
{
    let v = chars_of(s);
    push_chars(out, &v, 0, v.len());
    assert(v@.subrange(0, v@.len() as int) == v@);
}

/// A fresh `String` holding `v[lo..hi]`.
pub fn string_of_chars(v: &Vec<char>, lo: usize, hi: usize) -> (s: String)
    requires
        lo <= hi <= v@.len(),
    ensures
        s@ == v@.subrange(lo as int, hi as int),
{
    let mut s = String::new();
    push_chars(&mut s, v, lo, hi);
    assert(Seq::<char>::empty() + v@.subrange(lo as int, hi as int) == v@.subrange(lo as int, hi as int));
    s
}

/// An owned copy of `s`.
pub fn to_owned_string(s: &str) -> (r: String)
    ensures
        r@ == s@,
{
    let mut r = String::new();
    push_str(&mut r, s);
    assert(Seq::<char>::empty() + s@ == s@);
    r
}

} // verus!

verus! {

/// The pieces of `s` between occurrences of `c` (what `str::split(c)` yields).
/// An empty string yields one empty piece.
pub open spec fn split_on<T>(s: Seq<T>, c: T) -> Seq<Seq<T>>
    decreases s.len(),
{
    if s.len() == 0 {
        seq![Seq::empty()]
    } else {
        let r = split_on(s.drop_last(), c);
        if s.last() == c {
            r.push(Seq::empty())
        } else {
            r.update(r.len() - 1, r.last().push(s.last()))
        }
    }
}

pub proof fn lemma_split_nonempty<T>(s: Seq<T>, c: T)
    ensures
        split_on(s, c).len() >= 1,
    decreases s.len(),
{
    if s.len() > 0 {
        lemma_split_nonempty(s.drop_last(), c);
    }
}

/// A string without the separator is a single piece.
pub proof fn lemma_split_no_sep<T>(s: Seq<T>, c: T)
    requires
        !s.contains(c),
    ensures
        split_on(s, c) == seq![s],
    decreases s.len(),
{
    if s.len() > 0 {
        assert(!s.drop_last().contains(c)) by {
            if s.drop_last().contains(c) {
                let i = choose|i: int| 0 <= i < s.drop_last().len() && s.drop_last()[i] == c;
                assert(s[i] == c);
            }
        }
        lemma_split_no_sep(s.drop_last(), c);
        assert(s.last() != c) by {
            assert(s[s.len() - 1] == s.last());
        }
        assert(s.drop_last().push(s.last()) == s);
    } else {
        assert(s == Seq::<T>::empty());
    }
}

/// Splitting at a separator concatenates the pieces of both sides.
pub proof fn lemma_split_concat<T>(a: Seq<T>, c: T, y: Seq<T>)
    ensures
        split_on(a.push(c) + y, c) == split_on(a, c) + split_on(y, c),
    decreases y.len(),
{
    lemma_split_nonempty(a, c);
    lemma_split_nonempty(y, c);
    if y.len() == 0 {
        assert(a.push(c) + y == a.push(c));
        assert(a.push(c).drop_last() == a);
        assert(split_on(a, c).push(Seq::empty()) == split_on(a, c) + seq![Seq::<T>::empty()]);
    } else {
        let y1 = y.drop_last();
        let x = y.last();
        lemma_split_concat(a, c, y1);
        lemma_split_nonempty(y1, c);
        let s = a.push(c) + y;
        assert(s.drop_last() == a.push(c) + y1);
        assert(s.last() == x);
        let r = split_on(a.push(c) + y1, c);
        let ra = split_on(a, c);
        let ry = split_on(y1, c);
        assert(r == ra + ry);
        if x == c {
            assert(r.push(Seq::empty()) == ra + ry.push(Seq::empty()));
        } else {
            assert(r.last() == ry.last());
            assert(r.update(r.len() - 1, r.last().push(x)) == ra + ry.update(ry.len() - 1, ry.last().push(x)));
        }
    }
}

/// The substrings of `v` named by index ranges.
pub open spec fn pieces<T>(v: Seq<T>, r: Seq<(usize, usize)>) -> Seq<Seq<T>> {
    Seq::new(r.len(), |k: int| v.subrange(r[k].0 as int, r[k].1 as int))
}

/// Index ranges of the pieces of `v` between occurrences of `c`.
pub fn split_ranges(v: &Vec<char>, c: char) -> (r: Vec<(usize, usize)>)
    ensures
        pieces(v@, r@) == split_on(v@, c),
        forall|k: int| 0 <= k < r@.len() ==> (#[trigger] r@[k]).0 <= r@[k].1 <= v@.len(),
{
    let mut r: Vec<(usize, usize)> = Vec::new();
    let mut start: usize = 0;
    let mut i: usize = 0;
    let n = v.len();
    assert(v@.subrange(0, 0) =~= Seq::<char>::empty());
    assert(pieces(v@, r@) + seq![v@.subrange(0, 0)] =~= split_on(v@.subrange(0, 0), c));
    while i < n
        invariant
            n == v@.len(),
            start <= i <= n,
            forall|k: int| 0 <= k < r@.len() ==> (#[trigger] r@[k]).0 <= r@[k].1 <= i,
            pieces(v@, r@) + seq![v@.subrange(start as int, i as int)] == split_on(v@.subrange(0, i as int), c),
        decreases n - i,
    {
        let ghost old_r = r@;
        let ghost pre = v@.subrange(0, i as int);
        let ghost pre1 = v@.subrange(0, i + 1);
        assert(pre1.drop_last() == pre);
        assert(pre1.last() == v@[i as int]);
        if v[i] == c {
            r.push((start, i));
            assert(pieces(v@, r@) == pieces(v@, old_r).push(v@.subrange(start as int, i as int)));
            assert(v@.subrange(i + 1, i + 1) =~= Seq::<char>::empty());
            start = i + 1;
        } else {
            assert(v@.subrange(start as int, i + 1) == v@.subrange(start as int, i as int).push(v@[i as int]));
            let ghost left = pieces(v@, r@) + seq![v@.subrange(start as int, i as int)];
            assert(pieces(v@, r@) + seq![v@.subrange(start as int, i + 1)]
                =~= left.update(left.len() - 1, left.last().push(v@[i as int])));
        }
        i = i + 1;
    }
    let ghost old_r = r@;
    r.push((start, n));
    assert(pieces(v@, r@) =~= pieces(v@, old_r) + seq![v@.subrange(start as int, n as int)]);
    assert(v@.subrange(0, n as int) == v@);
    r
}

} // verus!

verus! {

/// Index ranges of the pieces of `v` between occurrences of byte `c` (what
/// `<[u8]>::split` yields).
pub fn split_byte_ranges(v: &[u8], c: u8) -> (r: Vec<(usize, usize)>)
    ensures
        pieces(v@, r@) == split_on(v@, c),
        forall|k: int| 0 <= k < r@.len() ==> (#[trigger] r@[k]).0 <= r@[k].1 <= v@.len(),
{
    let mut r: Vec<(usize, usize)> = Vec::new();
    let mut start: usize = 0;
    let mut i: usize = 0;
    let n = v.len();
    assert(v@.subrange(0, 0) =~= Seq::<u8>::empty());
    assert(pieces(v@, r@) + seq![v@.subrange(0, 0)] =~= split_on(v@.subrange(0, 0), c));
    while i < n
        invariant
            n == v@.len(),
            start <= i <= n,
            forall|k: int| 0 <= k < r@.len() ==> (#[trigger] r@[k]).0 <= r@[k].1 <= i,
            pieces(v@, r@) + seq![v@.subrange(start as int, i as int)] == split_on(v@.subrange(0, i as int), c),
        decreases n - i,
    {
        let ghost old_r = r@;
        let ghost pre = v@.subrange(0, i as int);
        let ghost pre1 = v@.subrange(0, i + 1);
        assert(pre1.drop_last() == pre);
        assert(pre1.last() == v@[i as int]);
        if v[i] == c {
            r.push((start, i));
            assert(pieces(v@, r@) == pieces(v@, old_r).push(v@.subrange(start as int, i as int)));
            assert(v@.subrange(i + 1, i + 1) =~= Seq::<u8>::empty());
            start = i + 1;
        } else {
            assert(v@.subrange(start as int, i + 1) == v@.subrange(start as int, i as int).push(v@[i as int]));
            let ghost left = pieces(v@, r@) + seq![v@.subrange(start as int, i as int)];
            assert(pieces(v@, r@) + seq![v@.subrange(start as int, i + 1)]
                =~= left.update(left.len() - 1, left.last().push(v@[i as int])));
        }
        i = i + 1;
    }
    let ghost old_r = r@;
    r.push((start, n));
    assert(pieces(v@, r@) =~= pieces(v@, old_r) + seq![v@.subrange(start as int, n as int)]);
    assert(v@.subrange(0, n as int) == v@);
    r
}

} // verus!

verus! {

/// String equality.
pub fn str_eq(a: &str, b: &str) -> (r: bool)
    ensures
        r == (a@ == b@),
{
    let na = a.unicode_len();
    let nb = b.unicode_len();
    if na != nb {
        return false;
    }
    let mut i: usize = 0;
    while i < na
        invariant
            na == a@.len(),
            nb == b@.len(),
            na == nb,
            i <= na,
            a@.subrange(0, i as int) == b@.subrange(0, i as int),
        decreases na - i,
    {
        let ca = a.get_char(i);
        let cb = b.get_char(i);
        if ca != cb {
            return false;
        }
        assert(a@.subrange(0, i + 1) == a@.subrange(0, i as int).push(ca));
        assert(b@.subrange(0, i + 1) == b@.subrange(0, i as int).push(cb));
        i = i + 1;
    }
    assert(a@.subrange(0, na as int) == a@);
    assert(b@.subrange(0, nb as int) == b@);
    true
}

/// Whether `v[lo..hi]` spells `lit`.
pub fn range_eq_str(v: &Vec<char>, lo: usize, hi: usize, lit: &str) -> (r: bool)
    requires
        lo <= hi <= v@.len(),
    ensures
        r == (v@.subrange(lo as int, hi as int) == lit@),
{
    let n = lit.unicode_len();
    if hi - lo != n {
        return false;
    }
    let mut i: usize = 0;
    while i < n
        invariant
            n == lit@.len(),
            hi - lo == n,
            lo <= hi <= v@.len(),
            i <= n,
            v@.subrange(lo as int, lo + i) == lit@.subrange(0, i as int),
        decreases n - i,
    {
        let c = lit.get_char(i);
        if v[lo + i] != c {
            assert(v@.subrange(lo as int, hi as int)[i as int] == v@[lo + i]);
            return false;
        }
        assert(v@.subrange(lo as int, lo + i + 1) == v@.subrange(lo as int, lo + i).push(c));
        assert(lit@.subrange(0, i + 1) == lit@.subrange(0, i as int).push(c));
        i = i + 1;
    }
    assert(lit@.subrange(0, n as int) == lit@);
    true
}

/// Whether `s` begins with `prefix`.
pub open spec fn has_prefix(s: Seq<char>, prefix: Seq<char>) -> bool {
    prefix.len() <= s.len() && s.subrange(0, prefix.len() as int) == prefix
}

/// Whether `s` ends with `suffix`.
pub open spec fn has_suffix(s: Seq<char>, suffix: Seq<char>) -> bool {
    suffix.len() <= s.len() && s.subrange(s.len() - suffix.len(), s.len() as int) == suffix
}

/// `s` without its `suffix`, when it ends with it.
pub fn strip_suffix(s: &str, suffix: &str) -> (r: Option<String>)
    ensures
        match r {
            Some(head) => has_suffix(s@, suffix@) && head@ == s@.subrange(0, s@.len() - suffix@.len()),
            None => !has_suffix(s@, suffix@),
        },
{
    let v = chars_of(s);
    let n = v.len();
    let m = suffix.unicode_len();
    if m > n {
        return None;
    }
    if range_eq_str(&v, n - m, n, suffix) {
        Some(string_of_chars(&v, 0, n - m))
    } else {
        None
    }
}

/// Whether `needle` occurs in `hay` starting at index `i`.
pub open spec fn occurs_at(hay: Seq<char>, needle: Seq<char>, i: int) -> bool {
    0 <= i && i + needle.len() <= hay.len() && hay.subrange(i, i + needle.len()) == needle
}

/// Whether `needle` occurs anywhere in `hay` (`str::contains`).
pub open spec fn contains_text(hay: Seq<char>, needle: Seq<char>) -> bool {
    exists|i: int| occurs_at(hay, needle, i)
}

/// `hay.contains(needle)`.
pub fn contains_str(hay: &str, needle: &str) -> (r: bool)
    ensures
        r == contains_text(hay@, needle@),
{
    let v = chars_of(hay);
    let n = v.len();
    let m = needle.unicode_len();
    if m > n {
        proof {
            assert forall|i: int| !occurs_at(hay@, needle@, i) by {}
        }
        return false;
    }
    let last = n - m;
    let mut i: usize = 0;
    loop
        invariant
            v@ == hay@,
            n == v@.len(),
            m == needle@.len(),
            last == n - m,
            i <= last,
            forall|j: int| 0 <= j < i ==> !occurs_at(hay@, needle@, j),
        ensures
            forall|j: int| 0 <= j <= last ==> !occurs_at(hay@, needle@, j),
        decreases last - i,
    {
        if range_eq_str(&v, i, i + m, needle) {
            assert(occurs_at(hay@, needle@, i as int));
            return true;
        }
        if i == last {
            break;
        }
        i = i + 1;
    }
    proof {
        assert forall|j: int| !occurs_at(hay@, needle@, j) by {
            if 0 <= j <= last {
            }
        }
    }
    false
}

/// Unicode `White_Space` (what `char::is_whitespace` tests).
pub open spec fn is_white_space(c: char) -> bool {
    let u = c as u32;
    (0x09 <= u <= 0x0d) || u == 0x20 || u == 0x85 || u == 0xa0 || u == 0x1680
        || (0x2000 <= u <= 0x200a) || u == 0x2028 || u == 0x2029 || u == 0x202f
        || u == 0x205f || u == 0x3000
}

/// Whether `s` is empty once trimmed: every character is white space.
pub open spec fn blank(s: Seq<char>) -> bool {
    forall|i: int| 0 <= i < s.len() ==> is_white_space(#[trigger] s[i])
}

fn white_space(c: char) -> (r: bool)
    ensures
        r == is_white_space(c),
{
    let u = c as u32;
    (0x09 <= u && u <= 0x0d) || u == 0x20 || u == 0x85 || u == 0xa0 || u == 0x1680
        || (0x2000 <= u && u <= 0x200a) || u == 0x2028 || u == 0x2029 || u == 0x202f
        || u == 0x205f || u == 0x3000
}

/// `s.trim().is_empty()`.
pub fn is_blank(s: &str) -> (r: bool)
    ensures
        r == blank(s@),
{
    let n = s.unicode_len();
    let mut i: usize = 0;
    while i < n
        invariant
            n == s@.len(),
            i <= n,
            forall|j: int| 0 <= j < i ==> is_white_space(#[trigger] s@[j]),
        decreases n - i,
    {
        if !white_space(s.get_char(i)) {
            return false;
        }
        i = i + 1;
    }
    true
}

/// How many white-space characters `s` starts with.
pub open spec fn leading_ws(s: Seq<char>) -> nat
    decreases s.len(),
{
    if s.len() == 0 || !is_white_space(s[0]) { 0 } else { 1 + leading_ws(s.drop_first()) }
}

/// How many white-space characters `s` ends with.
pub open spec fn trailing_ws(s: Seq<char>) -> nat
    decreases s.len(),
{
    if s.len() == 0 || !is_white_space(s.last()) { 0 } else { 1 + trailing_ws(s.drop_last()) }
}

/// `s` without its leading and trailing white space (`str::trim`).
pub open spec fn trimmed(s: Seq<char>) -> Seq<char> {
    if blank(s) { Seq::empty() } else { s.subrange(leading_ws(s) as int, s.len() - trailing_ws(s)) }
}

proof fn lemma_leading_ws(s: Seq<char>, i: int)
    requires
        0 <= i <= s.len(),
        forall|k: int| 0 <= k < i ==> is_white_space(#[trigger] s[k]),
        i < s.len() ==> !is_white_space(s[i]),
    ensures
        leading_ws(s) == i,
    decreases i,
{
    if i > 0 {
        lemma_leading_ws(s.drop_first(), i - 1);
    }
}

proof fn lemma_trailing_ws(s: Seq<char>, j: int)
    requires
        0 <= j <= s.len(),
        forall|k: int| j <= k < s.len() ==> is_white_space(#[trigger] s[k]),
        j > 0 ==> !is_white_space(s[j - 1]),
    ensures
        trailing_ws(s) == s.len() - j,
    decreases s.len() - j,
{
    if j < s.len() {
        lemma_trailing_ws(s.drop_last(), j);
    }
}

/// `s.trim()`, owned.
pub fn trim(s: &str) -> (r: String)
    ensures
        r@ == trimmed(s@),
{
    let v = chars_of(s);
    let n = v.len();
    let mut lo: usize = 0;
    while lo < n && white_space(v[lo])
        invariant
            v@ == s@,
            n == v@.len(),
            lo <= n,
            forall|k: int| 0 <= k < lo ==> is_white_space(#[trigger] v@[k]),
        decreases n - lo,
    {
        lo = lo + 1;
    }
    if lo == n {
        assert(blank(s@));
        return String::new();
    }
    proof {
        lemma_leading_ws(s@, lo as int);
        assert(!blank(s@));
    }
    let mut hi: usize = n;
    while hi > lo && white_space(v[hi - 1])
        invariant
            v@ == s@,
            n == v@.len(),
            lo < n,
            !is_white_space(v@[lo as int]),
            lo <= hi <= n,
            forall|k: int| hi <= k < n ==> is_white_space(#[trigger] v@[k]),
        decreases hi,
    {
        hi = hi - 1;
    }
    proof {
        lemma_trailing_ws(s@, hi as int);
    }
    string_of_chars(&v, lo, hi)
}

/// A text that is not blank keeps at least one character when trimmed.
pub proof fn lemma_trimmed_nonempty(s: Seq<char>)
    requires
        !blank(s),
    ensures
        trimmed(s).len() > 0,
{
    let i = choose|i: int| 0 <= i < s.len() && !is_white_space(s[i]);
    lemma_leading_bound(s, i);
    lemma_trailing_bound(s, i);
}

proof fn lemma_leading_bound(s: Seq<char>, i: int)
    requires
        0 <= i < s.len(),
        !is_white_space(s[i]),
    ensures
        leading_ws(s) <= i,
    decreases i,
{
    if i > 0 && is_white_space(s[0]) {
        lemma_leading_bound(s.drop_first(), i - 1);
    }
}

proof fn lemma_trailing_bound(s: Seq<char>, i: int)
    requires
        0 <= i < s.len(),
        !is_white_space(s[i]),
    ensures
        trailing_ws(s) <= s.len() - 1 - i,
    decreases s.len(),
{
    if i < s.len() - 1 && is_white_space(s.last()) {
        lemma_trailing_bound(s.drop_last(), i);
    }
}

} // verus!
