//! Fixed-width lowercase hexadecimal encoding and radix-16 parsing.
use vstd::prelude::*;
use crate::text::{lex_lt, push_char};

verus! {

/// The lowercase hex digit for a nibble.
pub open spec fn hex_digit(n: nat) -> char {
    if n < 10 { ((48 + n) as u8) as char } else { ((87 + n) as u8) as char }
}

/// `v` written as exactly `width` lowercase hex digits (high digits first; digits
/// beyond `width` are dropped, so the caller keeps `v < 16^width`).
pub open spec fn hex_fixed(v: nat, width: nat) -> Seq<char>
    decreases width,
{
    if width == 0 {
        Seq::empty()
    } else {
        hex_fixed(v / 16, (width - 1) as nat).push(hex_digit(v % 16))
    }
}

pub open spec fn pow16(w: nat) -> nat
    decreases w,
{
    if w == 0 { 1 } else { 16 * pow16((w - 1) as nat) }
}

pub proof fn lemma_hex_digit_code_pub(n: nat)
    requires n < 16,
    ensures
        n < 10 ==> hex_digit(n) as u32 == 48 + n,
        n >= 10 ==> hex_digit(n) as u32 == 87 + n,
        hex_char_value(hex_digit(n)) == Some(n),
{
    lemma_hex_digit_code(n);
}

proof fn lemma_hex_digit_code(n: nat)
    requires n < 16,
    ensures
        n < 10 ==> hex_digit(n) as u32 == 48 + n,
        n >= 10 ==> hex_digit(n) as u32 == 87 + n,
{
}

/// The lowercase hex digit for a value below 16.
pub(crate) fn hex_digit_exec(n: u64) -> (c: char)
    requires n < 16,
    ensures c == hex_digit(n as nat),
{
    if n < 10 {
        let b: u8 = (48 + n) as u8;
        b as char
    } else {
        let b: u8 = (87 + n) as u8;
        b as char
    }
}

} // verus!

verus! {

pub proof fn lemma_hex_fixed_len(v: nat, w: nat)
    ensures
        hex_fixed(v, w).len() == w,
    decreases w,
{
    if w > 0 {
        lemma_hex_fixed_len(v / 16, (w - 1) as nat);
    }
}

proof fn lemma_pow16_pos(w: nat)
    ensures
        pow16(w) >= 1,
    decreases w,
{
    if w > 0 {
        lemma_pow16_pos((w - 1) as nat);
    }
}

/// Fixed-width hex encoding is strictly monotone and injective below `16^w`.
pub proof fn lemma_hex_fixed_order(v1: nat, v2: nat, w: nat)
    requires
        v1 < pow16(w),
        v2 < pow16(w),
    ensures
        lex_lt(hex_fixed(v1, w), hex_fixed(v2, w)) == (v1 < v2),
        (hex_fixed(v1, w) == hex_fixed(v2, w)) == (v1 == v2),
    decreases w,
{
    crate::text::lemma_lex_irreflexive(hex_fixed(v1, w));
    if w == 0 {
    } else {
        let w1 = (w - 1) as nat;
        let q1 = v1 / 16;
        let q2 = v2 / 16;
        let r1 = v1 % 16;
        let r2 = v2 % 16;
        assert(v1 == 16 * q1 + r1);
        assert(v2 == 16 * q2 + r2);
        assert(q1 < pow16(w1));
        assert(q2 < pow16(w1));
        lemma_hex_fixed_order(q1, q2, w1);
        lemma_hex_fixed_len(q1, w1);
        lemma_hex_fixed_len(q2, w1);
        let p1 = hex_fixed(q1, w1);
        let p2 = hex_fixed(q2, w1);
        let d1 = hex_digit(r1);
        let d2 = hex_digit(r2);
        lemma_hex_digit_code(r1);
        lemma_hex_digit_code(r2);
        assert(((d1 as u32) < (d2 as u32)) == (r1 < r2));
        crate::text::lemma_char_code_injective(d1, d2);
        assert((d1 == d2) == (r1 == r2));
        crate::text::lemma_lex_push(p1, p2, d1, d2);
        if p1.push(d1) == p2.push(d2) {
            assert(p1 == p1.push(d1).drop_last());
            assert(p2 == p2.push(d2).drop_last());
            assert(d1 == p1.push(d1).last());
        }
        if q1 == q2 && r1 == r2 {
            assert(p1.push(d1) == p2.push(d2));
        }
    }
}

/// The value of a nibble written as a hex digit character (either case).
pub open spec fn hex_char_value(c: char) -> Option<nat> {
    let n = c as u32;
    if 48 <= n <= 57 {
        Some((n - 48) as nat)
    } else if 97 <= n <= 102 {
        Some((n - 87) as nat)
    } else if 65 <= n <= 70 {
        Some((n - 55) as nat)
    } else {
        None
    }
}

pub open spec fn all_hex(s: Seq<char>) -> bool {
    forall|i: int| 0 <= i < s.len() ==> hex_char_value(#[trigger] s[i]) is Some
}

/// The value of a string of hex digits (leading digit most significant).
pub open spec fn hex_value(s: Seq<char>) -> nat
    decreases s.len(),
{
    if s.len() == 0 {
        0
    } else {
        16 * hex_value(s.drop_last()) + hex_char_value(s.last()).unwrap()
    }
}

/// What `uN::from_str_radix(s, 16)` accepts: an optional leading `+`, then at least one
/// hex digit (either case), with the value at most `max`.
pub open spec fn parse_radix16(s: Seq<char>, max: nat) -> Option<nat> {
    let t = if s.len() > 0 && s[0] == '+' { s.drop_first() } else { s };
    if t.len() > 0 && all_hex(t) && hex_value(t) <= max {
        Some(hex_value(t))
    } else {
        None
    }
}

pub proof fn lemma_hex_fixed_roundtrip(v: nat, w: nat)
    requires
        v < pow16(w),
    ensures
        all_hex(hex_fixed(v, w)),
        hex_value(hex_fixed(v, w)) == v,
    decreases w,
{
    if w > 0 {
        let w1 = (w - 1) as nat;
        lemma_hex_fixed_roundtrip(v / 16, w1);
        lemma_hex_digit_code(v % 16);
        let p = hex_fixed(v / 16, w1);
        let s = hex_fixed(v, w);
        assert(s.drop_last() == p);
        assert(s.last() == hex_digit(v % 16));
        assert forall|i: int| 0 <= i < s.len() implies hex_char_value(#[trigger] s[i]) is Some by {
            if i < p.len() {
                assert(s[i] == p[i]);
            }
        }
    }
}

/// A hex digit is never a `-`, `+` or `.` character.
pub proof fn lemma_hex_fixed_no(v: nat, w: nat, c: char)
    requires
        hex_char_value(c) is None,
    ensures
        !hex_fixed(v, w).contains(c),
    decreases w,
{
    if w > 0 {
        lemma_hex_fixed_no(v / 16, (w - 1) as nat, c);
        lemma_hex_digit_code(v % 16);
        let p = hex_fixed(v / 16, (w - 1) as nat);
        let s = hex_fixed(v, w);
        if s.contains(c) {
            let i = choose|i: int| 0 <= i < s.len() && s[i] == c;
            if i < p.len() {
                assert(p[i] == c);
            } else {
                assert(s[i] == hex_digit(v % 16));
            }
        }
    }
}

} // verus!

verus! {

/// Appends `v` as exactly `width` lowercase hex digits.
pub fn push_hex_fixed(out: &mut String, v: u64, width: usize)
    ensures
        final(out)@ == old(out)@ + hex_fixed(v as nat, width as nat),
    decreases width,
{
    if width == 0 {
        assert(old(out)@ + Seq::<char>::empty() == old(out)@);
    } else {
        push_hex_fixed(out, v / 16, width - 1);
        let c = hex_digit_exec(v % 16);
        push_char(out, c);
        assert(hex_fixed(v as nat, width as nat) == hex_fixed((v / 16) as nat, (width - 1) as nat).push(c));
        assert(old(out)@ + hex_fixed((v / 16) as nat, (width - 1) as nat).push(c)
            == (old(out)@ + hex_fixed((v / 16) as nat, (width - 1) as nat)).push(c));
    }
}

/// The value of one hex digit character.
pub fn hex_char_value_exec(c: char) -> (r: Option<u64>)
    ensures
        match r {
            Some(v) => hex_char_value(c) == Some(v as nat) && v < 16,
            None => hex_char_value(c) is None,
        },
{
    let n = c as u32;
    if 48 <= n && n <= 57 {
        Some((n - 48) as u64)
    } else if 97 <= n && n <= 102 {
        Some((n - 87) as u64)
    } else if 65 <= n && n <= 70 {
        Some((n - 55) as u64)
    } else {
        None
    }
}

proof fn lemma_hex_value_monotone(s: Seq<char>, k: int)
    requires
        0 <= k <= s.len(),
    ensures
        hex_value(s.subrange(0, k)) <= hex_value(s),
    decreases s.len() - k,
{
    if k < s.len() {
        lemma_hex_value_monotone(s, k + 1);
        assert(s.subrange(0, k + 1).drop_last() == s.subrange(0, k));
    } else {
        assert(s.subrange(0, k) == s);
    }
}

/// `uN::from_str_radix(&v[lo..hi], 16)` for a type whose largest value is `max`.
pub fn parse_radix16_exec(v: &Vec<char>, lo: usize, hi: usize, max: u64) -> (r: Option<u64>)
    requires
        lo <= hi <= v@.len(),
    ensures
        match r {
            Some(x) => parse_radix16(v@.subrange(lo as int, hi as int), max as nat) == Some(x as nat),
            None => parse_radix16(v@.subrange(lo as int, hi as int), max as nat) is None,
        },
{
    let ghost s = v@.subrange(lo as int, hi as int);
    let mut start = lo;
    if lo < hi && v[lo] == '+' {
        start = lo + 1;
    }
    let ghost t = v@.subrange(start as int, hi as int);
    assert(t == (if s.len() > 0 && s[0] == '+' { s.drop_first() } else { s }));
    if start == hi {
        return None;
    }
    let mut acc: u64 = 0;
    let mut i = start;
    assert(v@.subrange(start as int, start as int) =~= Seq::<char>::empty());
    while i < hi
        invariant
            start <= i <= hi,
            hi <= v@.len(),
            t == v@.subrange(start as int, hi as int),
            parse_radix16(v@.subrange(lo as int, hi as int), max as nat) == (if all_hex(t) && hex_value(t) <= max {
                Some(hex_value(t))
            } else {
                None
            }),
            all_hex(v@.subrange(start as int, i as int)),
            acc as nat == hex_value(v@.subrange(start as int, i as int)),
            acc <= max,
        decreases hi - i,
    {
        let ghost p = v@.subrange(start as int, i as int);
        let ghost p1 = v@.subrange(start as int, i + 1);
        assert(p1.drop_last() == p);
        assert(p1.last() == v@[i as int]);
        match hex_char_value_exec(v[i]) {
            None => {
                assert(t[i - start] == v@[i as int]);
                assert(hex_char_value(t[i - start]) is None);
                assert(!all_hex(t));
                return None;
            },
            Some(d) => {
                if d > max || acc > (max - d) / 16 {
                    proof {
                        assert(hex_value(p1) == 16 * acc + d);
                        assert(hex_value(p1) > max);
                        assert(t.subrange(0, i + 1 - start) == p1);
                        lemma_hex_value_monotone(t, i + 1 - start);
                    }
                    return None;
                }
                acc = acc * 16 + d;
                assert forall|j: int| 0 <= j < p1.len() implies hex_char_value(#[trigger] p1[j]) is Some by {
                    if j < p.len() {
                        assert(p1[j] == p[j]);
                    }
                }
            },
        }
        i = i + 1;
    }
    Some(acc)
}

} // verus!
