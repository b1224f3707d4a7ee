//! Hybrid logical clock (HLC).
//!
//! Format: `{wall_ms:016x}-{counter:08x}-{node:08x}` — fixed-width lowercase hex, so
//! lexicographic string order equals `(wall_ms, counter, node)` tuple order. The
//! empty string is the "never stamped" sentinel and sorts below every real HLC.
use vstd::prelude::*;
use crate::error::SyncError;
use crate::hex::{hex_fixed, parse_radix16, parse_radix16_exec, pow16, push_hex_fixed};
use crate::text::{chars_of, lex_lt, pieces, push_str, split_on, split_ranges, to_owned_string};
use crate::wire::{debug_quoted, debug_str};

verus! {

pub type NodeId = u32;

/// A hybrid logical clock reading.
#[derive(Clone, Copy, PartialEq, Eq, Debug, Structural, PartialOrd, Ord)]
pub struct Hlc {
    pub wall_ms: u64,
    pub counter: u32,
    pub node: NodeId,
}

/// Tuple order on `(wall_ms, counter, node)`.
pub open spec fn hlc_lt(a: Hlc, b: Hlc) -> bool {
    ||| a.wall_ms < b.wall_ms
    ||| a.wall_ms == b.wall_ms && a.counter < b.counter
    ||| a.wall_ms == b.wall_ms && a.counter == b.counter && a.node < b.node
}

/// The canonical string of a clock reading.
pub open spec fn hlc_text(h: Hlc) -> Seq<char> {
    hex_fixed(h.wall_ms as nat, 16) + (seq!['-'] + (hex_fixed(h.counter as nat, 8) + (seq!['-']
        + hex_fixed(h.node as nat, 8))))
}

/// What [`Hlc::parse`] accepts: exactly three `-`-separated radix-16 fields that fit in
/// `u64`, `u32`, `u32`.
pub open spec fn hlc_parse_spec(s: Seq<char>) -> Option<Hlc> {
    let p = split_on(s, '-');
    if p.len() == 3 && parse_radix16(p[0], u64::MAX as nat) is Some && parse_radix16(
        p[1],
        u32::MAX as nat,
    ) is Some && parse_radix16(p[2], u32::MAX as nat) is Some {
        Some(
            Hlc {
                wall_ms: parse_radix16(p[0], u64::MAX as nat).unwrap() as u64,
                counter: parse_radix16(p[1], u32::MAX as nat).unwrap() as u32,
                node: parse_radix16(p[2], u32::MAX as nat).unwrap() as u32,
            },
        )
    } else {
        None
    }
}

/// The clock after a local event observed at wall time `now_ms`.
pub open spec fn tick_spec(h: Hlc, now_ms: u64) -> Hlc {
    if now_ms > h.wall_ms {
        Hlc { wall_ms: now_ms, counter: 0, node: h.node }
    } else {
        Hlc {
            wall_ms: h.wall_ms,
            counter: if h.counter < u32::MAX { (h.counter + 1) as u32 } else { u32::MAX },
            node: h.node,
        }
    }
}

pub open spec fn max3(a: u64, b: u64, c: u64) -> u64 {
    let m = if a >= b { a } else { b };
    if m >= c { m } else { c }
}

/// Whether a standard HLC receive fits in the counter's range.
pub open spec fn receive_defined(h: Hlc, remote: Hlc, now_ms: u64) -> bool {
    let w = max3(h.wall_ms, remote.wall_ms, now_ms);
    if w == h.wall_ms && w == remote.wall_ms {
        h.counter < u32::MAX && remote.counter < u32::MAX
    } else if w == h.wall_ms {
        h.counter < u32::MAX
    } else if w == remote.wall_ms {
        remote.counter < u32::MAX
    } else {
        true
    }
}

/// The clock after merging a received remote reading (standard HLC receive).
pub open spec fn receive_spec(h: Hlc, remote: Hlc, now_ms: u64) -> Hlc {
    let w = max3(h.wall_ms, remote.wall_ms, now_ms);
    let c = if w == h.wall_ms && w == remote.wall_ms {
        (if h.counter >= remote.counter { h.counter } else { remote.counter }) + 1
    } else if w == h.wall_ms {
        h.counter + 1
    } else if w == remote.wall_ms {
        remote.counter + 1
    } else {
        0
    };
    Hlc { wall_ms: w, counter: c as u32, node: h.node }
}

/// The least reading strictly above `h` on the same node, when one exists.
pub open spec fn successor_spec(h: Hlc) -> Hlc {
    if h.counter < u32::MAX {
        Hlc { wall_ms: h.wall_ms, counter: (h.counter + 1) as u32, node: h.node }
    } else if h.wall_ms < u64::MAX {
        Hlc { wall_ms: (h.wall_ms + 1) as u64, counter: 0, node: h.node }
    } else {
        h
    }
}

/// The stamp [`bump`] derives from an existing stamp.
pub open spec fn bump_spec(s: Seq<char>) -> Seq<char> {
    match hlc_parse_spec(s) {
        Some(h) => hlc_text(successor_spec(h)),
        None => hlc_text(Hlc { wall_ms: 0, counter: 0, node: 0 }),
    }
}

/// The message a malformed stamp is rejected with: `invalid HLC: ` and the stamp as
/// Rust's `Debug` prints it.
pub open spec fn invalid_hlc_message(s: Seq<char>) -> Seq<char> {
    "invalid HLC: "@ + debug_str(s)
}

fn invalid_hlc(s: &str) -> (e: SyncError)
    ensures
        e matches SyncError::CloudSync(m) && m@ == invalid_hlc_message(s@),
{
    let mut m = to_owned_string("invalid HLC: ");
    let q = debug_quoted(s);
    push_str(&mut m, q.as_str());
    SyncError::CloudSync(m)
}

impl Hlc {
    pub fn new(wall_ms: u64, counter: u32, node: NodeId) -> (h: Hlc)
        ensures
            h == (Hlc { wall_ms, counter, node }),
    {
        Hlc { wall_ms, counter, node }
    }

    /// Advance for a local event against the current wall clock: a later wall time resets
    /// the counter, otherwise the counter increments (saturating).
    pub fn tick(&mut self, now_ms: u64)
        ensures
            *final(self) == tick_spec(*old(self), now_ms),
    {
        if now_ms > self.wall_ms {
            self.wall_ms = now_ms;
            self.counter = 0;
        } else {
            self.counter = self.counter.saturating_add(1);
        }
    }

    /// Merge a received remote clock into the local clock (standard HLC receive).
    pub fn receive(&mut self, remote: &Hlc, now_ms: u64)
        requires
            receive_defined(*old(self), *remote, now_ms),
        ensures
            *final(self) == receive_spec(*old(self), *remote, now_ms),
    {
        let max_wall = max_u64(max_u64(self.wall_ms, remote.wall_ms), now_ms);
        let new_counter = if max_wall == self.wall_ms && max_wall == remote.wall_ms {
            max_u32(self.counter, remote.counter) + 1
        } else if max_wall == self.wall_ms {
            self.counter + 1
        } else if max_wall == remote.wall_ms {
            remote.counter + 1
        } else {
            0
        };
        self.wall_ms = max_wall;
        self.counter = new_counter;
    }

    /// `{wall_ms:016x}-{counter:08x}-{node:08x}`
    pub fn format(&self) -> (s: String)
        ensures
            s@ == hlc_text(*self),
    {
        let mut s = String::new();
        push_hex_fixed(&mut s, self.wall_ms, 16);
        crate::text::push_char(&mut s, '-');
        push_hex_fixed(&mut s, self.counter as u64, 8);
        crate::text::push_char(&mut s, '-');
        push_hex_fixed(&mut s, self.node as u64, 8);
        let ghost a = hex_fixed(self.wall_ms as nat, 16);
        let ghost b = hex_fixed(self.counter as nat, 8);
        let ghost c = hex_fixed(self.node as nat, 8);
        assert(s@ =~= Seq::<char>::empty() + a + seq!['-'] + b + seq!['-'] + c);
        assert(s@ =~= hlc_text(*self));
        s
    }

    /// Parse the canonical form (any field width, either hex case, optional `+`).
    pub fn parse(s: &str) -> (r: Result<Hlc, SyncError>)
        ensures
            match r {
                Ok(h) => hlc_parse_spec(s@) == Some(h),
                Err(e) => hlc_parse_spec(s@) is None && (e matches SyncError::CloudSync(m) && m@ == invalid_hlc_message(s@)),
            },
    {
        let v = chars_of(s);
        let r = split_ranges(&v, '-');
        if r.len() != 3 {
            return Err(invalid_hlc(s));
        }
        let (a0, a1) = r[0];
        let (b0, b1) = r[1];
        let (c0, c1) = r[2];
        let wall = parse_radix16_exec(&v, a0, a1, u64::MAX);
        let counter = parse_radix16_exec(&v, b0, b1, u32::MAX as u64);
        let node = parse_radix16_exec(&v, c0, c1, u32::MAX as u64);
        proof {
            assert(pieces(v@, r@)[0] == v@.subrange(a0 as int, a1 as int));
            assert(pieces(v@, r@)[1] == v@.subrange(b0 as int, b1 as int));
            assert(pieces(v@, r@)[2] == v@.subrange(c0 as int, c1 as int));
        }
        match (wall, counter, node) {
            (Some(w), Some(c), Some(n)) => Ok(Hlc { wall_ms: w, counter: c as u32, node: n as u32 }),
            _ => Err(invalid_hlc(s)),
        }
    }

    /// Whether `self` precedes `other` in clock order.
    pub fn precedes(&self, other: &Hlc) -> (r: bool)
        ensures
            r == hlc_lt(*self, *other),
    {
        self.wall_ms < other.wall_ms || (self.wall_ms == other.wall_ms && (self.counter
            < other.counter || (self.counter == other.counter && self.node < other.node)))
    }
}

fn max_u64(a: u64, b: u64) -> (r: u64)
    ensures
        r == (if a >= b { a } else { b }),
{
    if a >= b { a } else { b }
}

fn max_u32(a: u32, b: u32) -> (r: u32)
    ensures
        r == (if a >= b { a } else { b }),
{
    if a >= b { a } else { b }
}

} // verus!

verus! {

proof fn lemma_pow16_values()
    ensures
        pow16(8) == 0x1_0000_0000,
        pow16(16) == 0x1_0000_0000_0000_0000,
{
    reveal_with_fuel(pow16, 17);
}

/// Law: the canonical strings sort exactly like the clock readings, and distinct
/// readings have distinct strings.
pub proof fn lemma_text_order(a: Hlc, b: Hlc)
    ensures
        lex_lt(hlc_text(a), hlc_text(b)) == hlc_lt(a, b),
        (hlc_text(a) == hlc_text(b)) == (a == b),
{
    lemma_pow16_values();
    let (wa, wb) = (hex_fixed(a.wall_ms as nat, 16), hex_fixed(b.wall_ms as nat, 16));
    let (ca, cb) = (hex_fixed(a.counter as nat, 8), hex_fixed(b.counter as nat, 8));
    let (na, nb) = (hex_fixed(a.node as nat, 8), hex_fixed(b.node as nat, 8));
    crate::hex::lemma_hex_fixed_order(a.wall_ms as nat, b.wall_ms as nat, 16);
    crate::hex::lemma_hex_fixed_order(a.counter as nat, b.counter as nat, 8);
    crate::hex::lemma_hex_fixed_order(a.node as nat, b.node as nat, 8);
    crate::hex::lemma_hex_fixed_len(a.wall_ms as nat, 16);
    crate::hex::lemma_hex_fixed_len(b.wall_ms as nat, 16);
    crate::hex::lemma_hex_fixed_len(a.counter as nat, 8);
    crate::hex::lemma_hex_fixed_len(b.counter as nat, 8);
    let d = seq!['-'];
    let ta = d + (ca + (d + na));
    let tb = d + (cb + (d + nb));
    let ua = d + na;
    let ub = d + nb;
    crate::text::lemma_lex_concat(wa, wb, ta, tb);
    crate::text::lemma_lex_concat(d, d, ca + ua, cb + ub);
    crate::text::lemma_lex_irreflexive(d);
    crate::text::lemma_lex_concat(ca, cb, ua, ub);
    crate::text::lemma_lex_concat(d, d, na, nb);
    // equality of the concatenations
    if hlc_text(a) == hlc_text(b) {
        assert(hlc_text(a).subrange(0, 16) =~= wa);
        assert(hlc_text(b).subrange(0, 16) =~= wb);
        assert(hlc_text(a).subrange(17, 25) =~= ca);
        assert(hlc_text(b).subrange(17, 25) =~= cb);
        assert(hlc_text(a).subrange(26, hlc_text(a).len() as int) =~= na);
        assert(hlc_text(b).subrange(26, hlc_text(b).len() as int) =~= nb);
    }
}

/// Law: the empty "never stamped" sentinel sorts below every real stamp.
pub proof fn lemma_empty_sorts_first(h: Hlc)
    ensures
        lex_lt(Seq::empty(), hlc_text(h)),
{
    crate::hex::lemma_hex_fixed_len(h.wall_ms as nat, 16);
}

/// Law: parsing a formatted clock gives the clock back.
pub proof fn lemma_parse_format(h: Hlc)
    ensures
        hlc_parse_spec(hlc_text(h)) == Some(h),
{
    lemma_pow16_values();
    let w = hex_fixed(h.wall_ms as nat, 16);
    let c = hex_fixed(h.counter as nat, 8);
    let n = hex_fixed(h.node as nat, 8);
    crate::hex::lemma_hex_fixed_no(h.wall_ms as nat, 16, '-');
    crate::hex::lemma_hex_fixed_no(h.counter as nat, 8, '-');
    crate::hex::lemma_hex_fixed_no(h.node as nat, 8, '-');
    crate::hex::lemma_hex_fixed_no(h.wall_ms as nat, 16, '+');
    crate::hex::lemma_hex_fixed_no(h.counter as nat, 8, '+');
    crate::hex::lemma_hex_fixed_no(h.node as nat, 8, '+');
    crate::hex::lemma_hex_fixed_roundtrip(h.wall_ms as nat, 16);
    crate::hex::lemma_hex_fixed_roundtrip(h.counter as nat, 8);
    crate::hex::lemma_hex_fixed_roundtrip(h.node as nat, 8);
    crate::hex::lemma_hex_fixed_len(h.wall_ms as nat, 16);
    crate::hex::lemma_hex_fixed_len(h.counter as nat, 8);
    crate::hex::lemma_hex_fixed_len(h.node as nat, 8);
    crate::text::lemma_split_no_sep(w, '-');
    crate::text::lemma_split_no_sep(c, '-');
    crate::text::lemma_split_no_sep(n, '-');
    crate::text::lemma_split_concat(c, '-', n);
    crate::text::lemma_split_concat(w, '-', c.push('-') + n);
    assert(hlc_text(h) =~= w.push('-') + (c.push('-') + n));
    let p = split_on(hlc_text(h), '-');
    assert(p =~= seq![w, c, n]);
    assert(w[0] != '+') by { assert(w.contains(w[0])); }
    assert(c[0] != '+') by { assert(c.contains(c[0])); }
    assert(n[0] != '+') by { assert(n.contains(n[0])); }
}

/// Law: a local event strictly advances the clock, unless the counter is already
/// saturated within the same millisecond; the node never changes.
pub proof fn lemma_tick_advances(h: Hlc, now_ms: u64)
    ensures
        tick_spec(h, now_ms).node == h.node,
        tick_spec(h, now_ms).wall_ms >= now_ms,
        (now_ms > h.wall_ms || h.counter < u32::MAX) ==> hlc_lt(h, tick_spec(h, now_ms)),
{
}

/// Law: after a receive the clock is strictly ahead of both its own previous reading
/// and the remote reading in `(wall_ms, counter)`, and never behind the wall clock.
pub proof fn lemma_receive_dominates(h: Hlc, remote: Hlc, now_ms: u64)
    requires
        receive_defined(h, remote, now_ms),
    ensures
        ({
            let r = receive_spec(h, remote, now_ms);
            &&& r.node == h.node
            &&& r.wall_ms >= now_ms
            &&& hlc_lt(h, r)
            &&& (r.wall_ms > remote.wall_ms || (r.wall_ms == remote.wall_ms && r.counter > remote.counter))
        }),
{
}

/// Law: `bump` of a canonical stamp is a canonical stamp that sorts strictly after it
/// (whenever a later reading exists on that node).
pub proof fn lemma_bump_greater(h: Hlc)
    requires
        h.counter < u32::MAX || h.wall_ms < u64::MAX,
    ensures
        bump_spec(hlc_text(h)) == hlc_text(successor_spec(h)),
        lex_lt(hlc_text(h), bump_spec(hlc_text(h))),
        hlc_parse_spec(bump_spec(hlc_text(h))) == Some(successor_spec(h)),
{
    lemma_parse_format(h);
    lemma_parse_format(successor_spec(h));
    lemma_text_order(h, successor_spec(h));
}

/// Derive a stamp strictly after `s` without consulting any clock: the successor of the
/// parsed reading (`counter + 1`, or the next millisecond when the counter is full).
/// The largest reading (both at their maximum) has no successor and is returned as it
/// is; a string that is not a stamp maps to the zero reading.
pub fn bump(s: &str) -> (r: String)
    ensures
        r@ == bump_spec(s@),
{
    match Hlc::parse(s) {
        Ok(h) => {
            let next = if h.counter < u32::MAX {
                Hlc { wall_ms: h.wall_ms, counter: h.counter + 1, node: h.node }
            } else if h.wall_ms < u64::MAX {
                Hlc { wall_ms: h.wall_ms + 1, counter: 0, node: h.node }
            } else {
                h
            };
            next.format()
        },
        Err(_) => Hlc::new(0, 0, 0).format(),
    }
}

/// `uuid::Uuid::new_v4().as_u128()`: 128 random bits. Nothing is promised of them.
#[verifier::external_body]
fn random_uuid_bits() -> (r: u128) {
    uuid::Uuid::new_v4().as_u128()
}

/// The node id that 128 random bits give: their low 32 bits with the lowest bit set.
pub open spec fn node_id_of_bits(bits: u128) -> NodeId {
    (bits as u32) | 1
}

/// The node id made from 128 random bits: their low 32 bits with the lowest bit set,
/// so it is never zero.
pub fn node_id_from_bits(bits: u128) -> (n: NodeId)
    ensures
        n == node_id_of_bits(bits),
        n & 1 == 1,
        n != 0,
{
    let low = bits as u32;
    let n = low | 1;
    assert(n & 1 == 1 && n != 0) by (bit_vector)
        requires
            n == low | 1,
    ;
    n
}

/// A fresh node id for this device, made by [`node_id_from_bits`] from the bits of a
/// random v4 UUID.
pub fn new_node_id() -> (n: NodeId)
    ensures
        exists|b: u128| n == #[trigger] node_id_of_bits(b),
        n & 1 == 1,
        n != 0,
{
    let bits = random_uuid_bits();
    let n = node_id_from_bits(bits);
    assert(n == node_id_of_bits(bits));
    n
}

/// A node id as stored and as it ends every stamp: 8 lowercase hex digits.
pub fn node_text(n: NodeId) -> (s: String)
    ensures
        s@ == hex_fixed(n as nat, 8),
{
    let mut s = String::new();
    push_hex_fixed(&mut s, n as u64, 8);
    assert(Seq::<char>::empty() + hex_fixed(n as nat, 8) =~= hex_fixed(n as nat, 8));
    s
}

} // verus!
