use vstd::prelude::*;

use crate::parsed_json::{ParsedJson, ParsedJsonModel};
use crate::utils::bits::{
    carry, lemma_bit_and, lemma_bit_even_mask, lemma_bit_not, lemma_bit_or, lemma_bit_set,
    lemma_bit_shl1, lemma_bit_small, lemma_bit_xor, lemma_bit_zero, lemma_carry_step, lemma_clear_lowest_bit, lemma_carry_zero,
    lemma_overflow, lemma_sum_bit,
};
use crate::utils::char::{is_structural_byte, is_whitespace_byte};
use crate::utils::{bit, count_bits_below, hamming, popcount, trailing_zeroes};

verus! {

// ---------------------------------------------------------------------------
// What stage 1 computes, position by position.
// ---------------------------------------------------------------------------

/// The byte at position `p` of the document; past its end the document reads as spaces.
pub open spec fn padded_byte(s: Seq<u8>, p: int) -> u8 {
    if 0 <= p < s.len() {
        s[p]
    } else {
        0x20u8
    }
}

/// Whether the byte at `p` is a backslash.
pub open spec fn is_backslash(s: Seq<u8>, p: int) -> bool {
    padded_byte(s, p) == 0x5cu8
}

/// The length of the run of backslashes that ends just before position `p`.
pub open spec fn backslash_run(s: Seq<u8>, p: int) -> nat
    decreases p,
{
    if p <= 0 {
        0
    } else if is_backslash(s, p - 1) {
        backslash_run(s, p - 1) + 1
    } else {
        0
    }
}

/// Whether position `p` holds a byte, other than a backslash, escaped by an odd
/// run of backslashes right before it.
pub open spec fn is_escaped(s: Seq<u8>, p: int) -> bool {
    !is_backslash(s, p) && backslash_run(s, p) % 2 == 1
}

/// Whether position `p` holds a quote that opens or closes a string.
pub open spec fn is_unescaped_quote(s: Seq<u8>, p: int) -> bool {
    padded_byte(s, p) == 0x22u8 && !is_escaped(s, p)
}

/// Whether an odd number of string quotes lie in `[0, p]`: `p` is inside a string,
/// its opening quote included and its closing quote excluded.
pub open spec fn in_string(s: Seq<u8>, p: int) -> bool
    decreases p,
{
    if p < 0 {
        false
    } else if p == 0 {
        is_unescaped_quote(s, 0)
    } else {
        in_string(s, p - 1) != is_unescaped_quote(s, p)
    }
}

// ---------------------------------------------------------------------------
// Loading bytes.
// ---------------------------------------------------------------------------

/// The byte at position `p`, a space past the end of the document.
fn load_byte(buf: &[u8], p: usize) -> (b: u8)
    ensures
        b == padded_byte(buf@, p as int),
{
    if p < buf.len() {
        buf[p]
    } else {
        0x20
    }
}

/// The 64-bit mask of the positions of the block at `start` that hold `c`.
fn compare_mask_against_input(buf: &[u8], start: usize, c: u8) -> (r: u64)
    requires
        start + 64 <= usize::MAX,
    ensures
        forall|k: u64| k < 64 ==> #[trigger] bit(r, k) == (padded_byte(buf@, start + k) == c),
{
    let mut r: u64 = 0;
    let mut k: u64 = 0;
    assert forall|j: u64| j < 64 implies !#[trigger] bit(0u64, j) by {
        lemma_bit_zero(j);
    }
    while k < 64
        invariant
            k <= 64,
            start + 64 <= usize::MAX,
            forall|j: u64| j < k ==> #[trigger] bit(r, j) == (padded_byte(buf@, start + j) == c),
            forall|j: u64| k <= j < 64 ==> !#[trigger] bit(r, j),
        decreases 64 - k,
    {
        let b = load_byte(buf, start + k as usize);
        if b == c {
            let r0 = r;
            r = r | (1u64 << k);
            assert forall|j: u64| j < 64 implies #[trigger] bit(r, j) == (bit(r0, j) || j == k) by {
                lemma_bit_set(r0, k, j);
            }
        }
        k = k + 1;
    }
    r
}

// ---------------------------------------------------------------------------
// Runs of backslashes inside a block.
// ---------------------------------------------------------------------------

/// The length of the run of set bits of `x` that ends just below bit `k`.
spec fn run_local(x: u64, k: int) -> nat
    decreases k,
{
    if k <= 0 {
        0
    } else if bit(x, (k - 1) as u64) {
        run_local(x, k - 1) + 1
    } else {
        0
    }
}

/// Adding to `x` the first bit of each of its runs selected by `m` carries into
/// bit `k` exactly when bit `k - 1` ends a selected run.
proof fn lemma_run_carry(x: u64, m: u64, k: int)
    requires
        0 <= k <= 64,
    ensures
        run_local(x, k) <= k,
        carry(x, x & !(x << 1u64) & m, k as u64) == (run_local(x, k) > 0 && bit(
            m,
            (k - run_local(x, k)) as u64,
        )),
    decreases k,
{
    let s = x & !(x << 1u64) & m;
    if k == 0 {
        lemma_carry_zero(x, s);
    } else {
        let k0 = (k - 1) as u64;
        lemma_run_carry(x, m, k - 1);
        lemma_carry_step(x, s, k0);
        lemma_bit_and(x & !(x << 1u64), m, k0);
        lemma_bit_and(x, !(x << 1u64), k0);
        lemma_bit_not(x << 1u64, k0);
        lemma_bit_shl1(x, k0);
        assert(run_local(x, k - 1) == 0 <==> (k0 == 0 || !bit(x, (k0 - 1) as u64)));
    }
}

/// Inside a block whose bits mark backslashes, the run before a position is the
/// run inside the block, extended by the run before the block when it reaches
/// the block's start.
proof fn lemma_backslash_run_block(s: Seq<u8>, start: int, x: u64, k: int)
    requires
        0 <= start,
        0 <= k <= 64,
        forall|j: u64| j < 64 ==> #[trigger] bit(x, j) == is_backslash(s, start + j),
    ensures
        backslash_run(s, start + k) == run_local(x, k) + (if run_local(x, k) == k {
            backslash_run(s, start)
        } else {
            0
        }),
    decreases k,
{
    if k > 0 {
        lemma_backslash_run_block(s, start, x, k - 1);
        let k0 = (k - 1) as u64;
        assert(bit(x, k0) == is_backslash(s, start + k0));
        lemma_run_local_bound(x, k - 1);
    }
}

proof fn lemma_run_local_bound(x: u64, k: int)
    requires
        0 <= k,
    ensures
        run_local(x, k) <= k,
    decreases k,
{
    if k > 0 {
        lemma_run_local_bound(x, k - 1);
    }
}

/// The odd-ends mask that `find_odd_backslash_sequences` computes from the
/// backslash mask `x` and the carry `prev` of the previous block.
spec fn odd_ends_of(x: u64, prev: u64) -> u64 {
    let even_bits = 0x5555555555555555u64;
    let odd_bits = !even_bits;
    let start_edges = x & !(x << 1u64);
    let even_start_mask = even_bits ^ prev;
    let even_starts = start_edges & even_start_mask;
    let odd_starts = start_edges & !even_start_mask;
    let even_carries = x.wrapping_add(even_starts);
    let odd_carries = x.wrapping_add(odd_starts) | prev;
    let even_carry_ends = even_carries & !x;
    let odd_carry_ends = odd_carries & !x;
    (even_carry_ends & odd_bits) | (odd_carry_ends & even_bits)
}

proof fn lemma_odd_end_bit(s: Seq<u8>, start: int, x: u64, prev: u64, k: u64)
    requires
        0 <= start,
        k < 64,
        prev == (if backslash_run(s, start) % 2 == 1 { 1u64 } else { 0u64 }),
        forall|j: u64| j < 64 ==> #[trigger] bit(x, j) == is_backslash(s, start + j),
    ensures
        bit(odd_ends_of(x, prev), k) == is_escaped(s, start + k),
{
    let even_bits = 0x5555555555555555u64;
    let odd_bits = !even_bits;
    let start_edges = x & !(x << 1u64);
    let m = even_bits ^ prev;
    let even_starts = start_edges & m;
    let odd_starts = start_edges & !m;
    let ec = x.wrapping_add(even_starts);
    let oc0 = x.wrapping_add(odd_starts);
    let oc = oc0 | prev;
    let ece = ec & !x;
    let oce = oc & !x;
    let r = odd_ends_of(x, prev);
    assert(r == (ece & odd_bits) | (oce & even_bits));
    lemma_bit_or(ece & odd_bits, oce & even_bits, k);
    lemma_bit_and(ece, odd_bits, k);
    lemma_bit_and(oce, even_bits, k);
    lemma_bit_and(ec, !x, k);
    lemma_bit_and(oc, !x, k);
    lemma_bit_not(x, k);
    lemma_bit_not(even_bits, k);
    lemma_bit_even_mask(k);
    lemma_bit_or(oc0, prev, k);
    lemma_bit_small(prev, k);
    lemma_sum_bit(x, even_starts, k);
    lemma_sum_bit(x, odd_starts, k);
    lemma_bit_and(start_edges, m, k);
    lemma_bit_and(start_edges, !m, k);
    lemma_bit_and(x, !(x << 1u64), k);
    lemma_run_carry(x, m, k as int);
    lemma_run_carry(x, !m, k as int);
    lemma_backslash_run_block(s, start, x, k as int);
    assert(bit(x, k) == is_backslash(s, start + k));
    let rl = run_local(x, k as int);
    let j = (k - rl) as u64;
    lemma_bit_xor(even_bits, prev, j);
    lemma_bit_not(m, j);
    lemma_bit_even_mask(j);
    lemma_bit_small(prev, j);
}

/// Marks the positions of the block at `start` that an odd run of backslashes
/// escapes; `prev_iter_ends_odd_backslash` carries from block to block whether
/// the block ends inside an odd run.
fn find_odd_backslash_sequences(
    buf: &[u8],
    start: usize,
    prev_iter_ends_odd_backslash: &mut u64,
) -> (odd_ends: u64)
    requires
        start + 64 <= usize::MAX,
        *old(prev_iter_ends_odd_backslash) == (if backslash_run(buf@, start as int) % 2 == 1 {
            1u64
        } else {
            0u64
        }),
    ensures
        forall|k: u64| k < 64 ==> #[trigger] bit(odd_ends, k) == is_escaped(buf@, start + k),
        *final(prev_iter_ends_odd_backslash) == (if backslash_run(buf@, start + 64) % 2 == 1 {
            1u64
        } else {
            0u64
        }),
{
    let even_bits = 0x5555555555555555u64;
    let odd_bits = !even_bits;
    let bs_bits = compare_mask_against_input(buf, start, 0x5c);
    let start_edges = bs_bits & !(bs_bits << 1u64);
    let prev = *prev_iter_ends_odd_backslash;
    let even_start_mask = even_bits ^ prev;
    let even_starts = start_edges & even_start_mask;
    let odd_starts = start_edges & !even_start_mask;
    let even_carries = bs_bits.wrapping_add(even_starts);
    let mut odd_carries = bs_bits.wrapping_add(odd_starts);
    let iter_ends_odd_backslash = odd_carries < bs_bits;
    odd_carries = odd_carries | prev;
    *prev_iter_ends_odd_backslash = if iter_ends_odd_backslash {
        1
    } else {
        0
    };
    let even_carry_ends = even_carries & !bs_bits;
    let odd_carry_ends = odd_carries & !bs_bits;
    let even_start_odd_end = even_carry_ends & odd_bits;
    let odd_start_even_end = odd_carry_ends & even_bits;
    let odd_ends = even_start_odd_end | odd_start_even_end;
    proof {
        let s = buf@;
        assert forall|j: u64| j < 64 implies #[trigger] bit(bs_bits, j) == is_backslash(
            s,
            start + j,
        ) by {}
        assert(odd_ends == odd_ends_of(bs_bits, prev));
        assert forall|k: u64| k < 64 implies #[trigger] bit(odd_ends, k) == is_escaped(
            s,
            start + k,
        ) by {
            lemma_odd_end_bit(s, start as int, bs_bits, prev, k);
        }
        // The carry out of the block.
        let m = even_bits ^ prev;
        lemma_overflow(bs_bits, odd_starts);
        lemma_run_carry(bs_bits, !m, 64);
        lemma_backslash_run_block(s, start as int, bs_bits, 64);
        let rl = run_local(bs_bits, 64);
        let j = (64 - rl) as u64;
        if rl > 0 {
            lemma_bit_xor(even_bits, prev, j);
            lemma_bit_not(m, j);
            lemma_bit_even_mask(j);
            lemma_bit_small(prev, j);
        }
    }
    odd_ends
}

// ---------------------------------------------------------------------------
// Strings.
// ---------------------------------------------------------------------------

/// Whether an odd number of the bits `0..=k` of `x` are set.
pub open spec fn parity_through(x: u64, k: int) -> bool
    decreases k,
{
    if k < 0 {
        false
    } else if k == 0 {
        bit(x, 0)
    } else {
        parity_through(x, k - 1) != bit(x, k as u64)
    }
}

/// The carry-less product of `x` by the all-ones word: bit `k` of the result is
/// the parity of the bits `0..=k` of `x`.
fn prefix_xor(x: u64) -> (r: u64)
    ensures
        forall|k: u64| k < 64 ==> #[trigger] bit(r, k) == parity_through(x, k as int),
{
    let mut r: u64 = 0;
    let mut inside = false;
    let mut k: u64 = 0;
    assert forall|j: u64| j < 64 implies !#[trigger] bit(0u64, j) by {
        lemma_bit_zero(j);
    }
    while k < 64
        invariant
            k <= 64,
            inside == parity_through(x, k - 1),
            forall|j: u64| j < k ==> #[trigger] bit(r, j) == parity_through(x, j as int),
            forall|j: u64| k <= j < 64 ==> !#[trigger] bit(r, j),
        decreases 64 - k,
    {
        if (x >> k) & 1 == 1 {
            inside = !inside;
        }
        if inside {
            let r0 = r;
            r = r | (1u64 << k);
            assert forall|j: u64| j < 64 implies #[trigger] bit(r, j) == (bit(r0, j) || j == k) by {
                lemma_bit_set(r0, k, j);
            }
        }
        k = k + 1;
    }
    r
}

/// Inside a block whose bits mark the string quotes, being inside a string is the
/// parity of the quotes so far in the block, flipped when the block starts inside one.
proof fn lemma_in_string_block(s: Seq<u8>, start: int, q: u64, k: int)
    requires
        0 <= start,
        0 <= k < 64,
        forall|j: u64| j < 64 ==> #[trigger] bit(q, j) == is_unescaped_quote(s, start + j),
    ensures
        in_string(s, start + k) == (parity_through(q, k) != in_string(s, start - 1)),
    decreases k,
{
    assert(bit(q, k as u64) == is_unescaped_quote(s, start + k));
    if k > 0 {
        lemma_in_string_block(s, start, q, k - 1);
    }
}

/// The word whose bits all copy bit 63 of `m`.
pub open spec fn broadcast_top_bit(m: u64) -> u64 {
    if bit(m, 63) {
        0xffff_ffff_ffff_ffffu64
    } else {
        0u64
    }
}

/// Marks the string quotes of the block at `start` in `quote_bits` and returns the
/// mask of the positions inside strings; `prev_iter_inside_quote` carries from
/// block to block whether the block ends inside a string (all ones) or not (zero).
fn find_quote_mask_and_bits(
    buf: &[u8],
    start: usize,
    odd_ends: u64,
    prev_iter_inside_quote: &mut u64,
    quote_bits: &mut u64,
) -> (quote_mask: u64)
    requires
        start + 64 <= usize::MAX,
        forall|k: u64| k < 64 ==> #[trigger] bit(odd_ends, k) == is_escaped(buf@, start + k),
        *old(prev_iter_inside_quote) == (if in_string(buf@, start - 1) {
            0xffff_ffff_ffff_ffffu64
        } else {
            0u64
        }),
    ensures
        forall|k: u64| k < 64 ==> #[trigger] bit(*final(quote_bits), k) == is_unescaped_quote(
            buf@,
            start + k,
        ),
        forall|k: u64| k < 64 ==> #[trigger] bit(quote_mask, k) == in_string(buf@, start + k),
        *final(prev_iter_inside_quote) == (if in_string(buf@, start + 63) {
            0xffff_ffff_ffff_ffffu64
        } else {
            0u64
        }),
{
    let eq = compare_mask_against_input(buf, start, 0x22);
    *quote_bits = eq & !odd_ends;
    let q = *quote_bits;
    assert forall|k: u64| k < 64 implies #[trigger] bit(q, k) == is_unescaped_quote(buf@, start + k) by {
        lemma_bit_and(eq, !odd_ends, k);
        lemma_bit_not(odd_ends, k);
    }
    let mut quote_mask = prefix_xor(q);
    let pm = quote_mask;
    let prev = *prev_iter_inside_quote;
    quote_mask = quote_mask ^ prev;
    assert forall|k: u64| k < 64 implies #[trigger] bit(quote_mask, k) == in_string(buf@, start + k) by {
        lemma_bit_xor(pm, prev, k);
        lemma_bit_zero(k);
        lemma_in_string_block(buf@, start as int, q, k as int);
    }
    let top = quote_mask;
    *prev_iter_inside_quote = ((top as i64) >> 63u64) as u64;
    assert(((top as i64) >> 63u64) as u64 == broadcast_top_bit(top)) by (bit_vector);
    assert(bit(quote_mask, 63) == in_string(buf@, start + 63));
    quote_mask
}

// ---------------------------------------------------------------------------
// Whitespace and structural characters.
// ---------------------------------------------------------------------------

/// The class bits that the low nibble of a byte selects.
pub open spec fn low_nibble_class(n: u8) -> u8 {
    if n == 0 {
        16
    } else if n == 9 {
        8
    } else if n == 10 {
        12
    } else if n == 11 {
        1
    } else if n == 12 {
        2
    } else if n == 13 {
        9
    } else {
        0
    }
}

/// The class bits that the high nibble of a byte selects.
pub open spec fn high_nibble_class(n: u8) -> u8 {
    if n == 0 {
        8
    } else if n == 2 {
        18
    } else if n == 3 {
        4
    } else if n == 5 {
        1
    } else if n == 7 {
        1
    } else if n == 11 {
        3
    } else if n == 12 {
        2
    } else if n == 13 {
        1
    } else {
        0
    }
}

/// The class bits of byte `b`: the two nibble lookups combined, nothing for bytes
/// of 0x80 and above. Bits 0-2 mark structural bytes, bits 3-4 whitespace.
pub open spec fn byte_class(b: u8) -> u8 {
    (if b & 0x80u8 == 0 {
        low_nibble_class(b & 0x0fu8)
    } else {
        0u8
    }) & high_nibble_class(b >> 4u8)
}

/// The nibble tables classify exactly the JSON structural and whitespace bytes.
proof fn lemma_byte_class(b: u8)
    ensures
        (byte_class(b) & 7u8 != 0) == is_structural_byte(b),
        (byte_class(b) & 0x18u8 != 0) == is_whitespace_byte(b),
{
    assert((byte_class(b) & 7u8 != 0) == is_structural_byte(b)) by (bit_vector);
    assert((byte_class(b) & 0x18u8 != 0) == is_whitespace_byte(b)) by (bit_vector);
}

/// The class bits of `b`, looked up in the two nibble tables.
fn classify_byte(b: u8) -> (v: u8)
    ensures
        v == byte_class(b),
{
    let low_nibble_mask: [u8; 16] = [16, 0, 0, 0, 0, 0, 0, 0, 0, 8, 12, 1, 2, 9, 0, 0];
    let high_nibble_mask: [u8; 16] = [8, 0, 18, 4, 0, 1, 0, 1, 0, 0, 0, 3, 2, 1, 0, 0];
    let lo_index = b & 0x0f;
    let hi_index = b >> 4u8;
    assert(lo_index < 16 && hi_index < 16) by (bit_vector)
        requires
            lo_index == b & 0x0f,
            hi_index == b >> 4u8,
    ;
    let lo = if b & 0x80 == 0 {
        low_nibble_mask[lo_index as usize]
    } else {
        0
    };
    let hi = high_nibble_mask[hi_index as usize];
    lo & hi
}

/// Marks the whitespace and the structural bytes of the block at `start`.
fn find_whitespace_and_structurals(
    buf: &[u8],
    start: usize,
    whitespace: &mut u64,
    structurals: &mut u64,
)
    requires
        start + 64 <= usize::MAX,
    ensures
        forall|k: u64| k < 64 ==> #[trigger] bit(*final(whitespace), k) == is_whitespace_byte(
            padded_byte(buf@, start + k),
        ),
        forall|k: u64| k < 64 ==> #[trigger] bit(*final(structurals), k) == is_structural_byte(
            padded_byte(buf@, start + k),
        ),
{
    let mut ws: u64 = 0;
    let mut st: u64 = 0;
    let mut k: u64 = 0;
    assert forall|j: u64| j < 64 implies !#[trigger] bit(0u64, j) by {
        lemma_bit_zero(j);
    }
    while k < 64
        invariant
            k <= 64,
            start + 64 <= usize::MAX,
            forall|j: u64| j < k ==> #[trigger] bit(ws, j) == is_whitespace_byte(
                padded_byte(buf@, start + j),
            ),
            forall|j: u64| j < k ==> #[trigger] bit(st, j) == is_structural_byte(
                padded_byte(buf@, start + j),
            ),
            forall|j: u64| k <= j < 64 ==> !#[trigger] bit(ws, j),
            forall|j: u64| k <= j < 64 ==> !#[trigger] bit(st, j),
        decreases 64 - k,
    {
        let b = load_byte(buf, start + k as usize);
        let v = classify_byte(b);
        proof {
            lemma_byte_class(b);
        }
        if v & 0x18 != 0 {
            let w0 = ws;
            ws = ws | (1u64 << k);
            assert forall|j: u64| j < 64 implies #[trigger] bit(ws, j) == (bit(w0, j) || j == k) by {
                lemma_bit_set(w0, k, j);
            }
        }
        if v & 0x07 != 0 {
            let s0 = st;
            st = st | (1u64 << k);
            assert forall|j: u64| j < 64 implies #[trigger] bit(st, j) == (bit(s0, j) || j == k) by {
                lemma_bit_set(s0, k, j);
            }
        }
        k = k + 1;
    }
    *whitespace = ws;
    *structurals = st;
}

// ---------------------------------------------------------------------------
// Structural positions.
// ---------------------------------------------------------------------------

/// A primary structural position: a structural byte outside strings, or a string quote.
pub open spec fn primary_bit(st: bool, qm: bool, qb: bool) -> bool {
    (st && !qm) || qb
}

/// A position after which a pseudo-structural position may start: a primary
/// structural position or whitespace.
pub open spec fn pseudo_pred_bit(st: bool, ws: bool, qm: bool, qb: bool) -> bool {
    primary_bit(st, qm, qb) || ws
}

/// A structural position: a primary one, or the first byte outside strings that is
/// not whitespace and follows a primary structural position or whitespace; closing
/// quotes excluded.
pub open spec fn structural_bit(st: bool, ws: bool, qm: bool, qb: bool, follows: bool) -> bool {
    (primary_bit(st, qm, qb) || (follows && !ws && !qm)) && !(qb && !qm)
}

/// Whether position `k` of a block follows a primary structural position or
/// whitespace: bit `k` of the carry word `prev` is set, or the byte before it in the
/// block is one.
pub open spec fn follows_pseudo_pred(st: u64, ws: u64, qm: u64, qb: u64, prev: u64, k: u64) -> bool {
    bit(prev, k) || (k > 0 && {
        let j = (k - 1) as u64;
        pseudo_pred_bit(bit(st, j), bit(ws, j), bit(qm, j), bit(qb, j))
    })
}

/// Combines the masks of a block into its structural positions; the carry
/// `prev_iter_ends_pseudo_pred` tells whether the last byte of the previous block
/// was a primary structural position or whitespace.
fn finalize_structurals(
    structurals: u64,
    whitespace: u64,
    quote_mask: u64,
    quote_bits: u64,
    prev_iter_ends_pseudo_pred: &mut u64,
) -> (r: u64)
    ensures
        forall|k: u64| k < 64 ==> #[trigger] bit(r, k) == structural_bit(
            bit(structurals, k),
            bit(whitespace, k),
            bit(quote_mask, k),
            bit(quote_bits, k),
            follows_pseudo_pred(
                structurals,
                whitespace,
                quote_mask,
                quote_bits,
                *old(prev_iter_ends_pseudo_pred),
                k,
            ),
        ),
        *final(prev_iter_ends_pseudo_pred) == (if pseudo_pred_bit(
            bit(structurals, 63),
            bit(whitespace, 63),
            bit(quote_mask, 63),
            bit(quote_bits, 63),
        ) {
            1u64
        } else {
            0u64
        }),
{
    let st = structurals;
    let prev = *prev_iter_ends_pseudo_pred;
    let mut structurals = structurals;
    structurals = structurals & !quote_mask;
    structurals = structurals | quote_bits;
    let primary = structurals;
    let pseudo_pred = structurals | whitespace;
    let shifted_pseudo_pred = (pseudo_pred << 1u64) | prev;
    *prev_iter_ends_pseudo_pred = pseudo_pred >> 63u64;
    let pseudo_structurals = shifted_pseudo_pred & (!whitespace) & (!quote_mask);
    structurals = structurals | pseudo_structurals;
    let with_pseudo = structurals;
    structurals = structurals & !(quote_bits & !quote_mask);
    proof {
        assert forall|k: u64| k < 64 implies #[trigger] bit(primary, k) == primary_bit(
            bit(st, k),
            bit(quote_mask, k),
            bit(quote_bits, k),
        ) by {
            lemma_bit_or(st & !quote_mask, quote_bits, k);
            lemma_bit_and(st, !quote_mask, k);
            lemma_bit_not(quote_mask, k);
        }
        assert forall|k: u64| k < 64 implies #[trigger] bit(pseudo_pred, k) == pseudo_pred_bit(
            bit(st, k),
            bit(whitespace, k),
            bit(quote_mask, k),
            bit(quote_bits, k),
        ) by {
            lemma_bit_or(primary, whitespace, k);
        }
        assert forall|k: u64| k < 64 implies #[trigger] bit(structurals, k) == structural_bit(
            bit(st, k),
            bit(whitespace, k),
            bit(quote_mask, k),
            bit(quote_bits, k),
            follows_pseudo_pred(st, whitespace, quote_mask, quote_bits, prev, k),
        ) by {
            lemma_bit_and(with_pseudo, !(quote_bits & !quote_mask), k);
            lemma_bit_not(quote_bits & !quote_mask, k);
            lemma_bit_and(quote_bits, !quote_mask, k);
            lemma_bit_not(quote_mask, k);
            lemma_bit_or(primary, pseudo_structurals, k);
            lemma_bit_and(shifted_pseudo_pred & (!whitespace), !quote_mask, k);
            lemma_bit_and(shifted_pseudo_pred, !whitespace, k);
            lemma_bit_not(whitespace, k);
            lemma_bit_or(pseudo_pred << 1u64, prev, k);
            lemma_bit_shl1(pseudo_pred, k);
            if k > 0 {
                let j = (k - 1) as u64;
                assert(bit(pseudo_pred, j) == pseudo_pred_bit(
                    bit(st, j),
                    bit(whitespace, j),
                    bit(quote_mask, j),
                    bit(quote_bits, j),
                ));
            }
        }
        let top = pseudo_pred;
        assert(top >> 63u64 == (if bit(top, 63) { 1u64 } else { 0u64 })) by (bit_vector);
        assert(bit(pseudo_pred, 63) == pseudo_pred_bit(
            bit(st, 63),
            bit(whitespace, 63),
            bit(quote_mask, 63),
            bit(quote_bits, 63),
        ));
    }
    structurals
}

// ---------------------------------------------------------------------------
// Flattening masks into index lists.
// ---------------------------------------------------------------------------

/// The positions `base + k`, for the set bits `k < n` of `bits`, in increasing order.
pub open spec fn positions_of_bits(bits: u64, base: int, n: int) -> Seq<u32>
    decreases n,
{
    if n <= 0 {
        Seq::empty()
    } else {
        positions_of_bits(bits, base, n - 1) + if bit(bits, (n - 1) as u64) {
            seq![(base + n - 1) as u32]
        } else {
            Seq::empty()
        }
    }
}

/// Below the lowest set bit `t` there is nothing; from there on, the positions of
/// `bits` are `base + t` followed by those of `bits` with bit `t` cleared.
proof fn lemma_positions_clear_lowest(bits: u64, cleared: u64, base: int, t: u64, n: int)
    requires
        t < 64,
        0 <= n <= 64,
        bit(bits, t),
        forall|j: u64| j < t ==> !#[trigger] bit(bits, j),
        forall|j: u64| j < 64 ==> #[trigger] bit(cleared, j) == (bit(bits, j) && j != t),
    ensures
        n <= t ==> positions_of_bits(bits, base, n) == Seq::<u32>::empty(),
        n <= t ==> positions_of_bits(cleared, base, n) == Seq::<u32>::empty(),
        n > t ==> positions_of_bits(bits, base, n) == seq![(base + t) as u32] + positions_of_bits(
            cleared,
            base,
            n,
        ),
    decreases n,
{
    if n > 0 {
        lemma_positions_clear_lowest(bits, cleared, base, t, n - 1);
        let k = (n - 1) as u64;
        assert(bit(cleared, k) == (bit(bits, k) && k != t));
        if n - 1 == t {
            assert(positions_of_bits(bits, base, n) == seq![(base + t) as u32]);
            assert(positions_of_bits(cleared, base, n) == Seq::<u32>::empty());
        } else if n > t {
            assert(positions_of_bits(bits, base, n) == seq![(base + t) as u32]
                + positions_of_bits(cleared, base, n));
        }
    }
}

proof fn lemma_positions_empty(base: int, n: int)
    requires
        n <= 64,
    ensures
        positions_of_bits(0, base, n) == Seq::<u32>::empty(),
    decreases n,
{
    if n > 0 {
        lemma_positions_empty(base, n - 1);
        lemma_bit_zero((n - 1) as u64);
    }
}

proof fn lemma_count_clear_lowest(bits: u64, cleared: u64, t: u64, n: nat)
    requires
        t < 64,
        n <= 64,
        bit(bits, t),
        forall|j: u64| j < 64 ==> #[trigger] bit(cleared, j) == (bit(bits, j) && j != t),
    ensures
        count_bits_below(bits, n) == count_bits_below(cleared, n) + if n > t { 1nat } else { 0nat },
    decreases n,
{
    if n > 0 {
        lemma_count_clear_lowest(bits, cleared, t, (n - 1) as nat);
        assert(bit(cleared, (n - 1) as u64) == (bit(bits, (n - 1) as u64) && (n - 1) as u64 != t));
    }
}

/// There are as many positions as set bits.
proof fn lemma_positions_count(bits: u64, base: int, n: int)
    requires
        0 <= n <= 64,
    ensures
        positions_of_bits(bits, base, n).len() == count_bits_below(bits, n as nat),
    decreases n,
{
    if n > 0 {
        lemma_positions_count(bits, base, n - 1);
    }
}

/// Appends to `indexes` the positions `idx - 64 + k` of the set bits `k` of `bits`,
/// in increasing order: as many as `bits` has set bits.
fn flatten_bits(indexes: &mut Vec<u32>, idx: u32, bits: u64)
    requires
        bits == 0 || 64 <= idx,
    ensures
        final(indexes)@ == old(indexes)@ + positions_of_bits(bits, idx - 64, 64),
        final(indexes)@.len() == old(indexes)@.len() + popcount(bits),
{
    let cnt = hamming(bits);
    indexes.reserve(cnt as usize);
    proof {
        lemma_positions_count(bits, idx - 64, 64);
    }
    let ghost base = idx - 64;
    let ghost bits0 = bits;
    let mut bits = bits;
    while bits != 0
        invariant
            bits == 0 || 64 <= idx,
            base == idx - 64,
            indexes@ + positions_of_bits(bits, base, 64) == old(indexes)@ + positions_of_bits(
                bits0,
                base,
                64,
            ),
        decreases count_bits_below(bits, 64),
    {
        let t = trailing_zeroes(bits);
        let ghost before = indexes@;
        indexes.push(idx - 64 + t);
        let cleared = bits & (bits - 1);
        proof {
            assert forall|j: u64| j < 64 implies #[trigger] bit(cleared, j) == (bit(bits, j) && j
                != t) by {
                lemma_clear_lowest_bit(bits, t as u64, j);
            }
            lemma_positions_clear_lowest(bits, cleared, base, t as u64, 64);
            lemma_count_clear_lowest(bits, cleared, t as u64, 64);
            assert(indexes@ == before.push((base + t) as u32));
            assert(indexes@ + positions_of_bits(cleared, base, 64) == before + positions_of_bits(
                bits,
                base,
                64,
            ));
        }
        bits = cleared;
    }
    proof {
        lemma_positions_empty(base, 64);
    }
}

// ---------------------------------------------------------------------------
// The whole document.
// ---------------------------------------------------------------------------

/// Whether position `p` is a primary structural position or whitespace.
pub open spec fn pseudo_pred_at(s: Seq<u8>, p: int) -> bool {
    pseudo_pred_bit(
        is_structural_byte(padded_byte(s, p)),
        is_whitespace_byte(padded_byte(s, p)),
        in_string(s, p),
        is_unescaped_quote(s, p),
    )
}

/// Whether position `p` of the document is structural: a structural byte outside
/// strings, an opening quote, or the first byte of an atom (outside strings, not
/// whitespace, right after a structural position or whitespace, or at the start).
pub open spec fn is_structural_position(s: Seq<u8>, p: int) -> bool {
    structural_bit(
        is_structural_byte(padded_byte(s, p)),
        is_whitespace_byte(padded_byte(s, p)),
        in_string(s, p),
        is_unescaped_quote(s, p),
        p <= 0 || pseudo_pred_at(s, p - 1),
    )
}

/// The structural positions below `n`, in increasing order.
pub open spec fn structural_positions(s: Seq<u8>, n: int) -> Seq<u32>
    decreases n,
{
    if n <= 0 {
        Seq::empty()
    } else {
        structural_positions(s, n - 1) + if is_structural_position(s, n - 1) {
            seq![(n - 1) as u32]
        } else {
            Seq::empty()
        }
    }
}

/// The index list that stage 1 stores for a document: its structural positions,
/// then its length, then a terminating zero.
pub open spec fn structural_indexes_of(s: Seq<u8>) -> Seq<u32> {
    structural_positions(s, s.len() as int).push(s.len() as u32).push(0u32)
}

/// The structural positions of a block follow those before it.
proof fn lemma_structural_positions_block(s: Seq<u8>, base: int, bits: u64, n: int)
    requires
        0 <= base,
        0 <= n <= 64,
        forall|k: u64| k < 64 ==> #[trigger] bit(bits, k) == is_structural_position(s, base + k),
    ensures
        structural_positions(s, base + n) == structural_positions(s, base) + positions_of_bits(
            bits,
            base,
            n,
        ),
    decreases n,
{
    if n > 0 {
        lemma_structural_positions_block(s, base, bits, n - 1);
        assert(bit(bits, (n - 1) as u64) == is_structural_position(s, base + n - 1));
        assert(structural_positions(s, base + n) == structural_positions(s, base + n - 1) + if is_structural_position(s, base + n - 1) {
            seq![(base + n - 1) as u32]
        } else {
            Seq::<u32>::empty()
        });
    }
}

/// Past the end of the document nothing is structural.
proof fn lemma_structural_positions_tail(s: Seq<u8>, n: int)
    requires
        s.len() <= n,
    ensures
        structural_positions(s, n) == structural_positions(s, s.len() as int),
    decreases n,
{
    if n > s.len() {
        lemma_structural_positions_tail(s, n - 1);
    }
}

/// Every structural position is a position of the document.
proof fn lemma_structural_positions_bound(s: Seq<u8>, n: int)
    requires
        n <= u32::MAX,
    ensures
        forall|i: int|
            0 <= i < structural_positions(s, n).len() ==> #[trigger] structural_positions(s, n)[i]
                < s.len() && structural_positions(s, n)[i] < n,
        structural_positions(s, n).len() <= if n < 0 { 0 } else { n },
    decreases n,
{
    if n > 0 {
        lemma_structural_positions_bound(s, n - 1);
        if n - 1 >= s.len() {
            assert(!is_structural_position(s, n - 1));
        }
        let prev = structural_positions(s, n - 1);
        assert forall|i: int|
            0 <= i < structural_positions(s, n).len() implies #[trigger] structural_positions(s, n)[i]
                < s.len() && structural_positions(s, n)[i] < n by {
            if i < prev.len() {
                assert(structural_positions(s, n)[i] == prev[i]);
            } else {
                assert(structural_positions(s, n)[i] == (n - 1) as u32);
            }
        }
    }
}

/// What `finalize_structurals` returns on the masks of a block is its structural positions.
proof fn lemma_block_structurals(
    s: Seq<u8>,
    idx: int,
    st: u64,
    ws: u64,
    qm: u64,
    qb: u64,
    prev: u64,
    r: u64,
)
    requires
        0 <= idx,
        forall|k: u64| k < 64 ==> #[trigger] bit(ws, k) == is_whitespace_byte(padded_byte(s, idx + k)),
        forall|k: u64| k < 64 ==> #[trigger] bit(st, k) == is_structural_byte(padded_byte(s, idx + k)),
        forall|k: u64| k < 64 ==> #[trigger] bit(qb, k) == is_unescaped_quote(s, idx + k),
        forall|k: u64| k < 64 ==> #[trigger] bit(qm, k) == in_string(s, idx + k),
        prev == (if idx <= 0 || pseudo_pred_at(s, idx - 1) { 1u64 } else { 0u64 }),
        forall|k: u64| k < 64 ==> #[trigger] bit(r, k) == structural_bit(
            bit(st, k),
            bit(ws, k),
            bit(qm, k),
            bit(qb, k),
            follows_pseudo_pred(st, ws, qm, qb, prev, k),
        ),
    ensures
        forall|k: u64| k < 64 ==> #[trigger] bit(r, k) == is_structural_position(s, idx + k),
        pseudo_pred_bit(bit(st, 63), bit(ws, 63), bit(qm, 63), bit(qb, 63)) == pseudo_pred_at(
            s,
            idx + 63,
        ),
{
    assert forall|k: u64| k < 64 implies #[trigger] bit(r, k) == is_structural_position(s, idx + k) by {
        assert(bit(st, k) == is_structural_byte(padded_byte(s, idx + k)));
        assert(bit(ws, k) == is_whitespace_byte(padded_byte(s, idx + k)));
        assert(bit(qb, k) == is_unescaped_quote(s, idx + k));
        assert(bit(qm, k) == in_string(s, idx + k));
        lemma_bit_small(prev, k);
        if k > 0 {
            let j = (k - 1) as u64;
            assert(bit(st, j) == is_structural_byte(padded_byte(s, idx + j)));
            assert(bit(ws, j) == is_whitespace_byte(padded_byte(s, idx + j)));
            assert(bit(qb, j) == is_unescaped_quote(s, idx + j));
            assert(bit(qm, j) == in_string(s, idx + j));
        }
    }
    assert(bit(st, 63) == is_structural_byte(padded_byte(s, idx + 63)));
    assert(bit(ws, 63) == is_whitespace_byte(padded_byte(s, idx + 63)));
    assert(bit(qb, 63) == is_unescaped_quote(s, idx + 63));
    assert(bit(qm, 63) == in_string(s, idx + 63));
}

/// Finds the structural positions of `buf` and stores them, with the length of
/// `buf` and a terminating zero, as the structural indexes of `pj`. Returns false,
/// leaving `pj` unchanged, when `buf` is larger than `pj` was sized for or holds no
/// structural position.
pub fn find_structural_bits(buf: &[u8], pj: &mut ParsedJson) -> (ok: bool)
    requires
        buf@.len() + 64 <= u32::MAX,
    ensures
        ok == (buf@.len() <= old(pj)@.byte_capacity && structural_positions(
            buf@,
            buf@.len() as int,
        ).len() > 0),
        !ok ==> final(pj)@ == old(pj)@,
        ok ==> final(pj)@ == (ParsedJsonModel {
            structural_indexes: structural_indexes_of(buf@),
            n_structural_indexes: (structural_indexes_of(buf@).len() - 1) as nat,
            ..old(pj)@
        }),
{
    let len = buf.len();
    if len > pj.byte_capacity() {
        return false;
    }
    let ghost s = buf@;
    let mut indexes: Vec<u32> = Vec::new();
    let mut prev_iter_ends_odd_backslash: u64 = 0;
    let mut prev_iter_inside_quote: u64 = 0;
    let mut prev_iter_ends_pseudo_pred: u64 = 1;
    let mut structurals: u64 = 0;
    let len_minus_64 = if len < 64 {
        0usize
    } else {
        len - 64
    };
    let mut idx: usize = 0;
    assert forall|k: u64| k < 64 implies !#[trigger] bit(0u64, k) by {
        lemma_bit_zero(k);
    }
    while idx < len_minus_64
        invariant
            s == buf@,
            len == s.len(),
            len + 64 <= u32::MAX,
            len_minus_64 == (if len < 64 { 0 } else { len - 64 }),
            idx % 64 == 0,
            idx <= len_minus_64 + 63,
            idx < len + 64,
            prev_iter_ends_odd_backslash == (if backslash_run(s, idx as int) % 2 == 1 {
                1u64
            } else {
                0u64
            }),
            prev_iter_inside_quote == (if in_string(s, idx - 1) {
                0xffff_ffff_ffff_ffffu64
            } else {
                0u64
            }),
            prev_iter_ends_pseudo_pred == (if idx <= 0 || pseudo_pred_at(s, idx - 1) {
                1u64
            } else {
                0u64
            }),
            idx == 0 ==> structurals == 0,
            idx >= 64 ==> forall|k: u64| k < 64 ==> #[trigger] bit(structurals, k) == is_structural_position(s, idx - 64 + k),
            indexes@ == structural_positions(s, idx - 64),
        decreases len - idx,
    {
        let odd_ends = find_odd_backslash_sequences(buf, idx, &mut prev_iter_ends_odd_backslash);
        let mut quote_bits: u64 = 0;
        let quote_mask = find_quote_mask_and_bits(
            buf,
            idx,
            odd_ends,
            &mut prev_iter_inside_quote,
            &mut quote_bits,
        );
        proof {
            if idx >= 64 {
                lemma_structural_positions_block(s, idx - 64, structurals, 64);
            } else {
                lemma_positions_empty(idx - 64, 64);
            }
        }
        flatten_bits(&mut indexes, idx as u32, structurals);
        let mut whitespace: u64 = 0;
        let ghost prev_pseudo = prev_iter_ends_pseudo_pred;
        find_whitespace_and_structurals(buf, idx, &mut whitespace, &mut structurals);
        let st = structurals;
        structurals = finalize_structurals(
            structurals,
            whitespace,
            quote_mask,
            quote_bits,
            &mut prev_iter_ends_pseudo_pred,
        );
        proof {
            lemma_block_structurals(s, idx as int, st, whitespace, quote_mask, quote_bits, prev_pseudo, structurals);
        }
        idx = idx + 64;
    }
    if idx < len {
        let odd_ends = find_odd_backslash_sequences(buf, idx, &mut prev_iter_ends_odd_backslash);
        let mut quote_bits: u64 = 0;
        let quote_mask = find_quote_mask_and_bits(
            buf,
            idx,
            odd_ends,
            &mut prev_iter_inside_quote,
            &mut quote_bits,
        );
        proof {
            if idx >= 64 {
                lemma_structural_positions_block(s, idx - 64, structurals, 64);
            } else {
                lemma_positions_empty(idx - 64, 64);
            }
        }
        flatten_bits(&mut indexes, idx as u32, structurals);
        let mut whitespace: u64 = 0;
        let ghost prev_pseudo = prev_iter_ends_pseudo_pred;
        find_whitespace_and_structurals(buf, idx, &mut whitespace, &mut structurals);
        let st = structurals;
        structurals = finalize_structurals(
            structurals,
            whitespace,
            quote_mask,
            quote_bits,
            &mut prev_iter_ends_pseudo_pred,
        );
        proof {
            lemma_block_structurals(s, idx as int, st, whitespace, quote_mask, quote_bits, prev_pseudo, structurals);
        }
        idx = idx + 64;
    }
    proof {
        if idx >= 64 {
            lemma_structural_positions_block(s, idx - 64, structurals, 64);
        } else {
            lemma_positions_empty(idx - 64, 64);
        }
    }
    flatten_bits(&mut indexes, idx as u32, structurals);
    proof {
        lemma_structural_positions_tail(s, idx as int);
        lemma_structural_positions_bound(s, len as int);
    }
    let n_structural_indexes = indexes.len();
    if n_structural_indexes == 0 {
        return false;
    }
    let last = indexes[n_structural_indexes - 1];
    if last as usize > len {
        return false;
    }
    if len != last as usize {
        indexes.push(len as u32);
    }
    indexes.push(0);
    pj.set_structural_indexes(indexes);
    true
}

/// The structural positions of a document increase strictly and lie inside it.
pub proof fn lemma_structural_positions_sorted(s: Seq<u8>)
    requires
        s.len() <= u32::MAX,
    ensures
        forall|i: int, j: int|
            0 <= i < j < structural_positions(s, s.len() as int).len() ==> structural_positions(
                s,
                s.len() as int,
            )[i] < structural_positions(s, s.len() as int)[j],
        forall|i: int|
            0 <= i < structural_positions(s, s.len() as int).len() ==> #[trigger] structural_positions(
                s,
                s.len() as int,
            )[i] < s.len(),
{
    lemma_structural_positions_increasing(s, s.len() as int);
    lemma_structural_positions_bound(s, s.len() as int);
}

proof fn lemma_structural_positions_increasing(s: Seq<u8>, n: int)
    requires
        n <= u32::MAX,
    ensures
        forall|i: int, j: int|
            0 <= i < j < structural_positions(s, n).len() ==> structural_positions(s, n)[i]
                < structural_positions(s, n)[j],
    decreases n,
{
    if n > 0 {
        lemma_structural_positions_increasing(s, n - 1);
        lemma_structural_positions_bound(s, n - 1);
        let prev = structural_positions(s, n - 1);
        let cur = structural_positions(s, n);
        assert forall|i: int, j: int| 0 <= i < j < cur.len() implies cur[i] < cur[j] by {
            assert(cur[i] == prev[i]);
            if j < prev.len() {
                assert(cur[j] == prev[j]);
            } else {
                assert(cur[j] == (n - 1) as u32);
                assert(prev[i] < n - 1);
            }
        }
    }
}

} // verus!
