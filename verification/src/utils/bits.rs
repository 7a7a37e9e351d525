use vstd::prelude::*;

use super::bit;

verus! {

/// The `k` lowest bits of `a`, for `k <= 64`.
pub open spec fn low_bits(a: u64, k: u64) -> u128 {
    (a as u128) & !(0xffff_ffff_ffff_ffff_ffff_ffff_ffff_ffffu128 << k)
}

/// Whether adding `a` and `b` carries into bit `k` (into bit 64: overflows).
pub open spec fn carry(a: u64, b: u64, k: u64) -> bool {
    low_bits(a, k) + low_bits(b, k) >= (1u128 << k)
}

pub proof fn lemma_bit_and(a: u64, b: u64, k: u64)
    requires
        k < 64,
    ensures
        bit(a & b, k) == (bit(a, k) && bit(b, k)),
{
    assert(bit(a & b, k) == (bit(a, k) && bit(b, k))) by (bit_vector)
        requires
            k < 64,
    ;
}

pub proof fn lemma_bit_or(a: u64, b: u64, k: u64)
    requires
        k < 64,
    ensures
        bit(a | b, k) == (bit(a, k) || bit(b, k)),
{
    assert(bit(a | b, k) == (bit(a, k) || bit(b, k))) by (bit_vector)
        requires
            k < 64,
    ;
}

pub proof fn lemma_bit_xor(a: u64, b: u64, k: u64)
    requires
        k < 64,
    ensures
        bit(a ^ b, k) == (bit(a, k) != bit(b, k)),
{
    assert(bit(a ^ b, k) == (bit(a, k) != bit(b, k))) by (bit_vector)
        requires
            k < 64,
    ;
}

pub proof fn lemma_bit_not(a: u64, k: u64)
    requires
        k < 64,
    ensures
        bit(!a, k) == !bit(a, k),
{
    assert(bit(!a, k) == !bit(a, k)) by (bit_vector)
        requires
            k < 64,
    ;
}

pub proof fn lemma_bit_shl1(a: u64, k: u64)
    requires
        k < 64,
    ensures
        bit(a << 1u64, k) == (k > 0 && bit(a, (k - 1) as u64)),
{
    if k == 0 {
        assert(!bit(a << 1u64, 0)) by (bit_vector);
    } else {
        let k1 = (k - 1) as u64;
        assert(bit(a << 1u64, k) == bit(a, k1)) by (bit_vector)
            requires
                0 < k < 64,
                k1 == k - 1,
        ;
    }
}

pub proof fn lemma_bit_even_mask(k: u64)
    requires
        k < 64,
    ensures
        bit(0x5555555555555555u64, k) == (k % 2 == 0),
{
    assert(bit(0x5555555555555555u64, k) == (k % 2 == 0)) by (bit_vector)
        requires
            k < 64,
    ;
}

pub proof fn lemma_bit_small(p: u64, k: u64)
    requires
        k < 64,
        p <= 1,
    ensures
        bit(p, k) == (k == 0 && p == 1),
{
    assert(bit(p, k) == (k == 0 && p == 1)) by (bit_vector)
        requires
            k < 64,
            p <= 1,
    ;
}

pub proof fn lemma_bit_zero(k: u64)
    requires
        k < 64,
    ensures
        !bit(0, k),
        bit(0xffff_ffff_ffff_ffffu64, k),
{
    assert(!bit(0, k) && bit(0xffff_ffff_ffff_ffffu64, k)) by (bit_vector)
        requires
            k < 64,
    ;
}

pub proof fn lemma_bit_set(r: u64, k: u64, j: u64)
    requires
        k < 64,
        j < 64,
    ensures
        bit(r | (1u64 << k), j) == (bit(r, j) || j == k),
{
    assert(bit(r | (1u64 << k), j) == (bit(r, j) || j == k)) by (bit_vector)
        requires
            k < 64,
            j < 64,
    ;
}

/// Clearing the lowest set bit `t` of `b` keeps every other bit.
pub proof fn lemma_clear_lowest_bit(b: u64, t: u64, j: u64)
    requires
        b != 0,
        t < 64,
        j < 64,
        bit(b, t),
        b & !(0xffff_ffff_ffff_ffffu64 << t) == 0,
    ensures
        bit(b & ((b - 1) as u64), j) == (bit(b, j) && j != t),
{
    assert(bit(b & ((b - 1) as u64), j) == (bit(b, j) && j != t)) by (bit_vector)
        requires
            b != 0,
            t < 64,
            j < 64,
            bit(b, t),
            b & !(0xffff_ffff_ffff_ffffu64 << t) == 0,
    ;
}

pub proof fn lemma_carry_zero(a: u64, b: u64)
    ensures
        !carry(a, b, 0),
{
    assert(!carry(a, b, 0)) by (bit_vector);
}

pub proof fn lemma_carry_step(a: u64, b: u64, k: u64)
    requires
        k < 64,
    ensures
        carry(a, b, (k + 1) as u64) == ((bit(a, k) && bit(b, k)) || (bit(a, k) && carry(a, b, k))
            || (bit(b, k) && carry(a, b, k))),
{
    let k1 = (k + 1) as u64;
    assert(carry(a, b, k1) == ((bit(a, k) && bit(b, k)) || (bit(a, k) && carry(a, b, k)) || (bit(
        b,
        k,
    ) && carry(a, b, k)))) by (bit_vector)
        requires
            k < 64,
            k1 == k + 1,
    ;
}

pub proof fn lemma_sum_bit(a: u64, b: u64, k: u64)
    requires
        k < 64,
    ensures
        bit(a.wrapping_add(b), k) == (bit(a, k) != (bit(b, k) != carry(a, b, k))),
{
    let s = a.wrapping_add(b);
    assert(s == ((a as u128 + b as u128) as u64)) by (bit_vector)
        requires
            s == (if a + b > u64::MAX { (a + b - 0x1_0000_0000_0000_0000) as u64 } else { (a + b) as u64 }),
    ;
    assert(bit(((a as u128 + b as u128) as u64), k) == (bit(a, k) != (bit(b, k) != carry(a, b, k))))
        by (bit_vector)
        requires
            k < 64,
    ;
}

pub proof fn lemma_overflow(a: u64, b: u64)
    ensures
        (a.wrapping_add(b) < a) == carry(a, b, 64),
{
    let s = a.wrapping_add(b);
    assert(s == ((a as u128 + b as u128) as u64)) by (bit_vector)
        requires
            s == (if a + b > u64::MAX { (a + b - 0x1_0000_0000_0000_0000) as u64 } else { (a + b) as u64 }),
    ;
    assert((((a as u128 + b as u128) as u64) < a) == carry(a, b, 64)) by (bit_vector);
}

} // verus!
