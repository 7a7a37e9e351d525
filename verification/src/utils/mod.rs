pub mod bits;
pub mod char;
pub mod string_parsing;

use vstd::prelude::*;

verus! {

/// Number of bytes that a buffer handed to the parser may be read past its end.
pub const SIMDJSON_PADDING: usize = 32;

/// Bit `k` of `x`, for `k < 64`.
pub open spec fn bit(x: u64, k: u64) -> bool {
    (x >> k) & 1u64 == 1u64
}

/// The number of set bits of `x` among its `n` lowest bits.
pub open spec fn count_bits_below(x: u64, n: nat) -> nat
    decreases n,
{
    if n == 0 {
        0
    } else {
        count_bits_below(x, (n - 1) as nat) + if bit(x, (n - 1) as u64) { 1nat } else { 0nat }
    }
}

/// The number of set bits of `x`.
pub open spec fn popcount(x: u64) -> nat {
    count_bits_below(x, 64)
}

proof fn lemma_count_bits_below_bound(x: u64, n: nat)
    ensures
        count_bits_below(x, n) <= n,
    decreases n,
{
    if n > 0 {
        lemma_count_bits_below_bound(x, (n - 1) as nat);
    }
}

/// The smallest multiple of 64 that is at least `a`.
pub open spec fn spec_roundup_64(a: nat) -> nat {
    ((a + 63) / 64 * 64) as nat
}

/// Rounds `a` up to the next multiple of 64.
pub fn roundup_64(a: usize) -> (r: usize)
    requires
        a + 63 <= usize::MAX,
    ensures
        r == spec_roundup_64(a as nat),
{
    let b = a + 63;
    let r = b & !63usize;
    assert((b & !63usize) == b / 64 * 64) by (bit_vector);
    r
}

/// The number of set bits of `input_num`.
pub fn hamming(input_num: u64) -> (r: u32)
    ensures
        r == popcount(input_num),
{
    let mut count: u32 = 0;
    let mut k: u64 = 0;
    while k < 64
        invariant
            k <= 64,
            count == count_bits_below(input_num, k as nat),
        decreases 64 - k,
    {
        proof {
            lemma_count_bits_below_bound(input_num, k as nat);
        }
        if (input_num >> k) & 1 == 1 {
            count = count + 1;
        }
        k = k + 1;
    }
    count
}

/// The number of zero bits below the lowest set bit of `input_num` (64 for zero).
pub fn trailing_zeroes(input_num: u64) -> (r: u32)
    ensures
        r <= 64,
        (input_num == 0) <==> (r == 64),
        r < 64 ==> bit(input_num, r as u64),
        forall|j: u64| j < r ==> !#[trigger] bit(input_num, j),
        r < 64 ==> input_num & !(0xffff_ffff_ffff_ffffu64 << r) == 0,
{
    let r = input_num.trailing_zeros();
    proof {
        vstd::std_specs::bits::axiom_u64_trailing_zeros(input_num);
        if 0 < r < 64 {
            let sh = (64 - r) as u64;
            let t = r as u64;
            assert(input_num & !(0xffff_ffff_ffff_ffffu64 << t) == 0) by (bit_vector)
                requires
                    0 < t < 64,
                    sh == 64 - t,
                    input_num << sh == 0,
            ;
        }
        if r == 0 {
            assert(input_num & !(0xffff_ffff_ffff_ffffu64 << 0u64) == 0) by (bit_vector);
        }
        assert forall|j: u64| j < r implies !#[trigger] bit(input_num, j) by {
            assert((input_num >> j) & 1u64 == 0u64);
        }
    }
    r
}

} // verus!
