use vstd::prelude::*;

verus! {

/// The 32 bytes of `b` moved up by one, with the last byte of `a` in front: the
/// previous byte of each position of `b`, when `a` comes right before `b`.
#[allow(dead_code)]
fn push_last_byte_of_a_to_b(a: [u8; 32], b: [u8; 32]) -> (r: [u8; 32])
    ensures
        r@[0] == a@[31],
        forall|k: int| 1 <= k < 32 ==> r@[k] == b@[k - 1],
{
    let mut r = [0u8; 32];
    r[0] = a[31];
    let mut k: usize = 1;
    while k < 32
        invariant
            1 <= k <= 32,
            r@.len() == 32,
            r@[0] == a@[31],
            forall|j: int| 1 <= j < k ==> r@[j] == b@[j - 1],
        decreases 32 - k,
    {
        r[k] = b[k - 1];
        k = k + 1;
    }
    r
}

} // verus!
