//! The exact part of colour inversion: negating the chroma planes.
//!
//! Negating a sample flips the sign bit of its bit pattern, which is the
//! value times -1 for every value other than NaN.
use vstd::prelude::*;

use crate::planes::{sample_key, OklabPlanes};

verus! {

/// The bit pattern of a sample with its sign flipped.
pub open spec fn negated(bits: u32) -> u32 {
    bits ^ 0x8000_0000u32
}

/// Negating twice gives the sample back.
pub proof fn law_negate_twice(bits: u32)
    ensures
        negated(negated(bits)) == bits,
{
    assert((bits ^ 0x8000_0000u32) ^ 0x8000_0000u32 == bits) by (bit_vector);
}

/// Negating a sample mirrors it in the sample order (each value goes to
/// its negative, `+0.0` and `-0.0` trading places) and keeps its magnitude
/// bits.
pub proof fn law_negate_mirrors_order(bits: u32)
    ensures
        sample_key(negated(bits)) == -1 - sample_key(bits),
        negated(bits) & 0x7FFF_FFFFu32 == bits & 0x7FFF_FFFFu32,
        (negated(bits) >= 0x8000_0000) != (bits >= 0x8000_0000),
{
    assert(bits >= 0x8000_0000 ==> bits ^ 0x8000_0000u32 == (bits - 0x8000_0000) as u32) by (bit_vector);
    assert(bits < 0x8000_0000 ==> bits ^ 0x8000_0000u32 == (bits + 0x8000_0000) as u32) by (bit_vector);
    assert((bits ^ 0x8000_0000u32) & 0x7FFF_FFFFu32 == bits & 0x7FFF_FFFFu32) by (bit_vector);
}

/// Flips the sign of every sample of `plane`.
pub fn negate_samples(plane: &mut Vec<u32>)
    ensures
        final(plane)@.len() == old(plane)@.len(),
        forall|i: int| 0 <= i < final(plane)@.len() ==> #[trigger] final(plane)@[i] == negated(old(plane)@[i]),
{
    let n = plane.len();
    let mut i: usize = 0;
    while i < n
        invariant
            i <= n,
            n == old(plane)@.len(),
            plane@.len() == n,
            forall|k: int| 0 <= k < i ==> #[trigger] plane@[k] == negated(old(plane)@[k]),
            forall|k: int| i <= k < n ==> #[trigger] plane@[k] == old(plane)@[k],
        decreases n - i,
    {
        let v = plane[i];
        plane.set(i, v ^ 0x8000_0000u32);
        i = i + 1;
    }
}

/// Negates the chroma planes `a` and `b`, leaving the size and `l` as they
/// are: the chroma half of colour inversion (a' = -a, b' = -b).
pub fn negate_chroma(planes: &mut OklabPlanes)
    ensures
        final(planes).width == old(planes).width,
        final(planes).height == old(planes).height,
        final(planes).l@ == old(planes).l@,
        final(planes).a@.len() == old(planes).a@.len(),
        final(planes).b@.len() == old(planes).b@.len(),
        forall|i: int| 0 <= i < final(planes).a@.len() ==> #[trigger] final(planes).a@[i] == negated(old(planes).a@[i]),
        forall|i: int| 0 <= i < final(planes).b@.len() ==> #[trigger] final(planes).b@[i] == negated(old(planes).b@[i]),
{
    negate_samples(&mut planes.a);
    negate_samples(&mut planes.b);
}

} // verus!
