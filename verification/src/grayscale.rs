//! Grayscale by zeroing chroma.
use vstd::prelude::*;

use crate::filter::{ChannelAccess, Filter, FilterContext};
use crate::planes::{OklabPlanes, ZERO_SAMPLE};

verus! {

/// Convert to grayscale by zeroing the chroma (a, b) channels.
///
/// In Oklab, grayscale means a=0, b=0: the color is on the neutral axis.
/// The perceived luminance is already encoded in the L channel, so there is
/// no information loss.
#[derive(Clone, Debug, Default)]
pub struct Grayscale;

/// Sets every sample of a plane to `+0.0`.
fn zero_fill(plane: &mut Vec<u32>)
    ensures
        final(plane)@.len() == old(plane)@.len(),
        forall|i: int| 0 <= i < final(plane)@.len() ==> #[trigger] final(plane)@[i] == ZERO_SAMPLE,
{
    let n = plane.len();
    let mut i: usize = 0;
    while i < n
        invariant
            i <= n,
            plane@.len() == n,
            forall|k: int| 0 <= k < i ==> #[trigger] plane@[k] == ZERO_SAMPLE,
        decreases n - i,
    {
        plane.set(i, ZERO_SAMPLE);
        i = i + 1;
    }
}

impl Filter for Grayscale {
    fn channel_access(&self) -> (c: ChannelAccess)
        ensures
            c == ChannelAccess::ChromaOnly,
    {
        ChannelAccess::ChromaOnly
    }

    fn apply(&self, planes: &mut OklabPlanes, _ctx: &mut FilterContext)
        ensures
            final(planes).l@ == old(planes).l@,
            final(planes).a@.len() == old(planes).a@.len(),
            final(planes).b@.len() == old(planes).b@.len(),
            forall|i: int| 0 <= i < final(planes).a@.len() ==> #[trigger] final(planes).a@[i] == ZERO_SAMPLE,
            forall|i: int| 0 <= i < final(planes).b@.len() ==> #[trigger] final(planes).b@[i] == ZERO_SAMPLE,
    {
        zero_fill(&mut planes.a);
        zero_fill(&mut planes.b);
    }
}

} // verus!
