//! The filter interface and the scratch context that filters share.
use vstd::prelude::*;

use crate::planes::OklabPlanes;

verus! {

/// Which planes a filter reads and writes.
#[derive(Clone, Copy, Debug, PartialEq, Eq, Structural)]
pub enum ChannelAccess {
    /// Only the lightness plane.
    LOnly,
    /// Only the chroma planes.
    ChromaOnly,
    /// Lightness and chroma planes.
    LAndChroma,
}

/// Scratch buffers that filters hand back and reuse between runs.
pub struct FilterContext {
    spare: Vec<Vec<u32>>,
}

impl FilterContext {
    /// A context with no spare buffers.
    pub fn new() -> (c: Self)
        ensures
            c.spare_count() == 0,
    {
        FilterContext { spare: Vec::new() }
    }

    /// Number of buffers held for reuse.
    pub closed spec fn spare_count(&self) -> nat {
        self.spare@.len()
    }

    /// An empty buffer, reusing a returned allocation when one is held.
    pub fn take_buffer(&mut self) -> (v: Vec<u32>)
        ensures
            v@.len() == 0,
            final(self).spare_count() == if old(self).spare_count() > 0 {
                (old(self).spare_count() - 1) as nat
            } else {
                0
            },
    {
        match self.spare.pop() {
            Some(mut v) => {
                v.clear();
                v
            },
            None => Vec::new(),
        }
    }

    /// Hands a buffer back for later reuse.
    pub fn return_buffer(&mut self, v: Vec<u32>)
        ensures
            final(self).spare_count() == old(self).spare_count() + 1,
    {
        self.spare.push(v);
    }
}

/// A photo filter that operates on planar Oklab data in place.
pub trait Filter {
    /// Whether the filter can run on planes of this size; any size unless
    /// the filter says otherwise.
    open spec fn supports(&self, width: u32, height: u32) -> bool {
        true
    }

    /// Which planes this filter reads and writes.
    fn channel_access(&self) -> ChannelAccess;

    /// Whether this filter reads adjacent pixels.
    fn is_neighborhood(&self) -> (b: bool)
        default_ensures
            !b,
    {
        false
    }

    /// How far, in pixels, this filter reads around each pixel.
    fn neighborhood_radius(&self, width: u32, height: u32) -> (r: u32)
        default_ensures
            r == 0,
    {
        0
    }

    /// Applies the filter in place.
    fn apply(&self, planes: &mut OklabPlanes, ctx: &mut FilterContext)
        requires
            old(planes).wf(),
            self.supports(old(planes).width, old(planes).height),
        ensures
            final(planes).wf(),
            final(planes).width == old(planes).width,
            final(planes).height == old(planes).height,
    ;
}

} // verus!
