//! Planar image storage.
//!
//! A sample is held as the IEEE-754 single-precision bit pattern of its
//! value (what `f32::to_bits` gives), so that a sample is found again
//! exactly with `f32::from_bits`. Samples are ordered by [`sample_key`],
//! which follows the numeric order of the values they encode.
use vstd::prelude::*;

verus! {

/// Bit pattern of the sample value `+0.0`.
pub const ZERO_SAMPLE: u32 = 0;

/// Position of a sample bit pattern in the numeric order of single-precision
/// values: non-negative values keep their bit pattern, a negative value of
/// magnitude bits `m` sits at `-m - 1`. On values other than NaN this is the
/// order of the numbers, with `-0.0` placed just below `+0.0`; NaNs sort
/// beyond the infinity of their sign.
pub open spec fn sample_key(bits: u32) -> int {
    if bits >= 0x8000_0000 {
        -((bits - 0x8000_0000) as int) - 1
    } else {
        bits as int
    }
}

/// Different bit patterns have different positions in the sample order.
pub proof fn law_sample_key_injective(a: u32, b: u32)
    ensures
        sample_key(a) == sample_key(b) ==> a == b,
{
}

/// Non-negative samples (sign bit clear) are ordered by their bit patterns;
/// every negative sample (sign bit set) lies below all of them, a larger
/// magnitude lower.
pub proof fn law_sample_order_shape(a: u32, b: u32)
    ensures
        a < 0x8000_0000 ==> sample_key(a) == a,
        a >= 0x8000_0000 ==> sample_key(a) < 0,
        a >= 0x8000_0000 && b >= 0x8000_0000 ==> (sample_key(a) < sample_key(b) <==> a > b),
{
}

/// The position of a sample in the numeric order.
pub fn sample_order(bits: u32) -> (k: i64)
    ensures
        k as int == sample_key(bits),
{
    if bits >= 0x8000_0000 {
        -((bits - 0x8000_0000) as i64) - 1
    } else {
        bits as i64
    }
}

/// Planar Oklab image: lightness `l` and chroma `a`, `b`, one sample per
/// pixel in row-major order.
pub struct OklabPlanes {
    /// Width in pixels.
    pub width: u32,
    /// Height in pixels.
    pub height: u32,
    /// Lightness samples.
    pub l: Vec<u32>,
    /// Green–red chroma samples.
    pub a: Vec<u32>,
    /// Blue–yellow chroma samples.
    pub b: Vec<u32>,
}

impl OklabPlanes {
    /// Each plane holds one sample per pixel.
    pub open spec fn wf(&self) -> bool {
        &&& self.l@.len() == self.width * self.height
        &&& self.a@.len() == self.width * self.height
        &&& self.b@.len() == self.width * self.height
    }

    /// Creates planes of the given size with every sample `+0.0`.
    pub fn new(width: u32, height: u32) -> (p: Self)
        requires
            width * height <= usize::MAX,
        ensures
            p.wf(),
            p.width == width,
            p.height == height,
            forall|i: int| 0 <= i < p.l@.len() ==> #[trigger] p.l@[i] == ZERO_SAMPLE,
            forall|i: int| 0 <= i < p.a@.len() ==> #[trigger] p.a@[i] == ZERO_SAMPLE,
            forall|i: int| 0 <= i < p.b@.len() ==> #[trigger] p.b@[i] == ZERO_SAMPLE,
    {
        let n = (width as usize) * (height as usize);
        let l = zero_plane(n);
        let a = zero_plane(n);
        let b = zero_plane(n);
        OklabPlanes { width, height, l, a, b }
    }

    /// Number of pixels.
    pub fn pixel_count(&self) -> (n: usize)
        requires
            self.wf(),
        ensures
            n == self.width * self.height,
    {
        self.l.len()
    }

    /// Index of pixel `(x, y)` in each plane.
    pub fn index(&self, x: u32, y: u32) -> (i: usize)
        requires
            self.wf(),
            x < self.width,
            y < self.height,
        ensures
            i == y * self.width + x,
            i < self.width * self.height,
    {
        let n = self.l.len();
        proof {
            lemma_index_in_bounds(x as int, y as int, self.width as int, self.height as int);
            assert(n == self.width * self.height);
        }
        (y as usize) * (self.width as usize) + (x as usize)
    }
}

/// A pixel inside the image has its index inside the plane.
pub proof fn lemma_index_in_bounds(x: int, y: int, w: int, h: int)
    requires
        0 <= x < w,
        0 <= y < h,
    ensures
        0 <= y * w + x < w * h,
        y * w + x < h * w,
        y * w + x < (y + 1) * w,
        (y + 1) * w <= w * h,
{
    assert(0 <= y * w) by (nonlinear_arith)
        requires
            0 <= y,
            0 <= w,
    ;
    assert((y + 1) * w <= h * w) by (nonlinear_arith)
        requires
            y + 1 <= h,
            0 <= w,
    ;
    assert((y + 1) * w == y * w + w) by (nonlinear_arith);
    assert(h * w == w * h) by (nonlinear_arith);
}

/// A plane of `n` samples, all `+0.0`.
fn zero_plane(n: usize) -> (v: Vec<u32>)
    ensures
        v@.len() == n,
        forall|i: int| 0 <= i < n ==> #[trigger] v@[i] == ZERO_SAMPLE,
{
    let mut v: Vec<u32> = Vec::with_capacity(n);
    let mut i: usize = 0;
    while i < n
        invariant
            i <= n,
            v@.len() == i,
            forall|k: int| 0 <= k < i ==> #[trigger] v@[k] == ZERO_SAMPLE,
        decreases n - i,
    {
        v.push(ZERO_SAMPLE);
        i = i + 1;
    }
    v
}

} // verus!
