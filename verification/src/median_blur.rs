//! Median filter for salt-and-pepper noise removal.
use vstd::prelude::*;
use vstd::arithmetic::div_mod::lemma_fundamental_div_mod_converse;

use crate::filter::{ChannelAccess, Filter, FilterContext};
use crate::planes::{OklabPlanes, lemma_index_in_bounds, sample_key, sample_order};

verus! {

broadcast use vstd::seq_lib::group_to_multiset_ensures;

/// Median filter for salt-and-pepper noise removal.
///
/// Replaces each pixel with the median of its neighborhood. Unlike Gaussian
/// blur, the median filter preserves edges while removing impulse noise.
/// L-only mode removes luminance noise without affecting color; all-channel
/// mode handles chroma noise too.
#[derive(Clone, Debug)]
pub struct MedianBlur {
    /// Neighborhood radius in pixels. Kernel size = 2*radius + 1.
    pub radius: u32,
    /// Whether to filter chroma (a, b) channels in addition to L.
    pub filter_chroma: bool,
}

impl Default for MedianBlur {
    fn default() -> (m: Self)
        ensures
            m.radius == 1,
            !m.filter_chroma,
    {
        MedianBlur { radius: 1, filter_chroma: false }
    }
}

// =========================================================================
// Specification
// =========================================================================

/// The source row or column that offset `v` (center plus kernel offset,
/// before subtracting the radius) reads, with edge replication.
pub open spec fn clamp_coord(v: int, r: int, n: int) -> int {
    let s = if v - r < 0 {
        0
    } else {
        v - r
    };
    if s > n - 1 {
        n - 1
    } else {
        s
    }
}

/// The sample at kernel position `(kx, ky)` of the window around `(x, y)`.
pub open spec fn window_sample(
    src: Seq<u32>,
    w: int,
    h: int,
    r: int,
    x: int,
    y: int,
    ky: int,
    kx: int,
) -> u32 {
    src[clamp_coord(y + ky, r, h) * w + clamp_coord(x + kx, r, w)]
}

/// The (2r+1)×(2r+1) window around `(x, y)`, row by row.
pub open spec fn window(src: Seq<u32>, w: int, h: int, r: int, x: int, y: int) -> Seq<u32> {
    let d = 2 * r + 1;
    Seq::new((d * d) as nat, |k: int| window_sample(src, w, h, r, x, y, k / d, k % d))
}

/// Samples in non-decreasing sample order.
pub open spec fn sorted_by_key(t: Seq<u32>) -> bool {
    forall|i: int, j: int| 0 <= i <= j < t.len() ==> sample_key(t[i]) <= sample_key(t[j])
}

/// `m` is the sample at position `len / 2` once `s` is sorted by sample
/// order.
pub open spec fn is_median(m: u32, s: Seq<u32>) -> bool {
    exists|t: Seq<u32>|
        {
            &&& t.to_multiset() == s.to_multiset()
            &&& #[trigger] sorted_by_key(t)
            &&& t.len() == s.len()
            &&& m == t[s.len() as int / 2]
        }
}

/// `dst` is the median-filtered plane of `src` with radius `r`.
pub open spec fn median_filtered(dst: Seq<u32>, src: Seq<u32>, w: int, h: int, r: int) -> bool {
    &&& dst.len() == src.len()
    &&& forall|x: int, y: int|
        0 <= x < w && 0 <= y < h ==> is_median(
            #[trigger] dst[y * w + x],
            window(src, w, h, r, x, y),
        )
}

/// Sizes for which the filter's index arithmetic fits in `usize`.
pub open spec fn fits_kernel(w: int, h: int, r: int) -> bool {
    &&& (2 * r + 1) * (2 * r + 1) <= usize::MAX
    &&& w + 2 * r + 1 <= usize::MAX
    &&& h + 2 * r + 1 <= usize::MAX
}

// =========================================================================
// Laws
// =========================================================================

/// The row or column `t` moved to the nearest one inside `0..n`.
pub open spec fn nearest_inside(t: int, n: int) -> int {
    if t < 0 {
        0
    } else if t > n - 1 {
        n - 1
    } else {
        t
    }
}

/// The window around `(x, y)` is centred on the pixel: its entry in row `i`
/// and column `j` (both counted from 0 up to `2r`) is the sample at row
/// `y - r + i` and column `x - r + j`, each moved to the nearest edge when
/// it falls outside the image. Away from the edges, the window is the
/// square of pixels from `(x - r, y - r)` to `(x + r, y + r)` itself.
pub proof fn law_window_is_centred(
    src: Seq<u32>,
    w: int,
    h: int,
    r: int,
    x: int,
    y: int,
    i: int,
    j: int,
)
    requires
        0 <= x < w,
        0 <= y < h,
        0 <= r,
        0 <= i <= 2 * r,
        0 <= j <= 2 * r,
    ensures
        window(src, w, h, r, x, y).len() == (2 * r + 1) * (2 * r + 1),
        window(src, w, h, r, x, y)[i * (2 * r + 1) + j] == src[nearest_inside(y - r + i, h) * w
            + nearest_inside(x - r + j, w)],
        r <= x < w - r && r <= y < h - r ==> window(src, w, h, r, x, y)[i * (2 * r + 1) + j]
            == src[(y - r + i) * w + (x - r + j)],
{
    let d = 2 * r + 1;
    let k = i * d + j;
    lemma_fundamental_div_mod_converse(k, d, i, j);
    assert(0 <= k < d * d) by (nonlinear_arith)
        requires
            k == i * d + j,
            0 <= i < d,
            0 <= j < d,
    ;
}

/// The samples of the square of side `2r + 1` centred on `(x, y)`, row by
/// row, each pixel outside the image replaced by the nearest edge pixel.
pub open spec fn neighbourhood(src: Seq<u32>, w: int, h: int, r: int, x: int, y: int) -> Seq<u32> {
    let d = 2 * r + 1;
    Seq::new(
        (d * d) as nat,
        |k: int| src[nearest_inside(y - r + k / d, h) * w + nearest_inside(x - r + k % d, w)],
    )
}

/// A median-filtered plane holds, at every pixel, the median of the
/// edge-replicated square of side `2r + 1` centred on that pixel.
pub proof fn law_median_of_centred_square(
    dst: Seq<u32>,
    src: Seq<u32>,
    w: int,
    h: int,
    r: int,
    x: int,
    y: int,
)
    requires
        median_filtered(dst, src, w, h, r),
        0 <= x < w,
        0 <= y < h,
        0 <= r,
    ensures
        is_median(dst[y * w + x], neighbourhood(src, w, h, r, x, y)),
{
    let d = 2 * r + 1;
    let win = window(src, w, h, r, x, y);
    let nb = neighbourhood(src, w, h, r, x, y);
    assert forall|k: int| 0 <= k < nb.len() implies win[k] == nb[k] by {
        let i = k / d;
        let j = k % d;
        assert(0 <= i < d && 0 <= j < d && k == i * d + j) by (nonlinear_arith)
            requires
                0 <= k < d * d,
                d > 0,
                i == k / d,
                j == k % d,
        ;
        law_window_is_centred(src, w, h, r, x, y, i, j);
    }
    law_window_is_centred(src, w, h, r, x, y, 0, 0);
    assert(win =~= nb);
    assert(is_median(dst[y * w + x], win));
}

/// The median of a window is one of its samples.
pub proof fn law_median_is_window_sample(m: u32, s: Seq<u32>)
    requires
        is_median(m, s),
        s.len() > 0,
    ensures
        s.contains(m),
{
    let t = choose|t: Seq<u32>|
        {
            &&& t.to_multiset() == s.to_multiset()
            &&& #[trigger] sorted_by_key(t)
            &&& t.len() == s.len()
            &&& m == t[s.len() as int / 2]
        };
    assert(t.contains(t[s.len() as int / 2]));
    assert(t.to_multiset().count(m) > 0);
}

/// The median of a window whose samples all equal `c` is `c`.
pub proof fn law_constant_window(m: u32, s: Seq<u32>, c: u32)
    requires
        is_median(m, s),
        s.len() > 0,
        forall|i: int| 0 <= i < s.len() ==> #[trigger] s[i] == c,
    ensures
        m == c,
{
    law_median_is_window_sample(m, s);
}

/// Median filtering a plane whose samples all equal `c` gives a plane whose
/// samples all equal `c`, whatever the radius.
pub proof fn law_constant_plane_stays_constant(
    dst: Seq<u32>,
    src: Seq<u32>,
    w: int,
    h: int,
    r: int,
    c: u32,
)
    requires
        src.len() == w * h,
        r >= 0,
        median_filtered(dst, src, w, h, r),
        forall|i: int| 0 <= i < src.len() ==> #[trigger] src[i] == c,
    ensures
        forall|x: int, y: int| 0 <= x < w && 0 <= y < h ==> #[trigger] dst[y * w + x] == c,
{
    assert forall|x: int, y: int| 0 <= x < w && 0 <= y < h implies #[trigger] dst[y * w + x]
        == c by {
        let s = window(src, w, h, r, x, y);
        let d = 2 * r + 1;
        assert(d * d >= 1) by (nonlinear_arith)
            requires
                d >= 1,
        ;
        assert forall|k: int| 0 <= k < s.len() implies #[trigger] s[k] == c by {
            lemma_window_sample_in_plane(w, h, r, x, y, k / d, k % d);
            assert(0 <= k % d < d) by {
                vstd::arithmetic::div_mod::lemma_mod_bound(k, d);
            }
            assert(0 <= k / d) by {
                vstd::arithmetic::div_mod::lemma_div_pos_is_pos(k, d);
            }
        }
        law_constant_window(dst[y * w + x], s, c);
    }
}

/// Number of samples of `t` equal to `c`.
pub open spec fn occurrences(t: Seq<u32>, c: u32) -> int
    decreases t.len(),
{
    if t.len() == 0 {
        0
    } else {
        occurrences(t.drop_last(), c) + if t.last() == c {
            1int
        } else {
            0int
        }
    }
}

proof fn lemma_occurrences_multiset(t: Seq<u32>, c: u32)
    ensures
        t.to_multiset().count(c) == occurrences(t, c),
    decreases t.len(),
{
    broadcast use vstd::multiset::group_multiset_axioms;

    if t.len() > 0 {
        lemma_occurrences_multiset(t.drop_last(), c);
        assert(t == t.drop_last().push(t.last()));
    }
}

proof fn lemma_occurrences_step(t: Seq<u32>, c: u32, j: int)
    requires
        0 <= j < t.len(),
    ensures
        occurrences(t.take(j + 1), c) == occurrences(t.take(j), c) + if t[j] == c {
            1int
        } else {
            0int
        },
{
    assert(t.take(j + 1).drop_last() =~= t.take(j));
}

/// Between prefixes of lengths `j <= k`, at most `k - j` more samples equal
/// `c`, and none more when no sample in between equals `c`.
proof fn lemma_occurrences_range(t: Seq<u32>, c: u32, j: int, k: int)
    requires
        0 <= j <= k <= t.len(),
    ensures
        occurrences(t.take(j), c) <= occurrences(t.take(k), c) <= occurrences(t.take(j), c) + (k
            - j),
        (forall|q: int| j <= q < k ==> t[q] != c) ==> occurrences(t.take(k), c) == occurrences(
            t.take(j),
            c,
        ),
    decreases k - j,
{
    if j < k {
        lemma_occurrences_range(t, c, j, k - 1);
        lemma_occurrences_step(t, c, k - 1);
    }
}

/// The median of a window in which more than half of the samples equal `c`
/// is `c`: an isolated outlier among equal neighbors is removed.
pub proof fn law_majority_is_median(m: u32, s: Seq<u32>, c: u32)
    requires
        is_median(m, s),
        2 * s.to_multiset().count(c) > s.len(),
    ensures
        m == c,
{
    let t = choose|t: Seq<u32>|
        {
            &&& t.to_multiset() == s.to_multiset()
            &&& #[trigger] sorted_by_key(t)
            &&& t.len() == s.len()
            &&& m == t[s.len() as int / 2]
        };
    let n = t.len() as int;
    let mid = n / 2;
    lemma_occurrences_multiset(t, c);
    assert(t.take(n) =~= t);
    assert(t.take(0) =~= Seq::<u32>::empty());
    if m != c {
        if sample_key(m) < sample_key(c) {
            assert forall|q: int| 0 <= q < mid + 1 implies t[q] != c by {
                assert(sample_key(t[q]) <= sample_key(t[mid]));
            }
            lemma_occurrences_range(t, c, 0, mid + 1);
            lemma_occurrences_range(t, c, mid + 1, n);
        } else {
            assert(sample_key(m) != sample_key(c));
            assert forall|q: int| mid <= q < n implies t[q] != c by {
                assert(sample_key(t[mid]) <= sample_key(t[q]));
            }
            lemma_occurrences_range(t, c, 0, mid);
            lemma_occurrences_range(t, c, mid, n);
        }
    }
}

/// Every window position reads a sample inside the plane.
proof fn lemma_window_sample_in_plane(w: int, h: int, r: int, x: int, y: int, ky: int, kx: int)
    requires
        0 <= x < w,
        0 <= y < h,
        r >= 0,
        ky >= 0,
        kx >= 0,
    ensures
        0 <= clamp_coord(y + ky, r, h) < h,
        0 <= clamp_coord(x + kx, r, w) < w,
        0 <= clamp_coord(y + ky, r, h) * w + clamp_coord(x + kx, r, w) < w * h,
{
    lemma_index_in_bounds(clamp_coord(x + kx, r, w), clamp_coord(y + ky, r, h), w, h);
}

// =========================================================================
// Implementation
// =========================================================================

/// The median sample of a non-empty window: the sample at position
/// `len / 2` once the window is sorted by sample order.
fn median_of(win: &Vec<u32>) -> (m: u32)
    requires
        win@.len() > 0,
    ensures
        is_median(m, win@),
{
    let n = win.len();
    let mut sorted: Vec<u32> = Vec::with_capacity(n);
    let mut i: usize = 0;
    while i < n
        invariant
            i <= n,
            n == win@.len(),
            sorted@.len() == i,
            sorted_by_key(sorted@),
            sorted@.to_multiset() == win@.take(i as int).to_multiset(),
        decreases n - i,
    {
        let x = win[i];
        let kx = sample_order(x);
        let mut p: usize = 0;
        while p < sorted.len() && sample_order(sorted[p]) <= kx
            invariant
                p <= sorted@.len(),
                kx == sample_key(x),
                sorted_by_key(sorted@),
                forall|q: int| 0 <= q < p ==> sample_key(#[trigger] sorted@[q]) <= sample_key(x),
            decreases sorted@.len() - p,
        {
            p = p + 1;
        }
        let ghost old_sorted = sorted@;
        assert(forall|q: int| p <= q < old_sorted.len() ==> sample_key(x) < sample_key(
            #[trigger] old_sorted[q],
        )) by {
            if p < old_sorted.len() {
                assert forall|q: int| p <= q < old_sorted.len() implies sample_key(x) < sample_key(
                    #[trigger] old_sorted[q],
                ) by {
                    assert(sample_key(old_sorted[p as int]) <= sample_key(old_sorted[q]));
                }
            }
        }
        sorted.insert(p, x);
        proof {
            let s = sorted@;
            assert(s == old_sorted.insert(p as int, x));
            assert forall|a: int, b: int| 0 <= a <= b < s.len() implies sample_key(s[a])
                <= sample_key(s[b]) by {
                if a < p && b < p {
                    assert(s[a] == old_sorted[a] && s[b] == old_sorted[b]);
                } else if a < p && b == p {
                    assert(s[a] == old_sorted[a]);
                } else if a < p {
                    assert(s[a] == old_sorted[a] && s[b] == old_sorted[b - 1]);
                } else if a == p && b == p {
                } else if a == p {
                    assert(s[b] == old_sorted[b - 1]);
                } else {
                    assert(s[a] == old_sorted[a - 1] && s[b] == old_sorted[b - 1]);
                }
            }
            assert(win@.take(i + 1) == win@.take(i as int).push(x));
        }
        i = i + 1;
    }
    proof {
        assert(win@.take(n as int) =~= win@);
        assert(sorted_by_key(sorted@));
    }
    sorted[n / 2]
}

/// Gathers the (2r+1)×(2r+1) window around `(x, y)` with edge replication.
fn gather_window(src: &Vec<u32>, w: usize, h: usize, r: usize, x: usize, y: usize) -> (win: Vec<
    u32,
>)
    requires
        src@.len() == w * h,
        x < w,
        y < h,
        fits_kernel(w as int, h as int, r as int),
    ensures
        win@ == window(src@, w as int, h as int, r as int, x as int, y as int),
{
    let total = src.len();
    let d = 2 * r + 1;
    let mut win: Vec<u32> = Vec::with_capacity(d * d);
    let mut ky: usize = 0;
    while ky < d
        invariant
            ky <= d,
            d == 2 * r + 1,
            src@.len() == w * h,
            total == w * h,
            x < w,
            y < h,
            fits_kernel(w as int, h as int, r as int),
            win@.len() == ky * d,
            forall|k: int|
                0 <= k < win@.len() ==> #[trigger] win@[k] == window_sample(
                    src@,
                    w as int,
                    h as int,
                    r as int,
                    x as int,
                    y as int,
                    k / (d as int),
                    k % (d as int),
                ),
        decreases d - ky,
    {
        let mut kx: usize = 0;
        while kx < d
            invariant
                ky < d,
                kx <= d,
                d == 2 * r + 1,
                src@.len() == w * h,
                total == w * h,
                x < w,
                y < h,
                fits_kernel(w as int, h as int, r as int),
                win@.len() == ky * d + kx,
                forall|k: int|
                    0 <= k < win@.len() ==> #[trigger] win@[k] == window_sample(
                        src@,
                        w as int,
                        h as int,
                        r as int,
                        x as int,
                        y as int,
                        k / (d as int),
                        k % (d as int),
                    ),
            decreases d - kx,
        {
            let ty = y + ky;
            let sy0 = if ty >= r {
                ty - r
            } else {
                0
            };
            let sy = if sy0 > h - 1 {
                h - 1
            } else {
                sy0
            };
            let tx = x + kx;
            let sx0 = if tx >= r {
                tx - r
            } else {
                0
            };
            let sx = if sx0 > w - 1 {
                w - 1
            } else {
                sx0
            };
            proof {
                lemma_window_sample_in_plane(
                    w as int,
                    h as int,
                    r as int,
                    x as int,
                    y as int,
                    ky as int,
                    kx as int,
                );
                lemma_fundamental_div_mod_converse(
                    (ky * d + kx) as int,
                    d as int,
                    ky as int,
                    kx as int,
                );
            }
            let v = src[sy * w + sx];
            win.push(v);
            kx = kx + 1;
        }
        assert((ky + 1) * d == ky * d + d) by (nonlinear_arith);
        ky = ky + 1;
    }
    assert(win@ =~= window(src@, w as int, h as int, r as int, x as int, y as int));
    win
}

/// Apply the median filter to a single plane with edge replication.
pub fn median_filter_plane(src: &Vec<u32>, dst: &mut Vec<u32>, w: usize, h: usize, r: usize)
    requires
        src@.len() == w * h,
        old(dst)@.len() == 0,
        fits_kernel(w as int, h as int, r as int),
    ensures
        median_filtered(final(dst)@, src@, w as int, h as int, r as int),
{
    let mut y: usize = 0;
    while y < h
        invariant
            y <= h,
            src@.len() == w * h,
            fits_kernel(w as int, h as int, r as int),
            dst@.len() == y * w,
            forall|xx: int, yy: int|
                0 <= xx < w && 0 <= yy < y ==> is_median(
                    #[trigger] dst@[yy * w + xx],
                    window(src@, w as int, h as int, r as int, xx, yy),
                ),
        decreases h - y,
    {
        let mut x: usize = 0;
        while x < w
            invariant
                y < h,
                x <= w,
                src@.len() == w * h,
                fits_kernel(w as int, h as int, r as int),
                dst@.len() == y * w + x,
                forall|xx: int, yy: int|
                    0 <= xx < w && 0 <= yy < y ==> is_median(
                        #[trigger] dst@[yy * w + xx],
                        window(src@, w as int, h as int, r as int, xx, yy),
                    ),
                forall|xx: int|
                    0 <= xx < x ==> is_median(
                        #[trigger] dst@[y * w + xx],
                        window(src@, w as int, h as int, r as int, xx, y as int),
                    ),
            decreases w - x,
        {
            let win = gather_window(src, w, h, r, x, y);
            let d = 2 * r + 1;
            assert((d as int) * (d as int) >= 1) by (nonlinear_arith)
                requires
                    d >= 1,
            ;
            let m = median_of(&win);
            let ghost before = dst@;
            dst.push(m);
            proof {
                assert forall|xx: int, yy: int|
                    0 <= xx < w && 0 <= yy < y implies is_median(
                    #[trigger] dst@[yy * w + xx],
                    window(src@, w as int, h as int, r as int, xx, yy),
                ) by {
                    lemma_index_in_bounds(xx, yy, w as int, y as int);
                    assert(dst@[yy * w + xx] == before[yy * w + xx]);
                }
                assert forall|xx: int| 0 <= xx < x + 1 implies is_median(
                    #[trigger] dst@[y * w + xx],
                    window(src@, w as int, h as int, r as int, xx, y as int),
                ) by {
                    if xx < x {
                        assert(dst@[y * w + xx] == before[y * w + xx]);
                    }
                }
            }
            x = x + 1;
        }
        assert((y + 1) * w == y * w + w) by (nonlinear_arith);
        y = y + 1;
    }
    proof {
        assert((h as int) * (w as int) == (w as int) * (h as int)) by (nonlinear_arith);
    }
}

/// Replaces `plane` by its median-filtered version, handing the old buffer
/// back to the context.
fn filter_plane(plane: &mut Vec<u32>, w: usize, h: usize, r: usize, ctx: &mut FilterContext)
    requires
        old(plane)@.len() == w * h,
        fits_kernel(w as int, h as int, r as int),
    ensures
        median_filtered(final(plane)@, old(plane)@, w as int, h as int, r as int),
{
    let mut dst = ctx.take_buffer();
    median_filter_plane(plane, &mut dst, w, h, r);
    std::mem::swap(plane, &mut dst);
    ctx.return_buffer(dst);
}

impl Filter for MedianBlur {
    open spec fn supports(&self, width: u32, height: u32) -> bool {
        self.radius == 0 || fits_kernel(width as int, height as int, self.radius as int)
    }

    fn channel_access(&self) -> (c: ChannelAccess)
        ensures
            c == if self.filter_chroma {
                ChannelAccess::LAndChroma
            } else {
                ChannelAccess::LOnly
            },
    {
        if self.filter_chroma {
            ChannelAccess::LAndChroma
        } else {
            ChannelAccess::LOnly
        }
    }

    fn is_neighborhood(&self) -> (b: bool)
        ensures
            b,
    {
        true
    }

    fn neighborhood_radius(&self, _width: u32, _height: u32) -> (r: u32)
        ensures
            r == self.radius,
    {
        self.radius
    }

    /// Replaces each sample of L (and of a and b when `filter_chroma` is set)
    /// by the median of its (2r+1)×(2r+1) neighborhood, replicating edge
    /// pixels. A radius of 0 leaves the planes unchanged.
    fn apply(&self, planes: &mut OklabPlanes, ctx: &mut FilterContext)
        ensures
            self.radius == 0 ==> final(planes).l@ == old(planes).l@ && final(planes).a@ == old(
                planes,
            ).a@ && final(planes).b@ == old(planes).b@,
            self.radius > 0 ==> median_filtered(
                final(planes).l@,
                old(planes).l@,
                old(planes).width as int,
                old(planes).height as int,
                self.radius as int,
            ),
            self.radius > 0 && self.filter_chroma ==> median_filtered(
                final(planes).a@,
                old(planes).a@,
                old(planes).width as int,
                old(planes).height as int,
                self.radius as int,
            ) && median_filtered(
                final(planes).b@,
                old(planes).b@,
                old(planes).width as int,
                old(planes).height as int,
                self.radius as int,
            ),
            !self.filter_chroma ==> final(planes).a@ == old(planes).a@ && final(planes).b@ == old(
                planes,
            ).b@,
    {
        if self.radius == 0 {
            return;
        }
        let w = planes.width as usize;
        let h = planes.height as usize;
        let r = self.radius as usize;
        filter_plane(&mut planes.l, w, h, r, ctx);
        if self.filter_chroma {
            filter_plane(&mut planes.a, w, h, r, ctx);
            filter_plane(&mut planes.b, w, h, r, ctx);
        }
    }
}

} // verus!
