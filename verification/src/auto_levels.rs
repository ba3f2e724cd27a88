//! Range detection on a luminance histogram, for auto levels.
//!
//! The histogram has [`HIST_BINS`] bins over the L range of the image. The
//! stretch range is found either by plateau detection (the first and last
//! bins holding a significant share of pixels) or by percentile clipping
//! (the bins where the running pixel count passes the clip targets).
use vstd::prelude::*;

verus! {

/// Number of histogram bins.
pub const HIST_BINS: usize = 64;

/// Whether a running count `s` has passed `target`: strictly above it, or,
/// when `strict` is false, at least equal to it.
pub open spec fn passes(s: int, target: int, strict: bool) -> bool {
    if strict {
        s > target
    } else {
        s >= target
    }
}

/// Pixels in bins `0..k`.
pub open spec fn sum_upto(h: Seq<u32>, k: int) -> int
    decreases k,
{
    if k <= 0 {
        0
    } else {
        sum_upto(h, k - 1) + h[k - 1]
    }
}

/// Pixels in bins `k..` to the last one.
pub open spec fn sum_from(h: Seq<u32>, k: int) -> int
    decreases h.len() - k,
{
    if k < 0 || k >= h.len() {
        0
    } else {
        h[k] + sum_from(h, k + 1)
    }
}

/// The first bin at or after `i` holding at least `t` pixels, or the number
/// of bins when there is none.
pub open spec fn first_at_least(h: Seq<u32>, t: u32, i: int) -> int
    decreases h.len() - i,
{
    if i < 0 || i >= h.len() {
        h.len() as int
    } else if h[i] >= t {
        i
    } else {
        first_at_least(h, t, i + 1)
    }
}

/// The last bin below `j` holding at least `t` pixels, or -1 when there is
/// none.
pub open spec fn last_at_least(h: Seq<u32>, t: u32, j: int) -> int
    decreases j,
{
    if j <= 0 {
        -1
    } else if h[j - 1] >= t {
        j - 1
    } else {
        last_at_least(h, t, j - 1)
    }
}

/// The first bin at or after `i` where the count of pixels up to and
/// including it passes `target`, or the number of bins when there is none.
pub open spec fn first_passing(h: Seq<u32>, target: int, strict: bool, i: int) -> int
    decreases h.len() - i,
{
    if i < 0 || i >= h.len() {
        h.len() as int
    } else if passes(sum_upto(h, i + 1), target, strict) {
        i
    } else {
        first_passing(h, target, strict, i + 1)
    }
}

/// The last bin below `j` where the count of pixels from it to the top
/// passes `target` strictly, or -1 when there is none.
pub open spec fn last_passing(h: Seq<u32>, target: int, j: int) -> int
    decreases j,
{
    if j <= 0 {
        -1
    } else if sum_from(h, j - 1) > target {
        j - 1
    } else {
        last_passing(h, target, j - 1)
    }
}

/// A range of bins from a low and a high candidate (the defaults standing
/// for "not found"): `None` unless the high bin lies above the low one.
pub open spec fn bin_range(first: int, last: int) -> Option<(usize, usize)> {
    let low = if first < HIST_BINS { first } else { 0 };
    let high = if last >= 0 { last } else { HIST_BINS - 1 };
    if high <= low {
        None
    } else {
        Some((low as usize, high as usize))
    }
}

/// Plateau detection: from the first to the last bin holding at least
/// `threshold` pixels (bin 0 and the top bin when none does).
pub open spec fn spec_plateau_bins(h: Seq<u32>, threshold: u32) -> Option<(usize, usize)> {
    bin_range(first_at_least(h, threshold, 0), last_at_least(h, threshold, HIST_BINS as int))
}

/// Percentile clipping: the low bin is the first where the count from the
/// bottom exceeds `low_target`, the high bin the last where the count from
/// the top exceeds `high_target`.
pub open spec fn spec_percentile_bins(h: Seq<u32>, low_target: u32, high_target: u32) -> Option<
    (usize, usize),
> {
    bin_range(
        first_passing(h, low_target as int, true, 0),
        last_passing(h, high_target as int, HIST_BINS as int),
    )
}

/// The median bin: the first where the count from the bottom reaches
/// `half`, or the middle bin when none does.
pub open spec fn spec_median_bin(h: Seq<u32>, half: u32) -> usize {
    let f = first_passing(h, half as int, false, 0);
    if f < HIST_BINS {
        f as usize
    } else {
        (HIST_BINS / 2) as usize
    }
}

/// The stretch range by plateau detection: the first and last bins that
/// hold at least `threshold` pixels; `None` when the range is a single bin
/// or empty.
pub fn plateau_bins(hist: &[u32; 64], threshold: u32) -> (r: Option<(usize, usize)>)
    ensures
        r == spec_plateau_bins(hist@, threshold),
{
    let mut i: usize = 0;
    while i < HIST_BINS && hist[i] < threshold
        invariant
            i <= HIST_BINS,
            hist@.len() == HIST_BINS,
            first_at_least(hist@, threshold, 0) == first_at_least(hist@, threshold, i as int),
        decreases HIST_BINS - i,
    {
        i += 1;
    }
    let mut j: usize = HIST_BINS;
    while j > 0 && hist[j - 1] < threshold
        invariant
            j <= HIST_BINS,
            hist@.len() == HIST_BINS,
            last_at_least(hist@, threshold, HIST_BINS as int) == last_at_least(
                hist@,
                threshold,
                j as int,
            ),
        decreases j,
    {
        j -= 1;
    }
    let low = if i < HIST_BINS { i } else { 0 };
    let high = if j > 0 { j - 1 } else { HIST_BINS - 1 };
    if high <= low {
        None
    } else {
        Some((low, high))
    }
}

/// The first bin where the count of pixels from the bottom passes `target`
/// (strictly above it when `strict`), or the number of bins when none does.
fn first_passing_bin(hist: &[u32; 64], target: u32, strict: bool) -> (r: usize)
    ensures
        r == first_passing(hist@, target as int, strict, 0),
{
    let mut cumsum: u64 = 0;
    let mut i: usize = 0;
    while i < HIST_BINS
        invariant
            i <= HIST_BINS,
            hist@.len() == HIST_BINS,
            cumsum == sum_upto(hist@, i as int),
            cumsum <= i * 0xffff_ffff,
            first_passing(hist@, target as int, strict, 0) == first_passing(
                hist@,
                target as int,
                strict,
                i as int,
            ),
        decreases HIST_BINS - i,
    {
        cumsum = cumsum + hist[i] as u64;
        let hit = if strict {
            cumsum > target as u64
        } else {
            cumsum >= target as u64
        };
        if hit {
            return i;
        }
        i += 1;
    }
    HIST_BINS
}

/// The last bin where the count of pixels from the top exceeds `target`, or
/// -1 (as `None`) when none does.
fn last_passing_bin(hist: &[u32; 64], target: u32) -> (r: Option<usize>)
    ensures
        match r {
            Some(k) => k as int == last_passing(hist@, target as int, HIST_BINS as int),
            None => last_passing(hist@, target as int, HIST_BINS as int) == -1,
        },
{
    let mut cumsum: u64 = 0;
    let mut j: usize = HIST_BINS;
    while j > 0
        invariant
            j <= HIST_BINS,
            hist@.len() == HIST_BINS,
            cumsum == sum_from(hist@, j as int),
            cumsum <= (HIST_BINS - j) * 0xffff_ffff,
            last_passing(hist@, target as int, HIST_BINS as int) == last_passing(
                hist@,
                target as int,
                j as int,
            ),
        decreases j,
    {
        cumsum = cumsum + hist[j - 1] as u64;
        if cumsum > target as u64 {
            return Some(j - 1);
        }
        j -= 1;
    }
    None
}

/// The stretch range by percentile clipping: the low bin is the first where
/// the pixels counted from the bottom exceed `low_target`, the high bin the
/// last where the pixels counted from the top exceed `high_target`; `None`
/// when the range is a single bin or empty.
pub fn percentile_bins(hist: &[u32; 64], low_target: u32, high_target: u32) -> (r: Option<
    (usize, usize),
>)
    ensures
        r == spec_percentile_bins(hist@, low_target, high_target),
{
    let first = first_passing_bin(hist, low_target, true);
    let low = if first < HIST_BINS { first } else { 0 };
    let high = match last_passing_bin(hist, high_target) {
        Some(k) => k,
        None => HIST_BINS - 1,
    };
    if high <= low {
        None
    } else {
        Some((low, high))
    }
}

/// The median bin: the first where the pixels counted from the bottom
/// reach `half`, or the middle bin when none does.
pub fn median_bin(hist: &[u32; 64], half: u32) -> (m: usize)
    ensures
        m == spec_median_bin(hist@, half),
{
    let f = first_passing_bin(hist, half, false);
    if f < HIST_BINS {
        f
    } else {
        HIST_BINS / 2
    }
}

proof fn lemma_first_at_least(h: Seq<u32>, t: u32, i: int)
    requires
        0 <= i <= h.len(),
    ensures
        i <= first_at_least(h, t, i) <= h.len(),
        first_at_least(h, t, i) < h.len() ==> h[first_at_least(h, t, i)] >= t,
        forall|k: int| i <= k < first_at_least(h, t, i) ==> #[trigger] h[k] < t,
    decreases h.len() - i,
{
    if i < h.len() && h[i] < t {
        lemma_first_at_least(h, t, i + 1);
    }
}

proof fn lemma_last_at_least(h: Seq<u32>, t: u32, j: int)
    requires
        0 <= j <= h.len(),
    ensures
        -1 <= last_at_least(h, t, j) < j,
        last_at_least(h, t, j) >= 0 ==> h[last_at_least(h, t, j)] >= t,
        forall|k: int| last_at_least(h, t, j) < k < j ==> #[trigger] h[k] < t,
    decreases j,
{
    if j > 0 && h[j - 1] < t {
        lemma_last_at_least(h, t, j - 1);
    }
}

proof fn lemma_first_passing(h: Seq<u32>, target: int, strict: bool, i: int)
    requires
        0 <= i <= h.len(),
    ensures
        i <= first_passing(h, target, strict, i) <= h.len(),
        first_passing(h, target, strict, i) < h.len() ==> passes(
            sum_upto(h, first_passing(h, target, strict, i) + 1),
            target,
            strict,
        ),
        forall|k: int|
            i <= k < first_passing(h, target, strict, i) ==> !passes(
                #[trigger] sum_upto(h, k + 1),
                target,
                strict,
            ),
    decreases h.len() - i,
{
    if i < h.len() && !passes(sum_upto(h, i + 1), target, strict) {
        lemma_first_passing(h, target, strict, i + 1);
    }
}

proof fn lemma_last_passing(h: Seq<u32>, target: int, j: int)
    requires
        0 <= j <= h.len(),
    ensures
        -1 <= last_passing(h, target, j) < j,
        last_passing(h, target, j) >= 0 ==> sum_from(h, last_passing(h, target, j)) > target,
        forall|k: int| last_passing(h, target, j) < k < j ==> #[trigger] sum_from(h, k) <= target,
    decreases j,
{
    if j > 0 && sum_from(h, j - 1) <= target {
        lemma_last_passing(h, target, j - 1);
    }
}

/// Plateau detection starts and ends the range on significant bins and
/// leaves out only bins below the threshold; when no bin is significant the
/// whole histogram is the range.
pub proof fn law_plateau_range(h: Seq<u32>, t: u32)
    requires
        h.len() == HIST_BINS,
    ensures
        (exists|k: int| 0 <= k < HIST_BINS && #[trigger] h[k] >= t) ==> (
        spec_plateau_bins(h, t) matches Some((lo, hi)) ==> {
            &&& h[lo as int] >= t
            &&& h[hi as int] >= t
            &&& forall|k: int| 0 <= k < HIST_BINS && (k < lo || k > hi) ==> #[trigger] h[k] < t
        }),
        (forall|k: int| 0 <= k < HIST_BINS ==> #[trigger] h[k] < t) ==> spec_plateau_bins(h, t)
            == Some((0usize, (HIST_BINS - 1) as usize)),
{
    lemma_first_at_least(h, t, 0);
    lemma_last_at_least(h, t, HIST_BINS as int);
    let f = first_at_least(h, t, 0);
    let l = last_at_least(h, t, HIST_BINS as int);
    if exists|k: int| 0 <= k < HIST_BINS && #[trigger] h[k] >= t {
        let k0 = choose|k: int| 0 <= k < HIST_BINS && #[trigger] h[k] >= t;
        assert(f <= k0);
        assert(l >= k0);
    }
    if forall|k: int| 0 <= k < HIST_BINS ==> #[trigger] h[k] < t {
        if f < HIST_BINS {
            assert(h[f] >= t);
        }
        if l >= 0 {
            assert(h[l] >= t);
        }
    }
}

/// Percentile clipping leaves at most `low_target` pixels below the range
/// and at most `high_target` above it, and each bound is the first bin at
/// which the count from its end passes the target, when the histogram holds
/// more pixels than the target.
pub proof fn law_percentile_clip(h: Seq<u32>, low_target: u32, high_target: u32)
    requires
        h.len() == HIST_BINS,
    ensures
        spec_percentile_bins(h, low_target, high_target) matches Some((lo, hi)) ==> {
            &&& sum_upto(h, lo as int) <= low_target
            &&& sum_from(h, hi + 1) <= high_target
            &&& sum_upto(h, HIST_BINS as int) > low_target ==> sum_upto(h, lo + 1) > low_target
            &&& sum_from(h, 0) > high_target ==> sum_from(h, hi as int) > high_target
        },
{
    let lt = low_target as int;
    let ht = high_target as int;
    lemma_first_passing(h, lt, true, 0);
    lemma_last_passing(h, ht, HIST_BINS as int);
    let f = first_passing(h, lt, true, 0);
    let l = last_passing(h, ht, HIST_BINS as int);
    if f > 0 {
        assert(!passes(sum_upto(h, (f - 1) + 1), lt, true));
    }
    if sum_upto(h, HIST_BINS as int) > lt && f == HIST_BINS {
        assert(!passes(sum_upto(h, (HIST_BINS - 1) + 1), lt, true));
    }
    if l + 1 < HIST_BINS {
        assert(sum_from(h, l + 1) <= ht);
    }
    if sum_from(h, 0) > ht && l == -1 {
        assert(sum_from(h, 0) <= ht);
    }
}

/// The histogram has 64 bins; when no count from the bottom exceeds the
/// low target the range starts at bin 0, and when no count from the top
/// exceeds the high target it ends at the top bin.
pub proof fn law_percentile_defaults(h: Seq<u32>, low_target: u32, high_target: u32)
    requires
        h.len() == HIST_BINS,
    ensures
        HIST_BINS == 64,
        match spec_percentile_bins(h, low_target, high_target) {
            Some((lo, hi)) => {
                &&& sum_upto(h, HIST_BINS as int) <= low_target ==> lo == 0
                &&& sum_from(h, 0) <= high_target ==> hi == HIST_BINS - 1
            },
            None => true,
        },
{
    lemma_first_passing(h, low_target as int, true, 0);
    lemma_last_passing(h, high_target as int, HIST_BINS as int);
    let f = first_passing(h, low_target as int, true, 0);
    let l = last_passing(h, high_target as int, HIST_BINS as int);
    if sum_upto(h, HIST_BINS as int) <= low_target && f < HIST_BINS {
        lemma_counts_grow(h, f + 1);
    }
    if sum_from(h, 0) <= high_target && l >= 0 {
        lemma_counts_shrink(h, l);
    }
}

proof fn lemma_counts_grow(h: Seq<u32>, k: int)
    requires
        0 <= k <= h.len(),
    ensures
        sum_upto(h, k) <= sum_upto(h, h.len() as int),
{
    lemma_split(h, k);
    lemma_suffix_nonneg(h, k);
}

proof fn lemma_counts_shrink(h: Seq<u32>, k: int)
    requires
        0 <= k <= h.len(),
    ensures
        sum_from(h, k) <= sum_from(h, 0),
{
    lemma_split(h, k);
    lemma_split(h, 0);
    lemma_prefix_nonneg(h, k);
}

proof fn lemma_suffix_nonneg(h: Seq<u32>, k: int)
    requires
        0 <= k <= h.len(),
    ensures
        sum_from(h, k) >= 0,
    decreases h.len() - k,
{
    if k < h.len() {
        lemma_suffix_nonneg(h, k + 1);
    }
}

proof fn lemma_prefix_nonneg(h: Seq<u32>, k: int)
    requires
        0 <= k <= h.len(),
    ensures
        sum_upto(h, k) >= 0,
    decreases k,
{
    if k > 0 {
        lemma_prefix_nonneg(h, k - 1);
    }
}

/// The median bin is the first at which the count from the bottom reaches
/// `half`, when the histogram holds that many pixels.
pub proof fn law_median_bin(h: Seq<u32>, half: u32)
    requires
        h.len() == HIST_BINS,
        sum_upto(h, HIST_BINS as int) >= half,
    ensures
        sum_upto(h, spec_median_bin(h, half) + 1) >= half,
        spec_median_bin(h, half) == 0 || sum_upto(h, spec_median_bin(h, half) as int) < half,
{
    lemma_first_passing(h, half as int, false, 0);
    let f = first_passing(h, half as int, false, 0);
    if f == HIST_BINS {
        assert(!passes(sum_upto(h, (HIST_BINS - 1) + 1), half as int, false));
    }
    if f > 0 {
        assert(!passes(sum_upto(h, (f - 1) + 1), half as int, false));
    }
}

/// The counts add up: no pixels lie below bin 0, each bin adds its own
/// pixels to the count from the bottom, and the counts from the bottom and
/// from the top split the total at every bin.
pub proof fn law_counts(h: Seq<u32>, k: int)
    requires
        0 <= k < h.len(),
    ensures
        sum_upto(h, 0) == 0,
        sum_upto(h, k + 1) == sum_upto(h, k) + h[k],
        sum_from(h, k) == h[k] + sum_from(h, k + 1),
        sum_from(h, h.len() as int) == 0,
        sum_upto(h, k) + sum_from(h, k) == sum_upto(h, h.len() as int),
{
    lemma_split(h, k);
}

proof fn lemma_split(h: Seq<u32>, k: int)
    requires
        0 <= k <= h.len(),
    ensures
        sum_upto(h, k) + sum_from(h, k) == sum_upto(h, h.len() as int),
    decreases h.len() - k,
{
    if k < h.len() {
        lemma_split(h, k + 1);
    }
}

} // verus!
