use zenfilters::auto_levels::{median_bin, percentile_bins, plateau_bins, HIST_BINS};

fn hist(entries: &[(usize, u32)]) -> [u32; 64] {
    let mut h = [0u32; 64];
    for &(i, c) in entries {
        h[i] = c;
    }
    h
}

#[test]
fn plateau_skips_isolated_outliers() {
    // One hot pixel at each end, real content in bins 10..=50.
    let mut h = hist(&[(0, 1), (63, 1)]);
    for c in h.iter_mut().take(51).skip(10) {
        *c = 100;
    }
    assert_eq!(plateau_bins(&h, 20), Some((10, 50)));
    assert_eq!(plateau_bins(&h, 1), Some((0, 63)));
}

#[test]
fn plateau_without_significant_bins_is_full_range() {
    let h = hist(&[(5, 3), (9, 2)]);
    assert_eq!(plateau_bins(&h, 10), Some((0, HIST_BINS - 1)));
}

#[test]
fn plateau_single_bin_is_none() {
    let h = hist(&[(30, 500), (31, 4)]);
    assert_eq!(plateau_bins(&h, 10), None);
}

#[test]
fn percentile_clips_the_targets() {
    // 10 pixels in each of bins 0..10, nothing else.
    let mut h = [0u32; 64];
    for c in h.iter_mut().take(10) {
        *c = 10;
    }
    // Clip 15 dark pixels: bins 0 (10) and part of 1; the low bin is 1.
    // Clip 25 bright pixels: bins 9, 8 (20) and part of 7; the high bin is 7.
    assert_eq!(percentile_bins(&h, 15, 25), Some((1, 7)));
    // Exactly 10 dark pixels are not more than the target: bin 1 again.
    assert_eq!(percentile_bins(&h, 10, 0), Some((1, 9)));
    assert_eq!(percentile_bins(&h, 0, 0), Some((0, 9)));
    // Targets that meet in the middle give no range.
    assert_eq!(percentile_bins(&h, 60, 45), None);
}

#[test]
fn percentile_beyond_the_total_uses_defaults() {
    let h = hist(&[(20, 5), (40, 5)]);
    // Nothing passes the low target: the low bin stays 0; the high bin is 40.
    assert_eq!(percentile_bins(&h, 100, 4), Some((0, 40)));
    // Nothing passes the high target either: the high bin is the top one.
    assert_eq!(percentile_bins(&h, 100, 100), Some((0, 63)));
}

#[test]
fn median_bins() {
    let h = hist(&[(3, 4), (8, 2), (60, 4)]);
    assert_eq!(median_bin(&h, 5), 8);
    assert_eq!(median_bin(&h, 4), 3);
    assert_eq!(median_bin(&h, 0), 0);
    assert_eq!(median_bin(&h, 11), 32);
}

#[test]
fn full_counts_do_not_overflow() {
    let h = [u32::MAX; 64];
    assert_eq!(percentile_bins(&h, u32::MAX, u32::MAX), Some((1, 62)));
    assert_eq!(median_bin(&h, u32::MAX), 0);
}
