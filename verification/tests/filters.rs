use zenfilters::filter::{ChannelAccess, Filter, FilterContext};
use zenfilters::grayscale::Grayscale;
use zenfilters::invert::{negate_chroma, negate_samples};
use zenfilters::median_blur::MedianBlur;
use zenfilters::planes::{sample_order, OklabPlanes, ZERO_SAMPLE};

fn f(bits: u32) -> f32 {
    f32::from_bits(bits)
}

// ---------------------------------------------------------------------
// Grayscale
// ---------------------------------------------------------------------

#[test]
fn zeros_chroma() {
    let mut planes = OklabPlanes::new(8, 8);
    for (i, v) in planes.a.iter_mut().enumerate() {
        *v = ((i as f32 - 32.0) * 0.01).to_bits();
    }
    for (i, v) in planes.b.iter_mut().enumerate() {
        *v = ((32.0 - i as f32) * 0.01).to_bits();
    }
    for v in &mut planes.l {
        *v = 0.5f32.to_bits();
    }
    let l_orig = planes.l.clone();

    Grayscale.apply(&mut planes, &mut FilterContext::new());

    for &v in &planes.a {
        assert_eq!(f(v), 0.0);
    }
    for &v in &planes.b {
        assert_eq!(f(v), 0.0);
    }
    assert_eq!(planes.l, l_orig, "L should be unchanged");
}

// ---------------------------------------------------------------------
// Median blur
// ---------------------------------------------------------------------

#[test]
fn zero_radius_is_identity() {
    let mut planes = OklabPlanes::new(16, 16);
    for (i, v) in planes.l.iter_mut().enumerate() {
        *v = (i as f32 / 256.0).to_bits();
    }
    let original = planes.l.clone();
    MedianBlur { radius: 0, filter_chroma: false }.apply(&mut planes, &mut FilterContext::new());
    assert_eq!(planes.l, original);
}

#[test]
fn median_blur_constant_plane_stays_constant() {
    let mut planes = OklabPlanes::new(32, 32);
    planes.l.fill(0.42f32.to_bits());
    MedianBlur { radius: 2, filter_chroma: false }.apply(&mut planes, &mut FilterContext::new());
    for &v in &planes.l {
        assert!((f(v) - 0.42).abs() < 1e-6, "constant plane should stay constant, got {}", f(v));
    }
}

#[test]
fn removes_salt_and_pepper() {
    let mut planes = OklabPlanes::new(32, 32);
    planes.l.fill(0.5f32.to_bits());
    let salt_idx = planes.index(16, 16);
    planes.l[salt_idx] = 1.0f32.to_bits();
    let pepper_idx = planes.index(10, 10);
    planes.l[pepper_idx] = 0.0f32.to_bits();

    MedianBlur { radius: 1, filter_chroma: false }.apply(&mut planes, &mut FilterContext::new());

    let salt = f(planes.l[salt_idx]);
    let pepper = f(planes.l[pepper_idx]);
    assert!((salt - 0.5).abs() < 1e-6, "salt pixel should be median-filtered to 0.5, got {salt}");
    assert!(
        (pepper - 0.5).abs() < 1e-6,
        "pepper pixel should be median-filtered to 0.5, got {pepper}"
    );
}

#[test]
fn median_blur_preserves_edges() {
    let mut planes = OklabPlanes::new(32, 32);
    for y in 0..32u32 {
        for x in 0..32u32 {
            let i = planes.index(x, y);
            planes.l[i] = if x < 16 { 0.2f32.to_bits() } else { 0.8f32.to_bits() };
        }
    }
    MedianBlur { radius: 1, filter_chroma: false }.apply(&mut planes, &mut FilterContext::new());
    let left = f(planes.l[planes.index(8, 16)]);
    let right = f(planes.l[planes.index(24, 16)]);
    assert!((left - 0.2).abs() < 1e-6, "interior left should be 0.2, got {left}");
    assert!((right - 0.8).abs() < 1e-6, "interior right should be 0.8, got {right}");
}

#[test]
fn filters_chroma_when_enabled() {
    let mut planes = OklabPlanes::new(16, 16);
    planes.a.fill(0.1f32.to_bits());
    let noise_idx = planes.index(8, 8);
    planes.a[noise_idx] = 0.5f32.to_bits();
    MedianBlur { radius: 1, filter_chroma: true }.apply(&mut planes, &mut FilterContext::new());
    let noise_pixel = f(planes.a[noise_idx]);
    assert!(
        (noise_pixel - 0.1).abs() < 1e-6,
        "chroma noise should be filtered, got {noise_pixel}"
    );
}

// ---------------------------------------------------------------------
// Further cases
// ---------------------------------------------------------------------

#[test]
fn filter_descriptions() {
    assert_eq!(Grayscale.channel_access(), ChannelAccess::ChromaOnly);
    assert!(!Grayscale.is_neighborhood());
    assert_eq!(Grayscale.neighborhood_radius(64, 64), 0);
    let m = MedianBlur::default();
    assert_eq!(m.radius, 1);
    assert!(!m.filter_chroma);
    assert_eq!(m.channel_access(), ChannelAccess::LOnly);
    let m = MedianBlur { radius: 4, filter_chroma: true };
    assert_eq!(m.channel_access(), ChannelAccess::LAndChroma);
    assert!(m.is_neighborhood());
    assert_eq!(m.neighborhood_radius(10, 10), 4);
}

#[test]
fn new_planes_are_zero() {
    let planes = OklabPlanes::new(3, 2);
    assert_eq!(planes.pixel_count(), 6);
    assert_eq!(planes.index(2, 1), 5);
    assert!(planes.l.iter().chain(&planes.a).chain(&planes.b).all(|&v| v == ZERO_SAMPLE));
}

#[test]
fn sample_order_follows_values() {
    let values = [f32::NEG_INFINITY, -2.5, -1e-30, -0.0, 0.0, 1e-30, 0.5, 7.0, f32::INFINITY];
    for pair in values.windows(2) {
        assert!(sample_order(pair[0].to_bits()) < sample_order(pair[1].to_bits()));
    }
    assert_eq!(sample_order(0.0f32.to_bits()), 0);
    assert_eq!(sample_order((-0.0f32).to_bits()), -1);
}

#[test]
fn majority_value_wins_the_window() {
    // Five of the nine samples around the center hold 0.3.
    let mut planes = OklabPlanes::new(3, 3);
    let vals = [0.3, 0.9, 0.3, -0.4, 0.3, 0.1, 0.3, 0.7, 0.3f32];
    for (v, x) in planes.l.iter_mut().zip(vals) {
        *v = x.to_bits();
    }
    MedianBlur { radius: 1, filter_chroma: false }.apply(&mut planes, &mut FilterContext::new());
    assert_eq!(f(planes.l[planes.index(1, 1)]), 0.3);
}

#[test]
fn negative_samples_sort_below_positive() {
    let mut planes = OklabPlanes::new(3, 1);
    let vals = [-0.5f32, 0.25, -0.75];
    for (v, x) in planes.l.iter_mut().zip(vals) {
        *v = x.to_bits();
    }
    MedianBlur { radius: 1, filter_chroma: false }.apply(&mut planes, &mut FilterContext::new());
    // Center window with replicated edges: rows are all the same row, so
    // the nine samples are three copies of {-0.5, 0.25, -0.75}.
    assert_eq!(f(planes.l[1]), -0.5);
    // Left edge: columns -1, 0, 1 read -0.5, -0.5, 0.25.
    assert_eq!(f(planes.l[0]), -0.5);
    // Right edge: columns 1, 2, 3 read 0.25, -0.75, -0.75.
    assert_eq!(f(planes.l[2]), -0.75);
}

#[test]
fn constant_plane_with_wide_radius() {
    let mut planes = OklabPlanes::new(5, 4);
    planes.l.fill((-1.25f32).to_bits());
    planes.a.fill(0.125f32.to_bits());
    MedianBlur { radius: 3, filter_chroma: true }.apply(&mut planes, &mut FilterContext::new());
    assert!(planes.l.iter().all(|&v| f(v) == -1.25));
    assert!(planes.a.iter().all(|&v| f(v) == 0.125));
    assert!(planes.b.iter().all(|&v| v == ZERO_SAMPLE));
}

#[test]
fn chroma_untouched_in_l_only_mode() {
    let mut planes = OklabPlanes::new(4, 4);
    for (i, v) in planes.a.iter_mut().enumerate() {
        *v = (i as f32).to_bits();
    }
    let a = planes.a.clone();
    MedianBlur { radius: 1, filter_chroma: false }.apply(&mut planes, &mut FilterContext::new());
    assert_eq!(planes.a, a);
}

#[test]
fn context_recycles_buffers() {
    let mut ctx = FilterContext::new();
    let v = ctx.take_buffer();
    assert!(v.is_empty());
    ctx.return_buffer(vec![1, 2, 3]);
    let w = ctx.take_buffer();
    assert!(w.is_empty());
    assert!(w.capacity() >= 3);
}

#[test]
fn negated_chroma() {
    let mut planes = OklabPlanes::new(4, 4);
    for (i, v) in planes.a.iter_mut().enumerate() {
        *v = ((i as f32 - 8.0) * 0.01).to_bits();
    }
    for (i, v) in planes.b.iter_mut().enumerate() {
        *v = ((8.0 - i as f32) * 0.01).to_bits();
    }
    planes.l.fill(0.3f32.to_bits());
    let (a, b, l) = (planes.a.clone(), planes.b.clone(), planes.l.clone());
    negate_chroma(&mut planes);
    for i in 0..16 {
        assert_eq!(f(planes.a[i]), -f(a[i]));
        assert_eq!(f(planes.b[i]), -f(b[i]));
    }
    assert_eq!(planes.l, l);
    negate_chroma(&mut planes);
    assert_eq!(planes.a, a);
    assert_eq!(planes.b, b);
    let mut v = vec![0.0f32.to_bits(), f32::INFINITY.to_bits(), (-2.5f32).to_bits()];
    negate_samples(&mut v);
    assert_eq!(v, vec![(-0.0f32).to_bits(), f32::NEG_INFINITY.to_bits(), 2.5f32.to_bits()]);
}

#[test]
fn zero_radius_median_on_any_size() {
    let mut planes = OklabPlanes::new(1, 1);
    planes.l[0] = 0.7f32.to_bits();
    MedianBlur { radius: 0, filter_chroma: true }.apply(&mut planes, &mut FilterContext::new());
    assert_eq!(f(planes.l[0]), 0.7);
}
