use pulseplot::{downsample, value_bounds, DownsampleError, Sample};

fn series(points: &[(u64, u64)]) -> Vec<Sample> {
    points.iter().map(|&(t, v)| Sample::new(t, v)).collect()
}

#[test]
fn length_is_min_of_len_and_target() {
    let s = series(&[(0, 1), (1, 4), (2, 2), (3, 9), (4, 3), (5, 5), (6, 0)]);
    for k in 2..10usize {
        let out = downsample(&s, k).unwrap();
        assert_eq!(out.len(), s.len().min(k));
    }
}

#[test]
fn endpoints_are_kept() {
    let s = series(&[(0, 1), (10, 4), (20, 2), (30, 9), (40, 3), (50, 5), (60, 7)]);
    let out = downsample(&s, 4).unwrap();
    assert_eq!(out.first(), s.first());
    assert_eq!(out.last(), s.last());
}

#[test]
fn identity_when_series_fits() {
    let s = series(&[(0, 1), (1, 4), (2, 2), (3, 9)]);
    assert_eq!(downsample(&s, 4).unwrap(), s);
    assert_eq!(downsample(&s, 100).unwrap(), s);
}

#[test]
fn deterministic_on_identical_input() {
    let s = series(&[(0, 0), (1, 7), (2, 7), (3, 1), (4, 7), (5, 7), (6, 0)]);
    let a = downsample(&s, 4).unwrap();
    let b = downsample(&s, 4).unwrap();
    assert_eq!(a, b);
}

#[test]
fn target_below_two_is_invalid_argument() {
    let s = series(&[(0, 1), (1, 2), (2, 3)]);
    assert_eq!(downsample(&s, 0), Err(DownsampleError::InvalidArgument));
    assert_eq!(downsample(&s, 1), Err(DownsampleError::InvalidArgument));
}

#[test]
fn target_two_keeps_only_endpoints() {
    let s = series(&[(0, 1), (1, 100), (2, 50), (3, 2)]);
    let out = downsample(&s, 2).unwrap();
    assert_eq!(out, series(&[(0, 1), (3, 2)]));
}

#[test]
fn largest_triangle_point_is_selected() {
    // One interior bucket; the centroid is the last sample (3 time units to
    // the right on the time axis, value 0), the previous point is the first
    // sample (value 0). The candidate's triangle area grows with its value,
    // so the peak at value 10 must be kept.
    let s = series(&[(0, 0), (1, 10), (2, 0), (3, 5), (4, 0)]);
    let out = downsample(&s, 3).unwrap();
    assert_eq!(out, series(&[(0, 0), (1, 10), (4, 0)]));
}

#[test]
fn exact_tie_selects_earliest_candidate() {
    // Both interior candidates form triangles of exactly equal area; the
    // earlier one in scan order must win.
    let s = series(&[(0, 0), (1, 7), (2, 7), (3, 0)]);
    let out = downsample(&s, 3).unwrap();
    assert_eq!(out, series(&[(0, 0), (1, 7), (3, 0)]));
}

#[test]
fn centroid_of_next_bucket_guides_selection() {
    // Two uneven interior buckets: {1, 2} and {3, 4, 5}. For the first
    // bucket the centroid averages the three samples of the second; for
    // the second bucket the centroid is the final sample. Working the
    // areas out by hand picks index 2 and then index 5.
    let s = series(&[(0, 0), (1, 10), (2, 20), (3, 0), (4, 40), (5, 0), (6, 30)]);
    let out = downsample(&s, 4).unwrap();
    assert_eq!(out, series(&[(0, 0), (2, 20), (5, 0), (6, 30)]));
}

#[test]
fn empty_series_stays_empty() {
    let s: Vec<Sample> = Vec::new();
    assert_eq!(downsample(&s, 5).unwrap(), s);
}

#[test]
fn equal_timestamps_are_accepted() {
    let s = series(&[(5, 1), (5, 9), (5, 2), (6, 4), (6, 8), (7, 0)]);
    let out = downsample(&s, 4).unwrap();
    assert_eq!(out.len(), 4);
    assert_eq!(out.first(), s.first());
    assert_eq!(out.last(), s.last());
}

#[test]
fn five_thousand_samples_to_one_thousand_points() {
    // End to end: a store-sized series with strictly ascending timestamps.
    let mut s: Vec<Sample> = Vec::new();
    for i in 0..5000u64 {
        s.push(Sample::new(1_700_000_000_000 + i * 20, (i * 37) % 1000));
    }
    let out = downsample(&s, 1000).unwrap();
    assert_eq!(out.len(), 1000);
    assert_eq!(out.first(), s.first());
    assert_eq!(out.last(), s.last());
    for w in out.windows(2) {
        assert!(w[0].timestamp_ms < w[1].timestamp_ms);
    }
}

#[test]
fn value_bounds_cover_the_series() {
    let s = series(&[(0, 40), (1, 7), (2, 99), (3, 23)]);
    assert_eq!(value_bounds(&s), (7, 99));
    let one = series(&[(0, 5)]);
    assert_eq!(value_bounds(&one), (5, 5));
}
