use pulseplot::{FrameParser, ParseError, Sample, SeriesStore};

#[test]
fn two_tokens_emit_two_samples_stamped_at_first_digit() {
    let mut p = FrameParser::new();
    assert_eq!(p.feed(b'1', 100), Ok(None));
    assert_eq!(p.feed(b'2', 105), Ok(None));
    assert_eq!(p.feed(b'3', 110), Ok(None));
    assert_eq!(p.feed(b'\r', 115), Ok(Some(Sample::new(100, 123))));
    assert_eq!(p.feed(b'4', 200), Ok(None));
    assert_eq!(p.feed(b'5', 205), Ok(None));
    assert_eq!(p.feed(b'\n', 210), Ok(Some(Sample::new(200, 45))));
}

#[test]
fn idle_bytes_emit_nothing() {
    let mut p = FrameParser::new();
    assert_eq!(p.feed(b'\r', 10), Ok(None));
    assert_eq!(p.feed(b' ', 20), Ok(None));
    assert_eq!(p.feed(b'x', 30), Ok(None));
}

#[test]
fn zero_token_is_a_sample() {
    let mut p = FrameParser::new();
    assert_eq!(p.feed(b'0', 7), Ok(None));
    assert_eq!(p.feed(b';', 8), Ok(Some(Sample::new(7, 0))));
}

#[test]
fn oversized_token_is_dropped_and_parsing_continues() {
    let mut p = FrameParser::new();
    // 2^48 - 1 is the largest representable value; 21 nines exceed it.
    for _ in 0..21 {
        assert_eq!(p.feed(b'9', 50), Ok(None));
    }
    assert_eq!(p.feed(b'\n', 60), Err(ParseError));
    // The malformed token is gone; the stream goes on undisturbed.
    assert_eq!(p.feed(b'7', 70), Ok(None));
    assert_eq!(p.feed(b'\n', 75), Ok(Some(Sample::new(70, 7))));
}

#[test]
fn largest_representable_value_is_kept() {
    let mut p = FrameParser::new();
    for b in b"281474976710655" {
        assert_eq!(p.feed(*b, 3), Ok(None));
    }
    assert_eq!(p.feed(b',', 4), Ok(Some(Sample::new(3, 0xFFFF_FFFF_FFFF))));
}

#[test]
fn store_starts_with_the_sentinel_sample() {
    let store = SeriesStore::new(1_000);
    assert_eq!(store.len(), 1);
    assert_eq!(store.snapshot(), vec![Sample::new(1_000, 0)]);
}

#[test]
fn snapshots_grow_monotonically_and_stay_ordered() {
    let mut store = SeriesStore::new(0);
    let mut last_len = 0;
    let mut previous: Vec<Sample> = Vec::new();
    for i in 1..50u64 {
        store.push(Sample::new(i * 10, i % 7));
        let snap = store.snapshot();
        // Never shorter than an earlier snapshot, and extending it.
        assert!(snap.len() >= last_len);
        assert_eq!(&snap[..previous.len()], &previous[..]);
        // Time-ordered, and exactly the pushed content: no partial entries.
        assert_eq!(snap.len(), 1 + i as usize);
        for w in snap.windows(2) {
            assert!(w[0].timestamp_ms <= w[1].timestamp_ms);
        }
        last_len = snap.len();
        previous = snap;
    }
}

#[test]
fn pushes_with_equal_timestamps_are_kept_in_arrival_order() {
    let mut store = SeriesStore::new(5);
    store.push(Sample::new(5, 1));
    store.push(Sample::new(5, 2));
    store.push(Sample::new(9, 3));
    assert_eq!(
        store.snapshot(),
        vec![
            Sample::new(5, 0),
            Sample::new(5, 1),
            Sample::new(5, 2),
            Sample::new(9, 3),
        ]
    );
}
