use sup::ops::ElementOp;
use sup::sample::{Sample, SampleEquals};
use sup::{AlignedSeries, Duration, RawSeries, TimeStamp};

#[test]
fn aligned_series_aligned_series() {
    let mut series = AlignedSeries::new(Duration(100), TimeStamp(1000));
    series.push(0);
    series.push(1);
    series.push(2);
    series.push(3);
    series.push(4);
    series.push(5);
    series.push(6);
    series.push(7);
    series.push(8);
    series.push(9);

    assert_eq!(series.at_or_after(TimeStamp(0)).unwrap().0, TimeStamp(1000));
    assert!(series
        .at_or_after(TimeStamp(0))
        .unwrap()
        .1
        .equals(&Sample::point(0)));

    assert_eq!(series.at_or_after(TimeStamp(999)).unwrap().0, TimeStamp(1000));
    assert!(series
        .at_or_after(TimeStamp(999))
        .unwrap()
        .1
        .equals(&Sample::point(0)));

    assert_eq!(series.at_or_after(TimeStamp(1000)).unwrap().0, TimeStamp(1000));
    assert!(series
        .at_or_after(TimeStamp(1000))
        .unwrap()
        .1
        .equals(&Sample::point(0)));

    assert_eq!(series.at_or_after(TimeStamp(1010)).unwrap().0, TimeStamp(1100));
    assert!(series
        .at_or_after(TimeStamp(1010))
        .unwrap()
        .1
        .equals(&Sample::point(1)));

    assert_eq!(series.at_or_after(TimeStamp(1100)).unwrap().0, TimeStamp(1100));
    assert!(series
        .at_or_after(TimeStamp(1100))
        .unwrap()
        .1
        .equals(&Sample::point(1)));

    assert_eq!(series.at_or_after(TimeStamp(1900)).unwrap().0, TimeStamp(1900));
    assert!(series.at_or_after(TimeStamp(1910)).is_none());
}

#[test]
fn aligned_series_to_aligned_series() {
    let mut series = RawSeries::new();
    series.push(TimeStamp(0), 1);
    series.push(TimeStamp(2), 1);
    series.push(TimeStamp(3), 1);
    series.push(TimeStamp(4), 1);
    series.push(TimeStamp(6), 1);
    series.push(TimeStamp(7), 1);
    series.push(TimeStamp(9), 1);
    series.push(TimeStamp(15), 1);
    series.push(TimeStamp(22), 1);
    series.push(TimeStamp(28), 1);
    series.push(TimeStamp(30), 1);
    series.push(TimeStamp(31), 1);
    series.push(TimeStamp(32), 1);
    series.push(TimeStamp(35), 1);
    series.push(TimeStamp(40), 1);

    println!("series: {:?}\n\n", series);

    let mut windows = series.windows(Duration(5), TimeStamp(0));
    while let Some(w) = windows.next() {
        println!("w: {:?}", w);
    }

    let mut samples = series.windows(Duration(5), TimeStamp(0)).samples();
    while let Some(e) = samples.next() {
        println!("e: {:?}", e);
    }

    let aligned_series =
        AlignedSeries::from_raw_series(&series, Duration(5), TimeStamp(0), None, ElementOp::Sum);

    println!("aligned_series: {:?}\n\n", aligned_series.unwrap());
}

#[test]
fn aligned_series_sum_counts_per_bucket() {
    // The same data as the bulk-build test above, with the per-bucket sums
    // checked exactly: buckets of width 5 from the epoch hold
    // 4, 3, 0, 1, 1, 1, 3, 1, 1 samples of value 1 each.
    let mut series = RawSeries::new();
    for ts in [0, 2, 3, 4, 6, 7, 9, 15, 22, 28, 30, 31, 32, 35, 40] {
        series.push(TimeStamp(ts), 1);
    }

    let aligned =
        AlignedSeries::from_raw_series(&series, Duration(5), TimeStamp(0), None, ElementOp::Sum)
            .unwrap();

    assert_eq!(aligned.len(), 9);
    let expected = [4, 3, 0, 1, 1, 1, 3, 1, 1];
    for (i, want) in expected.iter().enumerate() {
        let got = aligned.at_or_after(TimeStamp(i as i64 * 5)).unwrap().1;
        assert!(got.equals(&Sample::point(*want)));
    }
}

#[test]
fn from_raw_series_end_before_start_is_config_error() {
    let mut series = RawSeries::new();
    series.push(TimeStamp(0), 1);
    series.push(TimeStamp(10), 2);

    let r = AlignedSeries::from_raw_series(
        &series,
        Duration(5),
        TimeStamp(100),
        Some(TimeStamp(99)),
        ElementOp::Sum,
    );
    assert!(r.is_err());
    assert_eq!(
        r.unwrap_err().message(),
        "end_ts must be greater than or equal to start_ts"
    );
}

#[test]
fn from_raw_series_honors_end_cutoff() {
    let mut series = RawSeries::new();
    for ts in 0..10 {
        series.push(TimeStamp(ts), ts);
    }

    // Buckets of width 2 from the epoch; only those starting at or before 5
    // are kept: [0,2), [2,4), [4,6).
    let aligned = AlignedSeries::from_raw_series(
        &series,
        Duration(2),
        TimeStamp(0),
        Some(TimeStamp(5)),
        ElementOp::Youngest,
    )
    .unwrap();
    assert_eq!(aligned.len(), 3);
    assert!(aligned.at_or_after(TimeStamp(0)).unwrap().1.equals(&Sample::point(1)));
    assert!(aligned.at_or_after(TimeStamp(2)).unwrap().1.equals(&Sample::point(3)));
    assert!(aligned.at_or_after(TimeStamp(4)).unwrap().1.equals(&Sample::point(5)));
}

#[test]
fn sliding_window_delta_pads_and_differences() {
    let mut series = AlignedSeries::new(Duration(10), TimeStamp(0));
    series.push(3);
    series.push(7);
    series.push(12);
    series.push(10);

    let deltas = series.sliding_window(2, sup::ops::SampleOp::Delta).unwrap();
    assert_eq!(deltas.len(), 4);
    // One placeholder, then 7-3, 12-7, and the conservative reset answer 10.
    assert!(deltas.at_or_after(TimeStamp(0)).unwrap().1.equals(&Sample::point(0)));
    assert!(deltas.at_or_after(TimeStamp(10)).unwrap().1.equals(&Sample::point(4)));
    assert!(deltas.at_or_after(TimeStamp(20)).unwrap().1.equals(&Sample::point(5)));
    assert!(deltas.at_or_after(TimeStamp(30)).unwrap().1.equals(&Sample::point(10)));
}

#[test]
fn sliding_window_longer_than_series_is_all_padding() {
    let mut series = AlignedSeries::new(Duration(10), TimeStamp(0));
    series.push(3);
    series.push(7);

    let out = series.sliding_window(5, sup::ops::SampleOp::Delta).unwrap();
    assert_eq!(out.len(), 4);
    assert!(out.is_empty() == false);
    for i in 0..4 {
        assert!(out
            .at_or_after(TimeStamp(i * 10))
            .unwrap()
            .1
            .equals(&Sample::point(0)));
    }
}

#[test]
fn youngest_roundtrip_dense_data() {
    // One sample per millisecond from the epoch on: the youngest policy
    // reproduces exactly the last raw value of each bucket.
    let mut series = RawSeries::new();
    for ts in 0..30 {
        series.push(TimeStamp(ts), ts * 11);
    }

    let aligned = AlignedSeries::from_raw_series(
        &series,
        Duration(10),
        TimeStamp(0),
        None,
        ElementOp::Youngest,
    )
    .unwrap();

    assert_eq!(aligned.len(), 3);
    for k in 0..3i64 {
        let got = aligned.at_or_after(TimeStamp(k * 10)).unwrap().1;
        let last_in_bucket = (k + 1) * 10 - 1;
        assert!(got.equals(&Sample::point(last_in_bucket * 11)));
    }
}
