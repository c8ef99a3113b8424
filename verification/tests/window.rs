use chrono::{TimeZone, Utc};

use sup::sample::Sample;
use sup::window::Window;
use sup::{Duration, RawSeries, TimeStamp};

fn collect_windows(series: &RawSeries, window_size: Duration, start_ts: TimeStamp) -> Vec<Window> {
    let mut iter = series.windows(window_size, start_ts);
    let mut out = Vec::new();
    while let Some(w) = iter.next() {
        out.push(w);
    }
    out
}

fn assert_window_sizes(w: &[Window], len: usize, window_size: usize) {
    assert_eq!(w.len(), len, "incorrect number of windows");
    for (i, r) in w.iter().enumerate() {
        assert!(r.is_range(), "missing window for {}", i);
        if let Window::Range(start, end) = r {
            assert_eq!(
                end - start,
                window_size - 1,
                "incorrect window size for {}",
                i
            );
        }
    }
}

fn assert_every_nth(w: &[Window], n: usize, window_size: Option<usize>) {
    for (i, r) in w.iter().enumerate() {
        if i % n == 0 {
            if window_size.is_none() {
                assert!(r.is_empty());
                continue;
            }

            if window_size.is_some() {
                assert!(r.is_range());
            }

            if let Window::Range(start, end) = r {
                if let Some(window_size) = window_size {
                    assert_eq!(
                        end - start,
                        window_size - 1,
                        "incorrect window size for {}",
                        i
                    );
                }
            }
        }
    }
}

#[test]
fn window_windowing() {
    let mut s = RawSeries::new();

    // Make a 10 minute series with 10 second intervals
    let mut c = 0;
    for i in 0..10 {
        for j in 0..6 {
            s.push_sample(
                TimeStamp(
                    Utc.with_ymd_and_hms(2023, 1, 1, 1, i, j * 10)
                        .unwrap()
                        .timestamp_millis(),
                ),
                Sample::point(c),
            );
            c += 1;
        }
    }

    let epoch = TimeStamp(
        Utc.with_ymd_and_hms(2023, 1, 1, 1, 0, 0)
            .unwrap()
            .timestamp_millis(),
    );

    // Break it into 1 minute windows
    let windows = collect_windows(&s, Duration::from_secs(60), epoch);

    // Expect 10 windows with 6 samples each
    assert_window_sizes(&windows, 10, 6);

    // Break it into 2 minute windows
    let windows = collect_windows(&s, Duration::from_secs(120), epoch);

    assert_window_sizes(&windows, 5, 12);

    // Break it into 30 second windows
    let windows = collect_windows(&s, Duration::from_secs(30), epoch);

    assert_window_sizes(&windows, 20, 3);

    // Break it into 2 second windows
    let windows = collect_windows(&s, Duration::from_secs(2), epoch);

    assert_every_nth(&windows, 5, Some(1));
}

#[test]
fn aggregation() {
    let mut s = RawSeries::new();

    // Make a 10 minute series with 10 second intervals
    let mut c = 0;
    for i in 0..10 {
        for j in 0..6 {
            s.push_sample(
                TimeStamp(
                    Utc.with_ymd_and_hms(2023, 1, 1, 1, i, j * 10)
                        .unwrap()
                        .timestamp_millis(),
                ),
                Sample::point(c),
            );
            c += 1;
        }
    }

    let epoch = TimeStamp(
        Utc.with_ymd_and_hms(2023, 1, 1, 1, 0, 0)
            .unwrap()
            .timestamp_millis(),
    );

    // Break it into 1 minute windows
    let mut maxes = s
        .windows(Duration::from_secs(60), epoch)
        .samples()
        .aggregate(sup::ops::ElementOp::Max);
    while let Some(i) = maxes.next() {
        println!("{:?}", i);
    }

    let mut mins = s
        .windows(Duration::from_secs(60), epoch)
        .samples()
        .aggregate(sup::ops::ElementOp::Min);
    while let Some(i) = mins.next() {
        println!("{:?}", i);
    }

    let mut means = s
        .windows(Duration::from_secs(60), epoch)
        .samples()
        .aggregate(sup::ops::ElementOp::Mean);
    while let Some(i) = means.next() {
        println!("{:?}", i);
    }
}

#[test]
fn window_coverage_partitions_indices() {
    // Irregular timestamps; windows of width 100 from the epoch must be
    // contiguous, non-overlapping, cover every index exactly once, and
    // number floor((last - start)/interval) + 1.
    let ts = [0i64, 10, 99, 100, 250, 260, 300, 701];
    let mut s = RawSeries::new();
    for (i, t) in ts.iter().enumerate() {
        s.push(TimeStamp(*t), i as i64);
    }

    let windows = collect_windows(&s, Duration(100), TimeStamp(0));
    assert_eq!(windows.len(), (701 - 0) / 100 + 1);

    let mut covered = [false; 8];
    let mut next_index = 0;
    for w in &windows {
        match w {
            Window::Empty => {}
            Window::Range(start, end) => {
                // contiguous: each range picks up exactly where the last left off
                assert_eq!(*start, next_index);
                assert!(start <= end);
                for i in *start..=*end {
                    assert!(!covered[i]);
                    covered[i] = true;
                }
                next_index = end + 1;
            }
        }
    }
    assert!(covered.iter().all(|c| *c));

    // And the expected shape, bucket by bucket.
    assert!(matches!(windows[0], Window::Range(0, 2)));
    assert!(matches!(windows[1], Window::Range(3, 3)));
    assert!(matches!(windows[2], Window::Range(4, 5)));
    assert!(matches!(windows[3], Window::Range(6, 6)));
    assert!(matches!(windows[4], Window::Empty));
    assert!(matches!(windows[5], Window::Empty));
    assert!(matches!(windows[6], Window::Empty));
    assert!(matches!(windows[7], Window::Range(7, 7)));
}

#[test]
fn window_before_epoch_yields_nothing() {
    let mut s = RawSeries::new();
    s.push(TimeStamp(50), 1);

    // The last timestamp precedes the epoch: no windows at all.
    let windows = collect_windows(&s, Duration(10), TimeStamp(100));
    assert!(windows.is_empty());
}
