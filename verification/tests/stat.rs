use chrono::{TimeZone, Utc};

use sup::stat::{Sample, Series, Window};
use sup::Duration;

fn assert_window_sizes(w: &[Window], len: usize, window_size: usize) {
    assert_eq!(w.len(), len, "incorrect number of windows");
    for (i, r) in w.iter().enumerate() {
        assert!(r.is_range(), "missing window for {}", i);
        if let Window::Range(start, end) = r {
            assert_eq!(
                end - start,
                window_size - 1,
                "incorrect window size for {}",
                i
            );
        }
    }
}

fn assert_every_nth(w: &[Window], n: usize, window_size: Option<usize>) {
    for (i, r) in w.iter().enumerate() {
        if i % n == 0 {
            if window_size.is_none() {
                assert!(r.is_empty());
                continue;
            }

            if window_size.is_some() {
                assert!(r.is_range());
            }

            if let Window::Range(start, end) = r {
                if let Some(window_size) = window_size {
                    assert_eq!(
                        end - start,
                        window_size - 1,
                        "incorrect window size for {}",
                        i
                    );
                }
            }
        }
    }
}

#[test]
fn stat_windowing() {
    let mut s = Series::new();

    // Make a 10 minute series with 10 second intervals
    let mut c = 0;
    for i in 0..10 {
        for j in 0..6 {
            s.push_sample(
                Utc.with_ymd_and_hms(2023, 1, 1, 1, i, j * 10)
                    .unwrap()
                    .timestamp_millis(),
                Sample::point(c),
            );
            c += 1;
        }
    }

    let epoch = Utc
        .with_ymd_and_hms(2023, 1, 1, 1, 0, 0)
        .unwrap()
        .timestamp_millis();

    // Break it into 1 minute windows
    let windows = s.windows(Duration::from_secs(60), epoch);

    // Expect 10 windows with 6 samples each
    assert_window_sizes(&windows, 10, 6);

    // Break it into 2 minute windows
    let windows = s.windows(Duration::from_secs(120), epoch);

    assert_window_sizes(&windows, 5, 12);

    // Break it into 30 second windows
    let windows = s.windows(Duration::from_secs(30), epoch);

    assert_window_sizes(&windows, 20, 3);

    // Break it into 2 second windows
    let windows = s.windows(Duration::from_secs(2), epoch);

    assert_every_nth(&windows, 5, Some(1));
}

#[test]
fn windowing_iterator() {
    let mut s = Series::new();

    // Make a 10 minute series with 10 second intervals
    let mut c = 0;
    for i in 0..10 {
        for j in 0..6 {
            s.push_sample(
                Utc.with_ymd_and_hms(2023, 1, 1, 1, i, j * 10)
                    .unwrap()
                    .timestamp_millis(),
                Sample::point(c),
            );
            c += 1;
        }
    }

    let mut iter = s.windows_iter(
        Duration::from_secs(60),
        Utc.with_ymd_and_hms(2023, 1, 1, 1, 0, 0)
            .unwrap()
            .timestamp_millis(),
    );

    while let Some(w) = iter.next() {
        match w {
            Window::Range(start, end) => {
                assert_eq!(end - start, 5);
            }
            Window::Empty => {
                panic!();
            }
        }
    }
}

#[test]
fn stat_series_accessors() {
    let mut s = Series::new();
    assert!(s.is_empty());
    assert_eq!(s.last_val(), 0);

    s.push(10, 7);
    s.push_sample(20, Sample::zero());
    s.push(30, 9);

    assert_eq!(s.len(), 3);
    assert_eq!(s.last_val(), 9);
    assert_eq!(s.get(0), Some((10, 7)));
    // A reset reads as the value 0.
    assert_eq!(s.get(1), Some((20, 0)));
    assert!(s.get(3).is_none());

    assert!(Sample::Error.is_err());
    assert!(!Sample::zero().is_err());
    assert_eq!(Sample::point(5).val(), 5);
}

#[test]
fn stat_windows_empty_series() {
    let s = Series::new();
    let windows = s.windows(Duration::from_secs(1), 0);
    assert!(windows.is_empty());
}
