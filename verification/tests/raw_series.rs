use sup::sample::{Sample, SampleEquals};
use sup::{RawSeries, TimeStamp};

#[test]
fn raw_series_nearest_after() {
    let mut series = RawSeries::new();
    series.push(TimeStamp(0), 0);
    series.push(TimeStamp(1), 1);
    series.push(TimeStamp(2), 2);
    series.push(TimeStamp(3), 3);
    series.push(TimeStamp(4), 4);
    series.push(TimeStamp(5), 5);
    series.push(TimeStamp(6), 6);
    series.push(TimeStamp(7), 7);
    series.push(TimeStamp(8), 8);
    series.push(TimeStamp(9), 9);

    assert_eq!(series.at_or_after(TimeStamp(0)).unwrap().0, TimeStamp(0));
    assert!(series
        .at_or_after(TimeStamp(0))
        .unwrap()
        .1
        .equals(&Sample::point(0)));

    assert_eq!(series.at_or_after(TimeStamp(1)).unwrap().0, TimeStamp(1));
    assert!(series
        .at_or_after(TimeStamp(1))
        .unwrap()
        .1
        .equals(&Sample::point(1)));

    assert_eq!(series.at_or_after(TimeStamp(9)).unwrap().0, TimeStamp(9));
    assert!(series
        .at_or_after(TimeStamp(9))
        .unwrap()
        .1
        .equals(&Sample::point(9)));

    assert!(series.at_or_after(TimeStamp(10)).is_none())
}

#[test]
fn raw_series_nearest_after_random_intervals() {
    let mut series = RawSeries::new();
    series.push(TimeStamp(0), 0);
    series.push(TimeStamp(200), 1);
    series.push(TimeStamp(350), 2);
    series.push(TimeStamp(500), 3);
    series.push(TimeStamp(1023), 4);
    series.push(TimeStamp(3044), 5);
    series.push(TimeStamp(4033), 6);
    series.push(TimeStamp(9000), 7);

    assert_eq!(series.at_or_after(TimeStamp(0)).unwrap().0, TimeStamp(0));
    assert!(series
        .at_or_after(TimeStamp(0))
        .unwrap()
        .1
        .equals(&Sample::point(0)),);

    assert_eq!(series.at_or_after(TimeStamp(1)).unwrap().0, TimeStamp(200));
    assert!(series
        .at_or_after(TimeStamp(1))
        .unwrap()
        .1
        .equals(&Sample::point(1)),);

    assert_eq!(series.at_or_after(TimeStamp(2)).unwrap().0, TimeStamp(200));
    assert!(series
        .at_or_after(TimeStamp(2))
        .unwrap()
        .1
        .equals(&Sample::point(1)),);

    assert_eq!(series.at_or_after(TimeStamp(201)).unwrap().0, TimeStamp(350));
    assert!(series
        .at_or_after(TimeStamp(201))
        .unwrap()
        .1
        .equals(&Sample::point(2)));

    assert_eq!(series.at_or_after(TimeStamp(350)).unwrap().0, TimeStamp(350));
    assert!(series
        .at_or_after(TimeStamp(350))
        .unwrap()
        .1
        .equals(&Sample::point(2)));

    assert_eq!(series.at_or_after(TimeStamp(351)).unwrap().0, TimeStamp(500));
    assert!(series
        .at_or_after(TimeStamp(351))
        .unwrap()
        .1
        .equals(&Sample::point(3)));

    assert_eq!(series.at_or_after(TimeStamp(500)).unwrap().0, TimeStamp(500));
    assert!(series
        .at_or_after(TimeStamp(500))
        .unwrap()
        .1
        .equals(&Sample::point(3)));

    assert!(series.at_or_after(TimeStamp(9001)).is_none());
}

#[test]
fn raw_series_push_sample_and_get() {
    let mut series = RawSeries::new();
    assert!(series.is_empty());
    assert_eq!(series.last_val(), 0);

    series.push_sample(TimeStamp(10), Sample::zero());
    series.push(TimeStamp(20), 42);

    assert_eq!(series.len(), 2);
    assert!(!series.is_empty());
    assert_eq!(series.last_val(), 42);

    let first = series.get(0).unwrap();
    assert_eq!(first.0, TimeStamp(10));
    assert!(first.1.is_zero());
    assert!(series.get(2).is_none());
}
