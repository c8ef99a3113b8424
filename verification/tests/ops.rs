use sup::window_ops;
use sup::element::Element;
use sup::ops::{self, element, sample, ElementOp, SampleOp};
use sup::sample::{Sample, SampleEquals};
use sup::{Duration, TimeStamp};

fn elems(samples: &[Sample]) -> Vec<Element> {
    samples
        .iter()
        .enumerate()
        .map(|(i, s)| Element(TimeStamp(i as i64), *s))
        .collect()
}

#[test]
fn max_skips_errors_and_propagates_taint() {
    // An empty window has no value.
    assert!(element::max(&elems(&[])).is_err());
    // Errors are skipped entirely.
    assert!(element::max(&elems(&[Sample::Error, Sample::Error])).is_err());
    // Zero counts as the value 0.
    assert!(element::max(&elems(&[Sample::Zero, Sample::Point(-5)]))
        .equals(&Sample::point(0)));
    // All-negative windows stay negative: the result is attained by an input.
    assert!(element::max(&elems(&[Sample::Point(-5), Sample::Point(-3)]))
        .equals(&Sample::point(-3)));
    // A Fake input taints the output even when a real point is the maximum.
    let tainted = element::max(&elems(&[Sample::Fake(1), Sample::Point(9)]));
    assert!(matches!(tainted, Sample::Fake(9)));
}

#[test]
fn min_skips_errors_and_propagates_taint() {
    assert!(element::min(&elems(&[])).is_err());
    assert!(element::min(&elems(&[Sample::Error])).is_err());
    assert!(element::min(&elems(&[Sample::Zero, Sample::Point(5)]))
        .equals(&Sample::point(0)));
    assert!(element::min(&elems(&[Sample::Point(7), Sample::Point(3)]))
        .equals(&Sample::point(3)));
    let tainted = element::min(&elems(&[Sample::Point(2), Sample::Fake(8)]));
    assert!(matches!(tainted, Sample::Fake(2)));
}

#[test]
fn sum_of_empty_window_is_zero_point() {
    assert!(element::sum(&elems(&[])).equals(&Sample::point(0)));
    // Zero and Error both contribute 0.
    assert!(element::sum(&elems(&[Sample::Point(3), Sample::Zero, Sample::Error, Sample::Point(4)]))
        .equals(&Sample::point(7)));
}

#[test]
fn sum_of_single_sample_is_that_value() {
    assert!(element::sum(&elems(&[Sample::Point(42)])).equals(&Sample::point(42)));
    assert!(element::sum(&elems(&[Sample::Point(-42)])).equals(&Sample::point(-42)));
    // A single tainted sample sums to its value, still tainted.
    assert!(matches!(element::sum(&elems(&[Sample::Fake(42)])), Sample::Fake(42)));
}

#[test]
fn sum_and_mean_propagate_taint() {
    // A Fake input taints the aggregate; it is never promoted to Point.
    let tainted = elems(&[Sample::Point(3), Sample::Fake(5)]);
    assert!(matches!(element::sum(&tainted), Sample::Fake(8)));
    assert!(matches!(element::mean(&tainted), Sample::Fake(4)));

    // Without a Fake input both stay real points.
    let clean = elems(&[Sample::Point(3), Sample::Point(5)]);
    assert!(matches!(element::sum(&clean), Sample::Point(8)));
    assert!(matches!(element::mean(&clean), Sample::Point(4)));
}

#[test]
fn mean_of_single_sample_is_that_value() {
    assert!(element::mean(&elems(&[Sample::Point(42)])).equals(&Sample::point(42)));
}

#[test]
fn mean_truncates_toward_zero() {
    assert!(element::mean(&elems(&[Sample::Point(3), Sample::Point(4)]))
        .equals(&Sample::point(3)));
    assert!(element::mean(&elems(&[Sample::Point(-3), Sample::Point(-4)]))
        .equals(&Sample::point(-3)));
}

#[test]
fn oldest_and_youngest_pick_the_ends_verbatim() {
    assert!(element::oldest(&elems(&[])).is_err());
    assert!(element::youngest(&elems(&[])).is_err());

    let w = elems(&[Sample::Fake(1), Sample::Point(2), Sample::Zero]);
    // oldest keeps the Fake tag; youngest keeps the Zero tag.
    assert!(matches!(element::oldest(&w), Sample::Fake(1)));
    assert!(element::youngest(&w).is_zero());
}

#[test]
fn delta_requires_exactly_two_inputs() {
    assert!(element::delta(&elems(&[Sample::Point(1)])).is_err());
    assert!(element::delta(&elems(&[Sample::Point(1), Sample::Point(2), Sample::Point(3)]))
        .is_err());
    // An increase yields the difference.
    assert!(element::delta(&elems(&[Sample::Point(2), Sample::Point(9)]))
        .equals(&Sample::point(7)));
    // A decrease signals a counter reset: the last value stands in.
    assert!(element::delta(&elems(&[Sample::Point(9), Sample::Point(2)]))
        .equals(&Sample::point(2)));
}

#[test]
fn sample_delta_matches_element_delta() {
    assert!(sample::delta(&[Sample::Point(2), Sample::Point(9)]).equals(&Sample::point(7)));
    assert!(sample::delta(&[Sample::Point(9), Sample::Point(2)]).equals(&Sample::point(2)));
    assert!(sample::delta(&[Sample::Point(1)]).is_err());
}

#[test]
fn from_str_selects_from_the_fixed_registry() {
    assert_eq!(element::from_str("max"), Some(ElementOp::Max));
    assert_eq!(element::from_str("min"), Some(ElementOp::Min));
    assert_eq!(element::from_str("sum"), Some(ElementOp::Sum));
    assert_eq!(element::from_str("mean"), Some(ElementOp::Mean));
    assert_eq!(element::from_str("oldest"), Some(ElementOp::Oldest));
    assert_eq!(element::from_str("youngest"), Some(ElementOp::Youngest));
    assert_eq!(element::from_str("delta"), Some(ElementOp::Delta));
    assert_eq!(element::from_str("median"), None);
    assert_eq!(element::from_str(""), None);
}

#[test]
fn top_level_ops_agree_with_element_ops() {
    let w = elems(&[Sample::Point(3), Sample::Zero, Sample::Point(8)]);
    assert!(ops::max(&w).equals(&element::max(&w)));
    assert!(ops::min(&w).equals(&element::min(&w)));
    assert!(ops::sum(&w).equals(&element::sum(&w)));
    assert!(ops::mean(&w).equals(&element::mean(&w)));
    assert!(matches!(ops::oldest(&w), Sample::Point(3)));
    assert!(matches!(ops::youngest(&w), Sample::Point(8)));
}

#[test]
fn aggregate_reduces_each_window_in_bucket_order() {
    let mut series = sup::RawSeries::new();
    for (ts, v) in [(0i64, 1i64), (1, 2), (5, 10), (6, 20), (15, 7)] {
        series.push(TimeStamp(ts), v);
    }

    let mut aggs = series
        .windows(Duration(5), TimeStamp(0))
        .samples()
        .aggregate(ElementOp::Sum);

    let mut got = Vec::new();
    while let Some(s) = aggs.next() {
        got.push(s);
    }

    assert_eq!(got.len(), 4);
    assert!(got[0].equals(&Sample::point(3)));
    assert!(got[1].equals(&Sample::point(30)));
    assert!(got[2].equals(&Sample::point(0)));
    assert!(got[3].equals(&Sample::point(7)));
}

#[test]
fn element_op_apply_dispatches() {
    let w = elems(&[Sample::Point(4), Sample::Point(6)]);
    assert!(ElementOp::Max.apply(&w).equals(&element::max(&w)));
    assert!(ElementOp::Sum.apply(&w).equals(&Sample::point(10)));
    assert!(ElementOp::Delta.apply(&w).equals(&Sample::point(2)));
    assert!(SampleOp::Delta
        .apply(&[Sample::Point(4), Sample::Point(6)])
        .equals(&Sample::point(2)));
}

#[test]
fn plain_window_ops() {

    assert_eq!(window_ops::max(&[]), 0);
    assert_eq!(window_ops::max(&[-3, -1]), 0);
    assert_eq!(window_ops::max(&[3, 9, 1]), 9);

    assert_eq!(window_ops::min(&[]), 0);
    assert_eq!(window_ops::min(&[3, 9, 1]), 1);
    assert_eq!(window_ops::min(&[-3, 5]), -3);

    assert_eq!(window_ops::sum(&[]), 0);
    assert_eq!(window_ops::sum(&[3, -1, 4]), 6);

    assert_eq!(window_ops::mean(&[]), 0);
    assert_eq!(window_ops::mean(&[3, 4]), 3);
    assert_eq!(window_ops::mean(&[-3, -4]), -3);

    assert_eq!(window_ops::oldest(&[5, 6, 7]), 5);
    assert_eq!(window_ops::youngest(&[5, 6, 7]), 7);
}

#[test]
fn sample_accessors() {
    assert!(Sample::zero().is_zero());
    assert!(!Sample::zero().is_err());
    assert!(Sample::Error.is_err());
    assert_eq!(Sample::point(9).val(), 9);
    assert_eq!(Sample::Error.val(), 0);
    assert_eq!(Sample::Zero.val(), 0);
    assert_eq!(Sample::Fake(3).val(), 3);
    // Fake values never compare equal, even to themselves.
    assert!(!Sample::Fake(3).equals(&Sample::Fake(3)));
    assert!(!Sample::point(3).equals(&Sample::Fake(3)));
}

#[test]
fn duration_constructors() {
    assert_eq!(Duration::from_minutes(2).millis(), 120000);
    assert_eq!(Duration::from_secs(3).millis(), 3000);
    assert_eq!(Duration::from_millis(47).millis(), 47);
    assert_eq!(TimeStamp(99).millis(), 99);
}
