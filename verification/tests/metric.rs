use sup::metric::{Metric, Stream, TagName, TagValue};
use sup::sample::{Sample, SampleEquals};
use sup::{Duration, TimeStamp};

#[test]
fn stream_push_raw_creates_and_appends() {
    let mut stream = Stream::new();
    assert!(stream.raw.is_empty());

    stream.push_raw(TimeStamp(1), 10);
    stream.push_raw(TimeStamp(2), 20);
    assert_eq!(stream.raw.len(), 1);
    assert_eq!(stream.raw[0].len(), 2);
    assert_eq!(stream.raw[0].last_val(), 20);
}

#[test]
fn stream_align_stores_the_delta_tier() {
    let mut stream = Stream::new();
    // A counter sampled once per millisecond: 0,2,4,...,58.
    for ts in 0..30i64 {
        stream.push_raw(TimeStamp(ts), ts * 2);
    }

    stream.align(Duration(10), TimeStamp(0), None);

    assert_eq!(stream.aligned.len(), 1);
    let ((interval, start_ts), deltas) = &stream.aligned[0];
    assert_eq!(interval.millis(), 10);
    assert_eq!(start_ts.millis(), 0);

    // youngest per bucket: 18, 38, 58; sliding delta: placeholder, 20, 20.
    assert_eq!(deltas.values.len(), 3);
    assert!(deltas.values[0].equals(&Sample::point(0)));
    assert!(deltas.values[1].equals(&Sample::point(20)));
    assert!(deltas.values[2].equals(&Sample::point(20)));
}

#[test]
fn stream_align_same_key_overwrites() {
    let mut stream = Stream::new();
    for ts in 0..10i64 {
        stream.push_raw(TimeStamp(ts), ts);
    }

    stream.new_interval(Duration(5), TimeStamp(0));
    assert_eq!(stream.aligned.len(), 1);
    assert!(stream.aligned[0].1.values.is_empty());

    stream.align(Duration(5), TimeStamp(0), None);
    // The same key is overwritten, not duplicated, and the raw data stays.
    assert_eq!(stream.aligned.len(), 1);
    assert_eq!(stream.aligned[0].1.values.len(), 2);
    assert_eq!(stream.raw.len(), 1);
    assert_eq!(stream.raw[0].len(), 10);

    // A different key makes a second tier.
    stream.align(Duration(2), TimeStamp(0), None);
    assert_eq!(stream.aligned.len(), 2);
}

#[test]
fn stream_align_without_raw_data_does_nothing() {
    let mut stream = Stream::new();
    stream.align(Duration(5), TimeStamp(0), None);
    assert!(stream.aligned.is_empty());
}

#[test]
fn metric_tags_and_pushes() {
    let mut metric = Metric::new("cpu_usage".to_string());
    assert_eq!(metric.name, "cpu_usage");
    assert!(metric.tags.is_empty());

    metric.add_tag(
        TagName("host".to_string()),
        TagValue::String("a".to_string()),
    );
    metric.add_tag(TagName("core".to_string()), TagValue::Int(0));
    assert_eq!(metric.tags.len(), 2);
    assert_eq!(metric.tags[0].0, TagName("host".to_string()));

    metric.push_raw(TimeStamp(5), 1);
    metric.push_raw(TimeStamp(6), 2);
    assert_eq!(metric.stream.raw.len(), 1);
    assert_eq!(metric.stream.raw[0].last_val(), 2);
}
