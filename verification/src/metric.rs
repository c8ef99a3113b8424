//! A metric's full retention tree: the live raw buffer(s) plus every
//! maintained downsampled tier, and the identifying metadata around it.

use vstd::prelude::*;

use crate::aligned_series::{spec_aligned_values, spec_sliding, AlignedSeries};
use crate::base::{Interval, TimeStamp};
use crate::element::Element;
use crate::ops::{ElementOp, SampleOp};
use crate::raw_series::RawSeries;
use crate::sample::Sample;
use crate::window::spec_num_windows;

verus! {

/// The name of a tag: opaque identification metadata.
#[derive(Debug, PartialEq, Eq, Clone)]
pub struct TagName(pub String);

/// The value of a tag.
#[derive(Debug, Hash, Clone)]
pub enum TagValue {
    String(String),
    Int(i64),
}

/// A named metric: a stream of samples plus identifying tags. The tags are
/// not operated on; they only identify the metric.
pub struct Metric {
    pub name: String,
    pub tags: Vec<(TagName, TagValue)>,
    pub stream: Stream,
}

impl Metric {
    /// Create a metric with the given name, no tags and an empty stream.
    pub fn new(name: String) -> (r: Metric)
        ensures
            r.name == name,
            r.tags@ == Seq::<(TagName, TagValue)>::empty(),
            r.stream.raw@ == Seq::<RawSeries>::empty(),
            r.stream.aligned@ == Seq::<((Interval, TimeStamp), AlignedSeries)>::empty(),
            r.stream.wf(),
    {
        Metric { name, tags: Vec::new(), stream: Stream::new() }
    }

    /// Attach one more (name, value) tag pair.
    pub fn add_tag(&mut self, name: TagName, value: TagValue)
        ensures
            final(self).tags@ == old(self).tags@.push((name, value)),
            final(self).name == old(self).name,
            final(self).stream == old(self).stream,
    {
        self.tags.push((name, value));
    }

    /// Push one raw reading into the metric's stream.
    pub fn push_raw(&mut self, ts: TimeStamp, value: i64)
        requires
            old(self).stream.wf(),
            old(self).stream.raw@.len() > 0 && old(self).stream.raw@.last()@.len() > 0
                ==> ts.0 >= old(self).stream.raw@.last()@.last().0.0,
        ensures
            final(self).name == old(self).name,
            final(self).tags == old(self).tags,
            final(self).stream.wf(),
            final(self).stream.aligned == old(self).stream.aligned,
            old(self).stream.raw@.len() == 0 ==> final(self).stream.raw@.len() == 1
                && final(self).stream.raw@[0]@ == seq![Element(ts, Sample::Point(value))],
            old(self).stream.raw@.len() > 0 ==> ({
                &&& final(self).stream.raw@.len() == old(self).stream.raw@.len()
                &&& final(self).stream.raw@.last()@ == old(self).stream.raw@.last()@.push(
                    Element(ts, Sample::Point(value)),
                )
                &&& forall|i: int|
                    0 <= i < old(self).stream.raw@.len() - 1 ==> final(self).stream.raw@[i]
                        == old(self).stream.raw@[i]
            }),
    {
        self.stream.push_raw(ts, value);
    }
}

/// A downsampling policy: which aggregations to maintain at which interval.
pub struct DownSampler {
    pub id: String,
    pub interval: Interval,
    pub ops: Vec<String>,
}

/// Which metric (and tag set) a downsampling policy applies to.
pub struct DownSampleConfigs {
    pub metric: String,
    pub tags: Vec<(TagName, TagValue)>,
}

/// The key of a downsampling tier: its interval and its epoch, in
/// milliseconds.
pub open spec fn tier_key(e: ((Interval, TimeStamp), AlignedSeries)) -> (int, int) {
    (e.0.0.0 as int, e.0.1.0 as int)
}

/// The tiers as a mapping from (interval, epoch) to the stored series; a
/// later entry for the same key wins.
pub open spec fn tier_map(s: Seq<((Interval, TimeStamp), AlignedSeries)>) -> Map<
    (int, int),
    AlignedSeries,
>
    decreases s.len(),
{
    if s.len() == 0 {
        Map::empty()
    } else {
        tier_map(s.drop_last()).insert(tier_key(s.last()), s.last().1)
    }
}

/// No two tiers share a key.
pub open spec fn tier_keys_unique(s: Seq<((Interval, TimeStamp), AlignedSeries)>) -> bool {
    forall|i: int, j: int| 0 <= i < j < s.len() ==> tier_key(s[i]) != tier_key(s[j])
}

/// Replacing the series of entry `i` in place changes the tier mapping the
/// way inserting under that entry's key does.
proof fn lemma_tier_map_update(
    s: Seq<((Interval, TimeStamp), AlignedSeries)>,
    i: int,
    v: AlignedSeries,
)
    requires
        0 <= i < s.len(),
        tier_keys_unique(s),
    ensures
        tier_map(s.update(i, (s[i].0, v))) == tier_map(s).insert(tier_key(s[i]), v),
    decreases s.len(),
{
    let s2 = s.update(i, (s[i].0, v));
    if i == s.len() - 1 {
        assert(s2.drop_last() =~= s.drop_last());
        assert(tier_map(s.drop_last()).insert(tier_key(s.last()), s.last().1).insert(
            tier_key(s2.last()),
            v,
        ) =~= tier_map(s.drop_last()).insert(tier_key(s2.last()), v));
    } else {
        assert(s2.drop_last() =~= s.drop_last().update(i, (s[i].0, v)));
        lemma_tier_map_update(s.drop_last(), i, v);
        assert(tier_key(s[i]) != tier_key(s.last()));
        assert(tier_map(s.drop_last()).insert(tier_key(s[i]), v).insert(
            tier_key(s.last()),
            s.last().1,
        ) =~= tier_map(s.drop_last()).insert(tier_key(s.last()), s.last().1).insert(
            tier_key(s[i]),
            v,
        ));
    }
}

/// A stream: the live raw buffers plus every maintained downsampled tier,
/// keyed by (interval, epoch).
pub struct Stream {
    pub raw: Vec<RawSeries>,
    pub aligned: Vec<((Interval, TimeStamp), AlignedSeries)>,
}

impl Stream {
    /// Every raw buffer is sorted, every tier's series has a positive
    /// interval, and no two tiers share a key.
    pub open spec fn wf(&self) -> bool {
        &&& forall|i: int| 0 <= i < self.raw@.len() ==> (#[trigger] self.raw@[i]).wf()
        &&& tier_keys_unique(self.aligned@)
        &&& forall|i: int| 0 <= i < self.aligned@.len() ==> (#[trigger] self.aligned@[i]).1.wf()
    }

    /// Create an empty stream.
    pub fn new() -> (r: Stream)
        ensures
            r.raw@ == Seq::<RawSeries>::empty(),
            r.aligned@ == Seq::<((Interval, TimeStamp), AlignedSeries)>::empty(),
            r.wf(),
    {
        Stream { raw: Vec::new(), aligned: Vec::new() }
    }

    /// Add another raw buffer; later pushes go to the most recent one.
    pub fn add_raw_series(&mut self, series: RawSeries)
        requires
            old(self).wf(),
            series.wf(),
        ensures
            final(self).raw@ == old(self).raw@.push(series),
            final(self).aligned == old(self).aligned,
            final(self).wf(),
    {
        self.raw.push(series);
    }

    /// Register an empty tier for the given interval and epoch, replacing
    /// whatever the key held.
    pub fn new_interval(&mut self, interval: Interval, start_ts: TimeStamp)
        requires
            old(self).wf(),
            interval.0 > 0,
        ensures
            final(self).raw == old(self).raw,
            final(self).wf(),
            ({
                let key = (interval.0 as int, start_ts.0 as int);
                let m = tier_map(final(self).aligned@);
                let m0 = tier_map(old(self).aligned@);
                &&& m.dom() == m0.dom().insert(key)
                &&& m[key].interval == interval
                &&& m[key].start_ts == start_ts
                &&& m[key].values@ == Seq::<Sample>::empty()
                &&& forall|k2: (int, int)|
                    k2 != key && m0.dom().contains(k2) ==> m[k2] == m0[k2]
            }),
    {
        let series = AlignedSeries::new(interval, start_ts);
        self.upsert_tier(interval, start_ts, series);
    }

    /// Append one raw reading to the most recently created raw buffer,
    /// creating one if none exists. The timestamp must not be less than that
    /// buffer's last timestamp.
    pub fn push_raw(&mut self, ts: TimeStamp, value: i64)
        requires
            old(self).wf(),
            old(self).raw@.len() > 0 && old(self).raw@.last()@.len() > 0 ==> ts.0 >= old(
                self,
            ).raw@.last()@.last().0.0,
        ensures
            final(self).wf(),
            final(self).aligned == old(self).aligned,
            old(self).raw@.len() == 0 ==> final(self).raw@.len() == 1 && final(self).raw@[0]@
                == seq![Element(ts, Sample::Point(value))],
            old(self).raw@.len() > 0 ==> ({
                &&& final(self).raw@.len() == old(self).raw@.len()
                &&& final(self).raw@.last()@ == old(self).raw@.last()@.push(
                    Element(ts, Sample::Point(value)),
                )
                &&& forall|i: int|
                    0 <= i < old(self).raw@.len() - 1 ==> final(self).raw@[i] == old(self).raw@[i]
            }),
    {
        if self.raw.len() == 0 {
            self.add_raw_series(RawSeries::new());
        }

        let mut last = self.raw.pop().unwrap();
        last.push(ts, value);
        self.raw.push(last);
    }

    /// Downsample the most recent raw buffer: aggregate each bucket with the
    /// fixed `youngest` sampling policy, derive the sliding pairwise delta
    /// series from that, and store the delta series under (interval, epoch),
    /// replacing whatever the key held. A stream with no raw buffer is left
    /// unchanged.
    pub fn align(&mut self, interval: Interval, start_ts: TimeStamp, end_ts: Option<TimeStamp>)
        requires
            old(self).wf(),
            interval.0 > 0,
            end_ts is Some ==> end_ts->Some_0.0 >= start_ts.0,
            old(self).raw@.len() > 0 ==> ({
                let rs = old(self).raw@.last();
                let youngest_vals = spec_aligned_values(
                    rs@,
                    interval.0 as int,
                    start_ts.0 as int,
                    crate::aligned_series::spec_end_millis(end_ts),
                    ElementOp::Youngest,
                );
                &&& spec_num_windows(rs@, start_ts.0 as int, interval.0 as int) <= usize::MAX
                &&& forall|i: int|
                    0 <= i <= youngest_vals.len() - 2 ==> crate::ops::sample_op_ok(
                        SampleOp::Delta,
                        #[trigger] youngest_vals.subrange(i, i + 2),
                    )
            }),
        ensures
            final(self).raw == old(self).raw,
            final(self).wf(),
            old(self).raw@.len() == 0 ==> *final(self) == *old(self),
            old(self).raw@.len() > 0 ==> ({
                let key = (interval.0 as int, start_ts.0 as int);
                let m = tier_map(final(self).aligned@);
                let m0 = tier_map(old(self).aligned@);
                let rs = old(self).raw@.last();
                let youngest_vals = spec_aligned_values(
                    rs@,
                    interval.0 as int,
                    start_ts.0 as int,
                    crate::aligned_series::spec_end_millis(end_ts),
                    ElementOp::Youngest,
                );
                &&& m.dom() == m0.dom().insert(key)
                &&& m[key].interval == interval
                &&& m[key].start_ts == start_ts
                &&& m[key].values@ == spec_sliding(youngest_vals, 2, SampleOp::Delta)
                &&& forall|k2: (int, int)|
                    k2 != key && m0.dom().contains(k2) ==> m[k2] == m0[k2]
            }),
    {
        if self.raw.len() == 0 {
            return ;
        }

        let ghost rs = self.raw@.last();
        let ghost start_i = start_ts.0 as int;
        let ghost w_i = interval.0 as int;
        let ghost end_i = crate::aligned_series::spec_end_millis(end_ts);
        let ghost youngest_vals = spec_aligned_values(rs@, w_i, start_i, end_i, ElementOp::Youngest);

        let raw_series = &self.raw[self.raw.len() - 1];

        let aligned_series = match AlignedSeries::from_raw_series(
            raw_series,
            interval,
            start_ts,
            end_ts,
            ElementOp::Youngest,
        ) {
            Ok(a) => a,
            Err(_) => {
                proof {
                    assert(false);
                }
                AlignedSeries::new(interval, start_ts)
            },
        };

        proof {
            assert(aligned_series.values@ == youngest_vals);
        }

        let deltas = match aligned_series.sliding_window(2, SampleOp::Delta) {
            Ok(d) => d,
            Err(_) => {
                proof {
                    assert(false);
                }
                AlignedSeries::new(interval, start_ts)
            },
        };

        self.upsert_tier(interval, start_ts, deltas);
    }

    /// Store `series` under (interval, epoch), replacing whatever the key
    /// held.
    #[verifier::loop_isolation(false)]
    fn upsert_tier(&mut self, interval: Interval, start_ts: TimeStamp, series: AlignedSeries)
        requires
            old(self).wf(),
            series.wf(),
            series.interval == interval,
            series.start_ts == start_ts,
        ensures
            final(self).raw == old(self).raw,
            final(self).wf(),
            tier_map(final(self).aligned@) == tier_map(old(self).aligned@).insert(
                (interval.0 as int, start_ts.0 as int),
                series,
            ),
    {
        let ghost key = (interval.0 as int, start_ts.0 as int);
        let n = self.aligned.len();
        let mut i: usize = 0;

        while i < n
            invariant
                0 <= i <= n,
                *self == *old(self),
                n == self.aligned@.len(),
                forall|j: int| 0 <= j < i ==> tier_key(self.aligned@[j]) != key,
            decreases n - i,
        {
            let entry = &self.aligned[i];
            if entry.0.0.0 == interval.0 && entry.0.1.0 == start_ts.0 {
                // Replace the existing tier in place.
                let ghost olds = self.aligned@;
                proof {
                    assert(olds[i as int].0 == (interval, start_ts));
                    assert(tier_key(olds[i as int]) == key);
                    lemma_tier_map_update(olds, i as int, series);
                }
                self.aligned[i] = ((interval, start_ts), series);
                proof {
                    assert(self.aligned@ =~= olds.update(i as int, (olds[i as int].0, series)));
                    assert forall|a: int, b: int|
                        0 <= a < b < self.aligned@.len() implies tier_key(self.aligned@[a])
                        != tier_key(self.aligned@[b]) by {
                        assert(tier_key(olds[a]) != tier_key(olds[b]));
                    }
                }
                return ;
            }
            i += 1;
        }

        // The key is new: append a tier for it.
        let ghost olds = self.aligned@;
        self.aligned.push(((interval, start_ts), series));
        proof {
            assert(self.aligned@.drop_last() =~= olds);
        }
    }
}

} // verus!
