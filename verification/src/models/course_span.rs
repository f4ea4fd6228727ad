//! Per-weekday aggregate of records, bucketed by start time, used to size
//! a rendering grid column.

use vstd::prelude::*;
use crate::models::clock_time::ClockTime;
use crate::models::course_record::{CourseRecord, RecordModel};
use crate::models::weekday::Weekday;

verus! {

/// Mathematical image of one start-time bucket.
#[verifier::ext_equal]
pub ghost struct BucketModel {
    pub start_time: ClockTime,
    pub records: Seq<RecordModel>,
}

/// The records that share one exact start time, in insertion order.
#[derive(Debug)]
pub struct SpanBucket {
    pub start_time: ClockTime,
    pub records: Vec<CourseRecord>,
}

impl View for SpanBucket {
    type V = BucketModel;

    open spec fn view(&self) -> BucketModel {
        BucketModel { start_time: self.start_time, records: self.records@.map(|i: int, r: CourseRecord| r@) }
    }
}

/// Per-weekday aggregate: records bucketed by their exact start time,
/// together with the least start and the greatest end seen so far. A
/// derived index, rebuilt wholesale from the current selection, never
/// patched incrementally.
#[derive(Debug)]
pub struct CourseSpan {
    buckets: Vec<SpanBucket>,
    min_from: Option<ClockTime>,
    max_to: Option<ClockTime>,
}

impl CourseSpan {
    /// The bucket table, in first-seen order of start times.
    pub closed spec fn spec_buckets(self) -> Seq<BucketModel> {
        self.buckets@.map(|i: int, b: SpanBucket| b@)
    }

    /// The least start time inserted so far, if any.
    pub closed spec fn spec_min_from(self) -> Option<ClockTime> {
        self.min_from
    }

    /// The greatest end time inserted so far, if any.
    pub closed spec fn spec_max_to(self) -> Option<ClockTime> {
        self.max_to
    }

    /// Structure invariant: one bucket per start time, every record filed
    /// under its own start time, and the extrema present exactly when
    /// records are.
    pub open spec fn wf(self) -> bool {
        let bs = self.spec_buckets();
        &&& forall|i: int, j: int|
            0 <= i < j < bs.len() ==> bs[i].start_time != bs[j].start_time
        &&& forall|i: int, k: int|
            0 <= i < bs.len() && 0 <= k < bs[i].records.len() ==> bs[i].records[k].start_time
                == bs[i].start_time
        &&& forall|i: int| 0 <= i < bs.len() ==> bs[i].records.len() > 0
        &&& (self.spec_min_from() is None <==> bs.len() == 0)
        &&& (self.spec_max_to() is None <==> bs.len() == 0)
    }

    /// An empty aggregate.
    pub fn new() -> (r: CourseSpan)
        ensures
            r.wf(),
            r.spec_buckets().len() == 0,
            r.spec_min_from() is None,
            r.spec_max_to() is None,
    {
        let r = CourseSpan { buckets: Vec::new(), min_from: None, max_to: None };
        proof {
            assert(r.spec_buckets() =~= Seq::<BucketModel>::empty());
        }
        r
    }

    /// How the least-start extremum moves when a record with start time
    /// `start` is inserted.
    pub open spec fn spec_new_min(old_min: Option<ClockTime>, start: ClockTime) -> Option<
        ClockTime,
    > {
        match old_min {
            Option::None => Some(start),
            Option::Some(m) => if start.spec_seconds() < m.spec_seconds() {
                Some(start)
            } else {
                Some(m)
            },
        }
    }

    /// How the greatest-end extremum moves when a record with end time
    /// `end` is inserted.
    pub open spec fn spec_new_max(old_max: Option<ClockTime>, end: ClockTime) -> Option<
        ClockTime,
    > {
        match old_max {
            Option::None => Some(end),
            Option::Some(m) => if end.spec_seconds() > m.spec_seconds() {
                Some(end)
            } else {
                Some(m)
            },
        }
    }

    /// File a record under its start time — into the existing bucket for
    /// that time if there is one, else into a fresh bucket at the end —
    /// and widen the extrema to cover it.
    pub fn insert_course_record(&mut self, record: CourseRecord)
        requires
            old(self).wf(),
        ensures
            final(self).wf(),
            final(self).spec_min_from() == CourseSpan::spec_new_min(
                old(self).spec_min_from(),
                record.start_time,
            ),
            final(self).spec_max_to() == CourseSpan::spec_new_max(
                old(self).spec_max_to(),
                record.end_time,
            ),
            ({
                let bs = old(self).spec_buckets();
                let bs2 = final(self).spec_buckets();
                if exists|k: int| 0 <= k < bs.len() && bs[k].start_time == record.start_time {
                    let k = choose|k: int|
                        0 <= k < bs.len() && bs[k].start_time == record.start_time;
                    bs2 == bs.update(
                        k,
                        BucketModel {
                            start_time: bs[k].start_time,
                            records: bs[k].records.push(record@),
                        },
                    )
                } else {
                    bs2 == bs.push(
                        BucketModel { start_time: record.start_time, records: seq![record@] },
                    )
                }
            }),
    {
        let ghost bs = self.spec_buckets();
        let start = record.start_time;
        let end = record.end_time;
        let n = self.buckets.len();
        let mut k: usize = 0;
        while k < n && !(self.buckets[k].start_time == start)
            invariant
                0 <= k <= n,
                n == self.buckets@.len(),
                bs == self.spec_buckets(),
                forall|j: int| 0 <= j < k ==> bs[j].start_time != start,
            decreases n - k,
        {
            k += 1;
        }
        if k < n {
            proof {
                assert(bs[k as int].start_time == start);
            }
            let bucket = &mut self.buckets[k];
            bucket.records.push(record);
            proof {
                let newbs = self.spec_buckets();
                assert(newbs[k as int].records =~= bs[k as int].records.push(record@));
                assert(newbs =~~= bs.update(
                    k as int,
                    BucketModel {
                        start_time: bs[k as int].start_time,
                        records: bs[k as int].records.push(record@),
                    },
                ));
                let w = choose|w: int| 0 <= w < bs.len() && bs[w].start_time == start;
                assert(w == k as int);
            }
        } else {
            let mut records: Vec<CourseRecord> = Vec::new();
            records.push(record);
            self.buckets.push(SpanBucket { start_time: start, records });
            proof {
                assert(forall|j: int| 0 <= j < bs.len() ==> bs[j].start_time != start);
                let newbs = self.spec_buckets();
                assert(newbs[bs.len() as int].records =~= seq![record@]);
                assert(newbs =~~= bs.push(
                    BucketModel { start_time: start, records: seq![record@] },
                ));
            }
        }
        let new_min = match self.min_from {
            Option::None => Some(start),
            Option::Some(m) => if start.lt(&m) {
                Some(start)
            } else {
                Some(m)
            },
        };
        let new_max = match self.max_to {
            Option::None => Some(end),
            Option::Some(m) => if m.lt(&end) {
                Some(end)
            } else {
                Some(m)
            },
        };
        self.min_from = new_min;
        self.max_to = new_max;
    }

    /// The inclusive count of hour-sized grid rows needed to cover every
    /// record seen: zero when nothing was inserted, else one more than
    /// the difference of the extremal hours. A malformed span whose
    /// greatest end sits in an earlier hour than its least start also
    /// yields zero.
    pub fn get_period_count(&self) -> (r: u32)
        ensures
            (self.spec_min_from() is None || self.spec_max_to() is None) ==> r == 0,
            (self.spec_min_from() is Some && self.spec_max_to() is Some) ==> r == ({
                let a = self.spec_min_from()->Some_0;
                let b = self.spec_max_to()->Some_0;
                if b.hour >= a.hour {
                    b.hour - a.hour + 1
                } else {
                    0
                }
            }),
    {
        match (&self.min_from, &self.max_to) {
            (Some(a), Some(b)) => {
                if b.hour >= a.hour {
                    (b.hour - a.hour) as u32 + 1
                } else {
                    0
                }
            },
            _ => 0,
        }
    }

    /// How many distinct start times have been seen.
    pub fn bucket_count(&self) -> (r: usize)
        ensures
            r == self.spec_buckets().len(),
    {
        self.buckets.len()
    }

    /// The bucket at a position, for iteration by the presentation layer.
    pub fn bucket_at(&self, i: usize) -> (r: &SpanBucket)
        requires
            i < self.spec_buckets().len(),
        ensures
            r@ == self.spec_buckets()[i as int],
    {
        &self.buckets[i]
    }
}

/// Mathematical image of a whole aggregate: the bucket table plus the
/// two extrema.
#[verifier::ext_equal]
pub ghost struct SpanModel {
    pub buckets: Seq<BucketModel>,
    pub min_from: Option<ClockTime>,
    pub max_to: Option<ClockTime>,
}

impl CourseSpan {
    /// The whole aggregate as one value.
    pub open spec fn model(self) -> SpanModel {
        SpanModel {
            buckets: self.spec_buckets(),
            min_from: self.spec_min_from(),
            max_to: self.spec_max_to(),
        }
    }
}

/// The aggregate before any insertion.
pub open spec fn spec_empty_span() -> SpanModel {
    SpanModel { buckets: Seq::empty(), min_from: None, max_to: None }
}

/// One insertion, at the model level: the record joins its start time's
/// bucket, or opens a fresh one at the end, and the extrema widen.
pub open spec fn spec_span_insert(m: SpanModel, r: RecordModel) -> SpanModel {
    let bs = m.buckets;
    let bs2 = if exists|k: int| 0 <= k < bs.len() && bs[k].start_time == r.start_time {
        let k = choose|k: int| 0 <= k < bs.len() && bs[k].start_time == r.start_time;
        bs.update(k, BucketModel { start_time: bs[k].start_time, records: bs[k].records.push(r) })
    } else {
        bs.push(BucketModel { start_time: r.start_time, records: seq![r] })
    };
    SpanModel {
        buckets: bs2,
        min_from: CourseSpan::spec_new_min(m.min_from, r.start_time),
        max_to: CourseSpan::spec_new_max(m.max_to, r.end_time),
    }
}

/// The aggregate a record sequence folds into, in order.
pub open spec fn spec_span_of_records(recs: Seq<RecordModel>) -> SpanModel
    decreases recs.len(),
{
    if recs.len() == 0 {
        spec_empty_span()
    } else {
        spec_span_insert(spec_span_of_records(recs.drop_last()), recs.last())
    }
}

/// Extrema law: folding records into an aggregate leaves `min_from`
/// holding the least start time observed and `max_to` the greatest end
/// time observed, and both are present exactly when records are.
pub proof fn lemma_span_extrema(recs: Seq<RecordModel>)
    ensures
        spec_span_of_records(recs).min_from is None <==> recs.len() == 0,
        spec_span_of_records(recs).max_to is None <==> recs.len() == 0,
        recs.len() > 0 ==> ({
            let m = spec_span_of_records(recs).min_from->0;
            (forall|i: int|
                0 <= i < recs.len() ==> m.spec_seconds() <= (
                #[trigger] recs[i]).start_time.spec_seconds()) && (exists|i: int|
                0 <= i < recs.len() && (#[trigger] recs[i]).start_time == m)
        }),
        recs.len() > 0 ==> ({
            let m = spec_span_of_records(recs).max_to->0;
            (forall|i: int|
                0 <= i < recs.len() ==> (#[trigger] recs[i]).end_time.spec_seconds()
                    <= m.spec_seconds()) && (exists|i: int|
                0 <= i < recs.len() && (#[trigger] recs[i]).end_time == m)
        }),
    decreases recs.len(),
{
    if recs.len() > 0 {
        let s0 = recs.drop_last();
        lemma_span_extrema(s0);
        assert(forall|i: int| 0 <= i < s0.len() ==> s0[i] == recs[i]);
        let last = recs.last();
        let m = spec_span_of_records(recs).min_from->0;
        let x = spec_span_of_records(recs).max_to->0;
        if s0.len() == 0 {
            assert(m == last.start_time);
            assert(recs[0] == last);
        } else {
            let m0 = spec_span_of_records(s0).min_from->0;
            assert forall|i: int| 0 <= i < recs.len() implies m.spec_seconds() <= (
            #[trigger] recs[i]).start_time.spec_seconds() by {
                if i < s0.len() {
                    assert(s0[i] == recs[i]);
                }
            }
            if m == last.start_time {
                assert(recs[recs.len() - 1].start_time == m);
            } else {
                assert(m == m0);
                let w = choose|i: int| 0 <= i < s0.len() && (#[trigger] s0[i]).start_time == m0;
                assert(recs[w].start_time == m);
            }
            let x0 = spec_span_of_records(s0).max_to->0;
            assert forall|i: int| 0 <= i < recs.len() implies (
            #[trigger] recs[i]).end_time.spec_seconds() <= x.spec_seconds() by {
                if i < s0.len() {
                    assert(s0[i] == recs[i]);
                }
            }
            if x == last.end_time {
                assert(recs[recs.len() - 1].end_time == x);
            } else {
                assert(x == x0);
                let w = choose|i: int| 0 <= i < s0.len() && (#[trigger] s0[i]).end_time == x0;
                assert(recs[w].end_time == x);
            }
        }
    }
}

/// The records scheduled on one weekday, in table order.
pub open spec fn spec_day_records(recs: Seq<RecordModel>, day: Weekday) -> Seq<RecordModel>
    decreases recs.len(),
{
    if recs.len() == 0 {
        Seq::empty()
    } else {
        spec_day_records(recs.drop_last(), day) + (if recs.last().day == day {
            seq![recs.last()]
        } else {
            Seq::empty()
        })
    }
}

/// The records' mathematical image.
pub open spec fn span_recs_view(recs: Seq<CourseRecord>) -> Seq<RecordModel> {
    recs.map(|i: int, r: CourseRecord| r@)
}

/// Build one aggregate per weekday that holds records, ascending from
/// the week's first day; each day's aggregate is exactly the fold of
/// that day's records in table order.
pub fn build_day_spans(records: &Vec<CourseRecord>) -> (r: Vec<(Weekday, CourseSpan)>)
    ensures
        forall|k: int| 0 <= k < r@.len() ==> (#[trigger] r@[k]).1.wf(),
        forall|k1: int, k2: int|
            0 <= k1 < k2 < r@.len() ==> (#[trigger] r@[k1]).0.spec_index() < (
            #[trigger] r@[k2]).0.spec_index(),
        forall|k: int|
            0 <= k < r@.len() ==> (#[trigger] r@[k]).1.model() == spec_span_of_records(
                spec_day_records(span_recs_view(records@), r@[k].0),
            ),
        forall|k: int|
            0 <= k < r@.len() ==> spec_day_records(
                span_recs_view(records@),
                (#[trigger] r@[k]).0,
            ).len() > 0,
        forall|d: Weekday|
            #[trigger] spec_day_records(span_recs_view(records@), d).len() > 0 ==> exists|k: int|
                0 <= k < r@.len() && (#[trigger] r@[k]).0 == d,
{
    let ghost rv = span_recs_view(records@);
    let mut out: Vec<(Weekday, CourseSpan)> = Vec::new();
    let mut d: u8 = 0;
    while d < 7
        invariant
            0 <= d <= 7,
            rv == span_recs_view(records@),
            forall|k: int| 0 <= k < out@.len() ==> (#[trigger] out@[k]).0.spec_index() < d,
            forall|k1: int, k2: int|
                0 <= k1 < k2 < out@.len() ==> (#[trigger] out@[k1]).0.spec_index() < (
                #[trigger] out@[k2]).0.spec_index(),
            forall|k: int| 0 <= k < out@.len() ==> (#[trigger] out@[k]).1.wf(),
            forall|k: int|
                0 <= k < out@.len() ==> (#[trigger] out@[k]).1.model() == spec_span_of_records(
                    spec_day_records(rv, out@[k].0),
                ),
            forall|k: int|
                0 <= k < out@.len() ==> spec_day_records(rv, (#[trigger] out@[k]).0).len() > 0,
            forall|dd: Weekday|
                dd.spec_index() < d && #[trigger] spec_day_records(rv, dd).len() > 0 ==> exists|
                    k: int,
                |
                    0 <= k < out@.len() && (#[trigger] out@[k]).0 == dd,
        decreases 7 - d,
    {
        let day = Weekday::from_index(d).unwrap();
        let mut span = CourseSpan::new();
        let mut any = false;
        let n = records.len();
        let mut i: usize = 0;
        proof {
            assert(rv.take(0) =~= Seq::<RecordModel>::empty());
            assert(span.model() =~~= spec_span_of_records(spec_day_records(rv.take(0), day)));
        }
        while i < n
            invariant
                0 <= i <= n,
                n == records@.len(),
                rv == span_recs_view(records@),
                day.spec_index() == d,
                span.wf(),
                span.model() == spec_span_of_records(spec_day_records(rv.take(i as int), day)),
                any == (spec_day_records(rv.take(i as int), day).len() > 0),
            decreases n - i,
        {
            let ghost pre = rv.take(i as int);
            let ghost cur = rv.take(i as int + 1);
            proof {
                assert(cur.drop_last() =~= pre);
                assert(cur.last() == rv[i as int]);
                assert(rv[i as int] == records@[i as int]@);
            }
            let rec = &records[i];
            if rec.day == day {
                let copy = rec.clone();
                let ghost before = span.model();
                span.insert_course_record(copy);
                any = true;
                proof {
                    assert(spec_day_records(cur, day) =~= spec_day_records(pre, day).push(
                        rv[i as int],
                    ));
                    let s = spec_day_records(pre, day);
                    assert(spec_day_records(cur, day).drop_last() =~= s);
                    assert(span.model() =~~= spec_span_insert(before, rv[i as int]));
                }
            } else {
                proof {
                    assert(spec_day_records(cur, day) =~= spec_day_records(pre, day));
                }
            }
            i += 1;
        }
        proof {
            assert(rv.take(n as int) =~= rv);
        }
        let ghost out_before = out@;
        if any {
            out.push((day, span));
        }
        proof {
            if any {
                assert(forall|k: int|
                    0 <= k < out_before.len() ==> out@[k] == out_before[k]);
                assert(out@[out_before.len() as int].0 == day);
            }
            assert forall|dd: Weekday|
                dd.spec_index() < d + 1 && #[trigger] spec_day_records(rv, dd).len()
                    > 0 implies exists|k: int| 0 <= k < out@.len() && (#[trigger] out@[k]).0
                == dd by {
                if dd.spec_index() < d {
                    let k = choose|k: int|
                        0 <= k < out_before.len() && (#[trigger] out_before[k]).0 == dd;
                    assert(out@[k].0 == dd);
                } else {
                    assert(dd == day);
                    assert(out@[out_before.len() as int].0 == dd);
                }
            }
        }
        d += 1;
    }
    proof {
        assert forall|dd: Weekday| #[trigger] spec_day_records(rv, dd).len() > 0 implies exists|
            k: int,
        | 0 <= k < out@.len() && (#[trigger] out@[k]).0 == dd by {
            assert(dd.spec_index() < 7);
        }
    }
    out
}

} // verus!
