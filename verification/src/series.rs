//! Series extraction: raw labeled sample lists become uniquely-labeled
//! series; series without points are dropped.

use vstd::prelude::*;

use crate::labels::{derive_label, label_text, lemma_filter_push, pairs_view, LabelPair, PairV};

verus! {

/// One sample: a timestamp and a value, both in fixed-point
/// thousandths.
#[derive(Clone, Copy, PartialEq, Eq, Structural, Debug)]
pub struct Sample {
    pub ts: i64,
    pub val: i64,
}

/// One raw labeled range-vector: its label set and its samples, in
/// source order.
pub struct RawSeries {
    pub labels: Vec<LabelPair>,
    pub samples: Vec<Sample>,
}

/// A normalized series: its derived label and its points, in source
/// order.
pub struct Series {
    pub label: String,
    pub points: Vec<Sample>,
}

/// The mathematical content of a raw series.
pub type RawV = (Seq<PairV>, Seq<Sample>);

/// The mathematical content of a normalized series.
pub type SeriesV = (Seq<char>, Seq<Sample>);

impl View for RawSeries {
    type V = RawV;

    open spec fn view(&self) -> RawV {
        (pairs_view(self.labels@), self.samples@)
    }
}

impl View for Series {
    type V = SeriesV;

    open spec fn view(&self) -> SeriesV {
        (self.label@, self.points@)
    }
}

/// The views of a list of raw series.
pub open spec fn raw_views(s: Seq<RawSeries>) -> Seq<RawV> {
    s.map_values(|x: RawSeries| x@)
}

/// The views of a list of normalized series.
pub open spec fn series_views(s: Seq<Series>) -> Seq<SeriesV> {
    s.map_values(|x: Series| x@)
}

/// Normalizing one raw series: its label is derived, its samples kept.
pub open spec fn to_series() -> spec_fn(RawV) -> SeriesV {
    |r: RawV| (label_text(r.0), r.1)
}

/// A series that has at least one point.
pub open spec fn has_points() -> spec_fn(SeriesV) -> bool {
    |s: SeriesV| s.1.len() != 0
}

/// What extraction yields: every raw series normalized, in order, with
/// pointless series dropped.
pub open spec fn extracted(input: Seq<RawV>) -> Seq<SeriesV> {
    input.map_values(to_series()).filter(has_points())
}

/// Copies a list of samples.
pub(crate) fn copy_samples(src: &Vec<Sample>) -> (out: Vec<Sample>)
    ensures
        out@ == src@,
{
    let mut out: Vec<Sample> = Vec::new();
    let mut i: usize = 0;
    proof {
        assert(out@ =~= src@.take(0));
    }
    while i < src.len()
        invariant
            i <= src@.len(),
            out@ == src@.take(i as int),
        decreases src@.len() - i,
    {
        out.push(src[i]);
        proof {
            assert(src@.take(i as int).push(src@[i as int]) =~= src@.take(i as int + 1));
        }
        i += 1;
    }
    proof {
        assert(src@.take(src@.len() as int) =~= src@);
    }
    out
}

/// Extracts normalized series from raw labeled range-vectors: each
/// gets its derived label and keeps its samples in order; series
/// without points are dropped. Extraction is total: no input fails,
/// and no input yields an error.
pub fn extract_series(input: &Vec<RawSeries>) -> (out: Vec<Series>)
    ensures
        series_views(out@) == extracted(raw_views(input@)),
{
    let ghost whole: Seq<RawV> = raw_views(input@);
    let mut out: Vec<Series> = Vec::new();
    let mut i: usize = 0;
    proof {
        reveal(Seq::filter);
        assert(series_views(out@) =~= Seq::<SeriesV>::empty());
        assert(whole.take(0) =~= Seq::<RawV>::empty());
        assert(whole.take(0).map_values(to_series()) =~= Seq::<SeriesV>::empty());
    }
    while i < input.len()
        invariant
            i <= input@.len(),
            whole == raw_views(input@),
            series_views(out@) == extracted(whole.take(i as int)),
        decreases input@.len() - i,
    {
        let label = derive_label(&input[i].labels);
        let pts = copy_samples(&input[i].samples);
        let ghost sv: SeriesV = (label@, pts@);
        proof {
            assert(whole[i as int] == input@[i as int]@);
            assert(sv == to_series()(whole[i as int]));
            assert(whole.take(i as int + 1) =~= whole.take(i as int).push(whole[i as int]));
            assert(whole.take(i as int + 1).map_values(to_series()) =~= whole.take(
                i as int,
            ).map_values(to_series()).push(sv));
            lemma_filter_push(whole.take(i as int).map_values(to_series()), sv, has_points());
        }
        if pts.len() > 0 {
            let ghost out_before: Seq<Series> = out@;
            let s = Series { label, points: pts };
            out.push(s);
            proof {
                assert(series_views(out_before.push(s)) =~= series_views(out_before).push(s@));
            }
        }
        i += 1;
    }
    proof {
        assert(whole.take(input@.len() as int) =~= whole);
    }
    out
}

/// The least value among the samples.
pub open spec fn min_val_of(s: Seq<Sample>) -> int
    recommends
        s.len() > 0,
    decreases s.len(),
{
    if s.len() <= 1 {
        s[0].val as int
    } else {
        let m = min_val_of(s.drop_last());
        if (s.last().val as int) < m {
            s.last().val as int
        } else {
            m
        }
    }
}

/// The greatest value among the samples.
pub open spec fn max_val_of(s: Seq<Sample>) -> int
    recommends
        s.len() > 0,
    decreases s.len(),
{
    if s.len() <= 1 {
        s[0].val as int
    } else {
        let m = max_val_of(s.drop_last());
        if (s.last().val as int) > m {
            s.last().val as int
        } else {
            m
        }
    }
}

/// The least timestamp among the samples.
pub open spec fn min_ts_of(s: Seq<Sample>) -> int
    recommends
        s.len() > 0,
    decreases s.len(),
{
    if s.len() <= 1 {
        s[0].ts as int
    } else {
        let m = min_ts_of(s.drop_last());
        if (s.last().ts as int) < m {
            s.last().ts as int
        } else {
            m
        }
    }
}

/// The greatest timestamp among the samples.
pub open spec fn max_ts_of(s: Seq<Sample>) -> int
    recommends
        s.len() > 0,
    decreases s.len(),
{
    if s.len() <= 1 {
        s[0].ts as int
    } else {
        let m = max_ts_of(s.drop_last());
        if (s.last().ts as int) > m {
            s.last().ts as int
        } else {
            m
        }
    }
}

/// The four extrema are attained by samples and bound all samples.
pub proof fn lemma_extrema(s: Seq<Sample>)
    requires
        s.len() > 0,
    ensures
        forall|i: int|
            0 <= i < s.len() ==> min_val_of(s) <= #[trigger] s[i].val
                && s[i].val <= max_val_of(s) && min_ts_of(s) <= s[i].ts && s[i].ts <= max_ts_of(s),
        exists|i: int| 0 <= i < s.len() && s[i].val == min_val_of(s),
        exists|i: int| 0 <= i < s.len() && s[i].val == max_val_of(s),
        exists|i: int| 0 <= i < s.len() && s[i].ts == min_ts_of(s),
        exists|i: int| 0 <= i < s.len() && s[i].ts == max_ts_of(s),
    decreases s.len(),
{
    let n = s.len() - 1;
    if s.len() == 1 {
        assert(s[0].val == min_val_of(s));
        assert(s[0].val == max_val_of(s));
        assert(s[0].ts == min_ts_of(s));
        assert(s[0].ts == max_ts_of(s));
    } else {
        let dl = s.drop_last();
        lemma_extrema(dl);
        assert(s.last() == s[n]);
        assert forall|i: int|
            0 <= i < s.len() implies min_val_of(s) <= #[trigger] s[i].val
                && s[i].val <= max_val_of(s) && min_ts_of(s) <= s[i].ts && s[i].ts
                <= max_ts_of(s) by {
            if i < n {
                assert(dl[i] == s[i]);
            }
        }
        if (s[n].val as int) < min_val_of(dl) {
            assert(s[n].val == min_val_of(s));
        } else {
            let j = choose|j: int| 0 <= j < dl.len() && dl[j].val == min_val_of(dl);
            assert(s[j].val == min_val_of(s));
        }
        if (s[n].val as int) > max_val_of(dl) {
            assert(s[n].val == max_val_of(s));
        } else {
            let j = choose|j: int| 0 <= j < dl.len() && dl[j].val == max_val_of(dl);
            assert(s[j].val == max_val_of(s));
        }
        if (s[n].ts as int) < min_ts_of(dl) {
            assert(s[n].ts == min_ts_of(s));
        } else {
            let j = choose|j: int| 0 <= j < dl.len() && dl[j].ts == min_ts_of(dl);
            assert(s[j].ts == min_ts_of(s));
        }
        if (s[n].ts as int) > max_ts_of(dl) {
            assert(s[n].ts == max_ts_of(s));
        } else {
            let j = choose|j: int| 0 <= j < dl.len() && dl[j].ts == max_ts_of(dl);
            assert(s[j].ts == max_ts_of(s));
        }
    }
}

/// Per-series legend statistics: least value, greatest value, and the
/// value of the last point.
#[derive(Clone, Copy, PartialEq, Eq, Structural, Debug)]
pub struct SeriesStats {
    pub min_val: i64,
    pub max_val: i64,
    pub last: i64,
}

impl Series {
    /// Summary statistics over the series' own points, for the legend:
    /// the least and greatest value, and the last point's value.
    pub fn stats(&self) -> (st: SeriesStats)
        requires
            self.points@.len() > 0,
        ensures
            st.min_val == min_val_of(self.points@),
            st.max_val == max_val_of(self.points@),
            st.last == self.points@.last().val,
    {
        let pts = &self.points;
        let mut lo: i64 = pts[0].val;
        let mut hi: i64 = pts[0].val;
        let mut i: usize = 1;
        while i < pts.len()
            invariant
                1 <= i <= pts@.len(),
                pts@.len() > 0,
                lo == min_val_of(pts@.take(i as int)),
                hi == max_val_of(pts@.take(i as int)),
            decreases pts@.len() - i,
        {
            proof {
                let t = pts@.take(i as int + 1);
                assert(t.drop_last() =~= pts@.take(i as int));
                assert(t.last() == pts@[i as int]);
            }
            if pts[i].val < lo {
                lo = pts[i].val;
            }
            if pts[i].val > hi {
                hi = pts[i].val;
            }
            i += 1;
        }
        proof {
            assert(pts@.take(pts@.len() as int) =~= pts@);
        }
        SeriesStats { min_val: lo, max_val: hi, last: pts[pts.len() - 1].val }
    }
}

} // verus!
