//! The static terminal chart: raw data becomes a chart plan that a
//! text-canvas renderer draws. The plan fixes the canvas size, the
//! padded value range, the shared chart-index domain, and one colored,
//! labeled, resampling-ready trace per series.

use vstd::prelude::*;

use crate::bounds::{
    g_max_ts, g_max_val, g_min_ts, g_min_val, global_bounds, lemma_global_extrema, pad_y,
    padded_hi, padded_lo,
};
use crate::color::{color_for, spec_color_for};
use crate::labels::lemma_filter_elem;
use crate::numtext::{dec_text, push_dec};
use crate::resample::{samples_ok, Resampler};
use crate::series::{
    copy_samples, extract_series, extracted, has_points, raw_views, series_views, to_series,
    RawSeries, Series, SeriesV,
};

verus! {

/// The static terminal chart backend: a fixed-size text canvas.
pub struct BackendTextplots {
    pub width: u32,
    pub height: u32,
}

impl BackendTextplots {
    /// Makes a backend for a canvas of the given size.
    pub fn new(width: u32, height: u32) -> (b: Self)
        ensures
            b.width == width,
            b.height == height,
    {
        Self { width, height }
    }
}

/// One trace of the chart: a labeled, colored series with its
/// resampler, and its line of the series listing.
pub struct Trace {
    pub label: String,
    pub color: (u8, u8, u8),
    pub line: String,
    pub sampler: Resampler,
}

/// Everything a renderer needs to draw the chart.
pub struct ChartContent {
    pub width: u32,
    pub height: u32,
    pub y_lo: i64,
    pub y_hi: i64,
    pub domain: usize,
    pub heading: String,
    pub message: String,
    pub traces: Vec<Trace>,
}

/// The outcome of planning a chart: no input at all, no series with
/// points, or a drawable chart.
pub enum ChartPlan {
    NoData,
    NoValidPoints,
    Chart(ChartContent),
}

/// The heading printed before the series listing.
pub open spec fn heading_text(n: int) -> Seq<char> {
    "Plotting "@ + dec_text(n) + " series:"@
}

/// The summary returned after a successful render.
pub open spec fn message_text(n: int) -> Seq<char> {
    "Displayed "@ + dec_text(n) + " series"@
}

/// One line of the series listing: label, point count and color.
pub open spec fn trace_line_text(label: Seq<char>, n: int, c: (u8, u8, u8)) -> Seq<char> {
    "- "@ + label + ": "@ + dec_text(n) + " points (color: RGB("@ + dec_text(c.0 as int) + ", "@
        + dec_text(c.1 as int) + ", "@ + dec_text(c.2 as int) + "))"@
}

/// The largest point count across the series: the size of the shared
/// chart-index domain.
pub open spec fn max_len(ss: Seq<SeriesV>) -> int
    decreases ss.len(),
{
    if ss.len() == 0 {
        0
    } else {
        let m = max_len(ss.drop_last());
        if ss.last().1.len() > m {
            ss.last().1.len() as int
        } else {
            m
        }
    }
}

/// One trace drawn faithfully from the series at position `k`.
pub open spec fn trace_ok(t: Trace, ex: Seq<SeriesV>, k: int) -> bool {
    &&& t.label@ == ex[k].0
    &&& t.color == spec_color_for(k)
    &&& t.line@ == trace_line_text(ex[k].0, ex[k].1.len() as int, spec_color_for(k))
    &&& t.sampler.points@ == ex[k].1
    &&& t.sampler.domain == max_len(ex)
    &&& t.sampler.tmin == g_min_ts(ex)
    &&& t.sampler.tmax == g_max_ts(ex)
    &&& t.sampler.wf()
}

/// A chart drawn faithfully from the extracted series `ex`.
pub open spec fn content_ok(c: ChartContent, width: u32, height: u32, ex: Seq<SeriesV>) -> bool {
    &&& c.width == width
    &&& c.height == height
    &&& c.domain == max_len(ex)
    &&& c.y_lo == padded_lo(g_min_val(ex), g_max_val(ex))
    &&& c.y_hi == padded_hi(g_min_val(ex), g_max_val(ex))
    &&& c.y_lo < c.y_hi
    &&& c.heading@ == heading_text(ex.len() as int)
    &&& c.message@ == message_text(ex.len() as int)
    &&& c.traces@.len() == ex.len()
    &&& forall|k: int| 0 <= k < ex.len() ==> trace_ok(#[trigger] c.traces@[k], ex, k)
}

/// Computes the largest point count across the series.
fn max_points(series: &Vec<Series>) -> (n: usize)
    ensures
        n == max_len(series_views(series@)),
{
    let ghost whole: Seq<SeriesV> = series_views(series@);
    let mut n: usize = 0;
    let mut i: usize = 0;
    proof {
        assert(whole.take(0) =~= Seq::<SeriesV>::empty());
    }
    while i < series.len()
        invariant
            i <= series@.len(),
            whole == series_views(series@),
            n == max_len(whole.take(i as int)),
        decreases series@.len() - i,
    {
        proof {
            let t = whole.take(i as int + 1);
            assert(t.drop_last() =~= whole.take(i as int));
            assert(t.last() == whole[i as int]);
            assert(whole[i as int].1 == series@[i as int].points@);
        }
        if series[i].points.len() > n {
            n = series[i].points.len();
        }
        i += 1;
    }
    proof {
        assert(whole.take(series@.len() as int) =~= whole);
    }
    n
}

/// Builds the heading line of the series listing.
fn heading_string(n: u64) -> (out: String)
    ensures
        out@ == heading_text(n as int),
{
    let mut out = String::new();
    out.append("Plotting ");
    push_dec(&mut out, n);
    out.append(" series:");
    proof {
        assert(out@ =~= heading_text(n as int));
    }
    out
}

/// Builds the render summary.
fn message_string(n: u64) -> (out: String)
    ensures
        out@ == message_text(n as int),
{
    let mut out = String::new();
    out.append("Displayed ");
    push_dec(&mut out, n);
    out.append(" series");
    proof {
        assert(out@ =~= message_text(n as int));
    }
    out
}

/// Builds one line of the series listing.
fn trace_line_string(label: &str, n: u64, c: (u8, u8, u8)) -> (out: String)
    ensures
        out@ == trace_line_text(label@, n as int, c),
{
    let mut out = String::new();
    out.append("- ");
    out.append(label);
    out.append(": ");
    push_dec(&mut out, n);
    out.append(" points (color: RGB(");
    push_dec(&mut out, c.0 as u64);
    out.append(", ");
    push_dec(&mut out, c.1 as u64);
    out.append(", ");
    push_dec(&mut out, c.2 as u64);
    out.append("))");
    proof {
        assert(out@ =~= trace_line_text(label@, n as int, c));
    }
    out
}

impl BackendTextplots {
    /// Plans the chart for the given raw data: empty input yields the
    /// no-data outcome; input whose every series lacks points yields
    /// the no-valid-points outcome; anything else yields a chart whose
    /// traces carry the extracted series in order, each with its color
    /// by ordinal and a resampler over the shared domain and the global
    /// time bounds, under the padded global value bounds.
    pub fn generate_plan(&self, data: &Vec<RawSeries>) -> (p: ChartPlan)
        requires
            forall|i: int| 0 <= i < data@.len() ==> samples_ok(#[trigger] data@[i].samples@),
        ensures
            data@.len() == 0 ==> p is NoData,
            data@.len() > 0 && extracted(raw_views(data@)).len() == 0 ==> p is NoValidPoints,
            data@.len() > 0 && extracted(raw_views(data@)).len() > 0 ==> (p matches ChartPlan::Chart(
                c,
            ) && content_ok(c, self.width, self.height, extracted(raw_views(data@)))),
    {
        if data.len() == 0 {
            return ChartPlan::NoData;
        }
        let series = extract_series(data);
        let ghost ex: Seq<SeriesV> = extracted(raw_views(data@));
        if series.len() == 0 {
            return ChartPlan::NoValidPoints;
        }
        proof {
            assert forall|i: int|
                0 <= i < series@.len() implies (#[trigger] series@[i].points@).len() > 0
                    && samples_ok(series@[i].points@) by {
                let mapped = raw_views(data@).map_values(to_series());
                lemma_filter_elem(mapped, has_points(), i);
                let x = ex[i];
                let j = choose|j: int| 0 <= j < mapped.len() && mapped[j] == x;
                assert(mapped[j] == to_series()(raw_views(data@)[j]));
                assert(raw_views(data@)[j] == data@[j]@);
                assert(x.1 == data@[j].samples@);
                assert(series_views(series@)[i] == x);
                assert(series@[i].points@ == x.1);
            }
            lemma_global_extrema(series_views(series@));
            assert(series_views(series@) == ex);
        }
        let b = global_bounds(&series);
        let (y_lo, y_hi) = pad_y(b.ymin, b.ymax);
        let domain = max_points(&series);
        let heading = heading_string(series.len() as u64);
        let message = message_string(series.len() as u64);
        let mut traces: Vec<Trace> = Vec::new();
        let mut i: usize = 0;
        while i < series.len()
            invariant
                i <= series@.len(),
                ex == series_views(series@),
                traces@.len() == i,
                forall|k: int| 0 <= k < i ==> trace_ok(#[trigger] traces@[k], ex, k),
                b.xmin == g_min_ts(ex),
                b.xmax == g_max_ts(ex),
                domain == max_len(ex),
                b.xmin <= b.xmax,
                forall|k: int|
                    0 <= k < series@.len() ==> (#[trigger] series@[k].points@).len() > 0
                        && samples_ok(series@[k].points@),
                crate::fixed::coord_ok(b.xmin as int),
                crate::fixed::coord_ok(b.xmax as int),
            decreases series@.len() - i,
        {
            proof {
                assert(series_views(series@)[i as int] == series@[i as int]@);
            }
            let color = color_for(i);
            let line = trace_line_string(
                series[i].label.as_str(),
                series[i].points.len() as u64,
                color,
            );
            let sampler = Resampler {
                points: copy_samples(&series[i].points),
                domain,
                tmin: b.xmin,
                tmax: b.xmax,
            };
            let t = Trace { label: series[i].label.clone(), color, line, sampler };
            traces.push(t);
            i += 1;
        }
        ChartPlan::Chart(
            ChartContent {
                width: self.width,
                height: self.height,
                y_lo,
                y_hi,
                domain,
                heading,
                message,
                traces,
            },
        )
    }
}


impl ChartContent {
    /// The trace whose timestamps label the time axis: the last trace
    /// with the most points, or nothing when the chart has no traces.
    pub fn densest_trace(&self) -> (r: Option<usize>)
        ensures
            (r is None) <==> self.traces@.len() == 0,
            r matches Some(i) ==> i < self.traces@.len() && (forall|k: int|
                0 <= k < self.traces@.len()
                    ==> (#[trigger] self.traces@[k]).sampler.points@.len()
                    <= self.traces@[i as int].sampler.points@.len()) && (forall|k: int|
                i < k < self.traces@.len()
                    ==> (#[trigger] self.traces@[k]).sampler.points@.len()
                    < self.traces@[i as int].sampler.points@.len()),
    {
        if self.traces.len() == 0 {
            return None;
        }
        let mut best: usize = 0;
        let mut i: usize = 1;
        while i < self.traces.len()
            invariant
                best < i <= self.traces@.len(),
                forall|k: int|
                    0 <= k < i ==> (#[trigger] self.traces@[k]).sampler.points@.len()
                        <= self.traces@[best as int].sampler.points@.len(),
                forall|k: int|
                    best < k < i ==> (#[trigger] self.traces@[k]).sampler.points@.len()
                        < self.traces@[best as int].sampler.points@.len(),
            decreases self.traces@.len() - i,
        {
            if self.traces[i].sampler.points.len() >= self.traces[best].sampler.points.len() {
                best = i;
            }
            i += 1;
        }
        Some(best)
    }
}

impl ChartPlan {
    /// The user-visible summary of the plan: the no-data or
    /// no-valid-points notice, or the chart's own summary.
    pub fn summary(&self) -> (m: String)
        ensures
            self is NoData ==> m@ == "No data"@,
            self is NoValidPoints ==> m@ == "No valid data points"@,
            self matches ChartPlan::Chart(c) ==> m@ == c.message@,
    {
        match self {
            ChartPlan::NoData => {
                let mut s = String::new();
                s.append("No data");
                proof {
                    assert(s@ =~= "No data"@);
                }
                s
            },
            ChartPlan::NoValidPoints => {
                let mut s = String::new();
                s.append("No valid data points");
                proof {
                    assert(s@ =~= "No valid data points"@);
                }
                s
            },
            ChartPlan::Chart(c) => c.message.clone(),
        }
    }
}

} // verus!
