//! Axis bounds: per-series and global min/max over both axes, and the
//! padding rule applied to the value axis before rendering.

use vstd::prelude::*;

use crate::fixed::{coord_ok, COORD_LIMIT, HALF_UNIT};
use crate::resample::samples_ok;
use crate::series::{
    lemma_extrema, max_ts_of, max_val_of, min_ts_of, min_val_of, series_views, Sample, Series,
    SeriesV,
};

verus! {

/// Axis bounds over one series or over all of them.
#[derive(Clone, Copy, PartialEq, Eq, Structural, Debug)]
pub struct Bounds {
    pub xmin: i64,
    pub xmax: i64,
    pub ymin: i64,
    pub ymax: i64,
}

/// Computes the bounds of one point list; an empty list yields the
/// all-zero bounds.
pub fn get_bounds(points: &Vec<Sample>) -> (b: Bounds)
    ensures
        points@.len() == 0 ==> b == (Bounds { xmin: 0, xmax: 0, ymin: 0, ymax: 0 }),
        points@.len() > 0 ==> b.xmin == min_ts_of(points@) && b.xmax == max_ts_of(points@)
            && b.ymin == min_val_of(points@) && b.ymax == max_val_of(points@),
{
    if points.len() == 0 {
        return Bounds { xmin: 0, xmax: 0, ymin: 0, ymax: 0 };
    }
    let mut b = Bounds {
        xmin: points[0].ts,
        xmax: points[0].ts,
        ymin: points[0].val,
        ymax: points[0].val,
    };
    let mut i: usize = 1;
    while i < points.len()
        invariant
            1 <= i <= points@.len(),
            points@.len() > 0,
            b.xmin == min_ts_of(points@.take(i as int)),
            b.xmax == max_ts_of(points@.take(i as int)),
            b.ymin == min_val_of(points@.take(i as int)),
            b.ymax == max_val_of(points@.take(i as int)),
        decreases points@.len() - i,
    {
        proof {
            let t = points@.take(i as int + 1);
            assert(t.drop_last() =~= points@.take(i as int));
            assert(t.last() == points@[i as int]);
        }
        if points[i].ts < b.xmin {
            b.xmin = points[i].ts;
        }
        if points[i].ts > b.xmax {
            b.xmax = points[i].ts;
        }
        if points[i].val < b.ymin {
            b.ymin = points[i].val;
        }
        if points[i].val > b.ymax {
            b.ymax = points[i].val;
        }
        i += 1;
    }
    proof {
        assert(points@.take(points@.len() as int) =~= points@);
    }
    b
}

/// The least value across a list of series.
pub open spec fn g_min_val(ss: Seq<SeriesV>) -> int
    recommends
        ss.len() > 0,
    decreases ss.len(),
{
    if ss.len() <= 1 {
        min_val_of(ss[0].1)
    } else {
        let m = g_min_val(ss.drop_last());
        let n = min_val_of(ss.last().1);
        if n < m {
            n
        } else {
            m
        }
    }
}

/// The greatest value across a list of series.
pub open spec fn g_max_val(ss: Seq<SeriesV>) -> int
    recommends
        ss.len() > 0,
    decreases ss.len(),
{
    if ss.len() <= 1 {
        max_val_of(ss[0].1)
    } else {
        let m = g_max_val(ss.drop_last());
        let n = max_val_of(ss.last().1);
        if n > m {
            n
        } else {
            m
        }
    }
}

/// The least timestamp across a list of series.
pub open spec fn g_min_ts(ss: Seq<SeriesV>) -> int
    recommends
        ss.len() > 0,
    decreases ss.len(),
{
    if ss.len() <= 1 {
        min_ts_of(ss[0].1)
    } else {
        let m = g_min_ts(ss.drop_last());
        let n = min_ts_of(ss.last().1);
        if n < m {
            n
        } else {
            m
        }
    }
}

/// The greatest timestamp across a list of series.
pub open spec fn g_max_ts(ss: Seq<SeriesV>) -> int
    recommends
        ss.len() > 0,
    decreases ss.len(),
{
    if ss.len() <= 1 {
        max_ts_of(ss[0].1)
    } else {
        let m = g_max_ts(ss.drop_last());
        let n = max_ts_of(ss.last().1);
        if n > m {
            n
        } else {
            m
        }
    }
}

/// Computes the global bounds across all series. Callers short-circuit
/// on an empty series list; pointless series never reach this stage.
pub fn global_bounds(series: &Vec<Series>) -> (b: Bounds)
    requires
        series@.len() > 0,
        forall|i: int| 0 <= i < series@.len() ==> #[trigger] series@[i].points@.len() > 0,
    ensures
        b.xmin == g_min_ts(series_views(series@)),
        b.xmax == g_max_ts(series_views(series@)),
        b.ymin == g_min_val(series_views(series@)),
        b.ymax == g_max_val(series_views(series@)),
{
    let ghost whole: Seq<SeriesV> = series_views(series@);
    let first = get_bounds(&series[0].points);
    let mut b = first;
    let mut i: usize = 1;
    proof {
        assert(whole.take(1) =~= seq![whole[0]]);
        assert(whole[0].1 == series@[0].points@);
    }
    while i < series.len()
        invariant
            1 <= i <= series@.len(),
            whole == series_views(series@),
            forall|k: int| 0 <= k < series@.len() ==> #[trigger] series@[k].points@.len() > 0,
            b.xmin == g_min_ts(whole.take(i as int)),
            b.xmax == g_max_ts(whole.take(i as int)),
            b.ymin == g_min_val(whole.take(i as int)),
            b.ymax == g_max_val(whole.take(i as int)),
        decreases series@.len() - i,
    {
        proof {
            let t = whole.take(i as int + 1);
            assert(t.drop_last() =~= whole.take(i as int));
            assert(t.last() == whole[i as int]);
            assert(whole[i as int].1 == series@[i as int].points@);
        }
        let sb = get_bounds(&series[i].points);
        if sb.xmin < b.xmin {
            b.xmin = sb.xmin;
        }
        if sb.xmax > b.xmax {
            b.xmax = sb.xmax;
        }
        if sb.ymin < b.ymin {
            b.ymin = sb.ymin;
        }
        if sb.ymax > b.ymax {
            b.ymax = sb.ymax;
        }
        i += 1;
    }
    proof {
        assert(whole.take(series@.len() as int) =~= whole);
    }
    b
}

/// The lower value bound after padding: half a unit below a degenerate
/// range, else one twentieth of the range (rounded toward zero) below.
pub open spec fn padded_lo(ymin: int, ymax: int) -> int {
    if ymax == ymin {
        ymin - HALF_UNIT
    } else {
        ymin - (ymax - ymin) / 20
    }
}

/// The upper value bound after padding.
pub open spec fn padded_hi(ymin: int, ymax: int) -> int {
    if ymax == ymin {
        ymax + HALF_UNIT
    } else {
        ymax + (ymax - ymin) / 20
    }
}

/// Pads the value bounds for rendering: a degenerate (zero-range) pair
/// widens by half a unit each way, any other pair by one twentieth of
/// its range each way. The result brackets the input and is never
/// degenerate.
pub fn pad_y(ymin: i64, ymax: i64) -> (r: (i64, i64))
    requires
        ymin <= ymax,
        coord_ok(ymin as int),
        coord_ok(ymax as int),
    ensures
        r.0 == padded_lo(ymin as int, ymax as int),
        r.1 == padded_hi(ymin as int, ymax as int),
        r.0 <= ymin,
        ymax <= r.1,
        r.0 < r.1,
{
    if ymax == ymin {
        (ymin - HALF_UNIT, ymax + HALF_UNIT)
    } else {
        let range = ymax - ymin;
        let pad = ((range as u64) / 20) as i64;
        proof {
            assert(range > 0);
            assert(range < 2 * COORD_LIMIT);
            assert(range as u64 == range as int);
            assert((range as u64) / 20 <= range as u64);
            assert(pad as int == (ymax - ymin) / 20);
        }
        (ymin - pad, ymax + pad)
    }
}

/// Law: for a series whose every value is the constant `v`, the padded
/// value bounds are exactly half a unit either side of `v`.
pub proof fn lemma_pad_constant_series(s: Seq<Sample>, v: i64)
    requires
        s.len() > 0,
        forall|i: int| 0 <= i < s.len() ==> #[trigger] s[i].val == v,
    ensures
        padded_lo(min_val_of(s), max_val_of(s)) == v - HALF_UNIT,
        padded_hi(min_val_of(s), max_val_of(s)) == v + HALF_UNIT,
{
    lemma_extrema(s);
    let j = choose|i: int| 0 <= i < s.len() && s[i].val == min_val_of(s);
    let k = choose|i: int| 0 <= i < s.len() && s[i].val == max_val_of(s);
    assert(min_val_of(s) == v);
    assert(max_val_of(s) == v);
}

/// The global extrema are ordered and, when every series' coordinates
/// are in range, so are they.
pub proof fn lemma_global_extrema(ss: Seq<SeriesV>)
    requires
        ss.len() > 0,
        forall|i: int| 0 <= i < ss.len() ==> (#[trigger] ss[i].1).len() > 0,
        forall|i: int| 0 <= i < ss.len() ==> samples_ok(#[trigger] ss[i].1),
    ensures
        g_min_ts(ss) <= g_max_ts(ss),
        g_min_val(ss) <= g_max_val(ss),
        coord_ok(g_min_ts(ss)),
        coord_ok(g_max_ts(ss)),
        coord_ok(g_min_val(ss)),
        coord_ok(g_max_val(ss)),
    decreases ss.len(),
{
    if ss.len() == 1 {
        lemma_extrema(ss[0].1);
        let s = ss[0].1;
        let j = choose|j: int| 0 <= j < s.len() && s[j].val == min_val_of(s);
        let k = choose|j: int| 0 <= j < s.len() && s[j].val == max_val_of(s);
        let j2 = choose|j: int| 0 <= j < s.len() && s[j].ts == min_ts_of(s);
        let k2 = choose|j: int| 0 <= j < s.len() && s[j].ts == max_ts_of(s);
        assert(min_val_of(s) <= s[0].val <= max_val_of(s));
        assert(min_ts_of(s) <= s[0].ts <= max_ts_of(s));
        assert(coord_ok(s[j].val as int) && coord_ok(s[k].val as int));
        assert(coord_ok(s[j2].ts as int) && coord_ok(s[k2].ts as int));
    } else {
        let dl = ss.drop_last();
        assert forall|i: int| 0 <= i < dl.len() implies (#[trigger] dl[i].1).len() > 0
            && samples_ok(dl[i].1) by {
            assert(dl[i] == ss[i]);
        }
        lemma_global_extrema(dl);
        let s = ss.last().1;
        assert(s.len() > 0 && samples_ok(s));
        lemma_extrema(s);
        let j = choose|j: int| 0 <= j < s.len() && s[j].val == min_val_of(s);
        let k = choose|j: int| 0 <= j < s.len() && s[j].val == max_val_of(s);
        let j2 = choose|j: int| 0 <= j < s.len() && s[j].ts == min_ts_of(s);
        let k2 = choose|j: int| 0 <= j < s.len() && s[j].ts == max_ts_of(s);
        assert(min_val_of(s) <= s[0].val <= max_val_of(s));
        assert(min_ts_of(s) <= s[0].ts <= max_ts_of(s));
        assert(coord_ok(s[j].val as int) && coord_ok(s[k].val as int));
        assert(coord_ok(s[j2].ts as int) && coord_ok(s[k2].ts as int));
    }
}

} // verus!
