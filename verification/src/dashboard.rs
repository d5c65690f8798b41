//! The live dashboard: per-refresh it turns the current series
//! snapshot into a draw plan (axis bounds, axis labels, title, legend),
//! and a small state machine decides each loop turn: quit on the quit
//! key, refetch when the refresh interval has elapsed, redraw
//! otherwise. A failed fetch keeps the previous snapshot.

use vstd::prelude::*;

use crate::bounds::{
    g_max_ts, g_max_val, g_min_ts, g_min_val, global_bounds, lemma_global_extrema, pad_y,
    padded_hi, padded_lo,
};
use crate::color::{color_for, spec_color_for};
use crate::fixed::{coord_ok, SCALE};
use crate::numtext::{dec_text, fixed_text, push_dec, push_fixed};
use crate::resample::samples_ok;
use crate::series::{lemma_extrema, max_val_of, min_val_of, series_views, Series, SeriesV};

verus! {

/// What the dashboard loop does next.
#[derive(Clone, Copy, PartialEq, Eq, Structural, Debug)]
pub enum LoopAction {
    Redraw,
    Refetch,
    Quit,
}

/// Decides one turn of the dashboard loop: quit when requested,
/// refetch once the refresh interval has elapsed, else just redraw.
pub fn next_action(quit_requested: bool, elapsed_ms: u64, refresh_ms: u64) -> (a: LoopAction)
    ensures
        a is Quit <==> quit_requested,
        a is Refetch <==> !quit_requested && elapsed_ms >= refresh_ms,
        a is Redraw <==> !quit_requested && elapsed_ms < refresh_ms,
{
    if quit_requested {
        LoopAction::Quit
    } else if elapsed_ms >= refresh_ms {
        LoopAction::Refetch
    } else {
        LoopAction::Redraw
    }
}

/// Whether a key event asks the dashboard to quit: the `q` key,
/// pressed.
pub fn should_quit(code: char, is_press: bool) -> (r: bool)
    ensures
        r == (is_press && code == 'q'),
{
    is_press && code == 'q'
}

/// Replaces the snapshot with a fetched one; a failed fetch keeps the
/// current snapshot.
pub fn merge_snapshot(current: Vec<Series>, fetched: Option<Vec<Series>>) -> (out: Vec<Series>)
    ensures
        fetched matches Some(s) ==> out == s,
        fetched is None ==> out == current,
{
    match fetched {
        Some(s) => s,
        None => current,
    }
}

/// The midpoint of an ordered pair, rounded toward the lower end.
pub open spec fn mid_of(a: int, b: int) -> int {
    a + (b - a) / 2
}

/// The whole seconds of a fixed-point timestamp, rounded toward zero.
pub open spec fn secs_of_ts(ts: int) -> int {
    if ts >= 0 {
        ts / (SCALE as int)
    } else {
        -((-ts) / (SCALE as int))
    }
}

/// Computes the midpoint of an ordered pair.
pub fn mid_point(a: i64, b: i64) -> (m: i64)
    requires
        a <= b,
        b - a <= i64::MAX,
    ensures
        m == mid_of(a as int, b as int),
        a <= m <= b,
{
    let half = (((b - a) as u64) / 2) as i64;
    proof {
        assert((b - a) as u64 == b - a);
        assert(((b - a) as u64) / 2 <= (b - a) as u64);
        assert(half as int == (b as int - a as int) / 2);
    }
    a + half
}

/// Computes the whole seconds of a fixed-point timestamp.
pub fn to_seconds(ts: i64) -> (s: i64)
    requires
        ts > i64::MIN,
    ensures
        s == secs_of_ts(ts as int),
{
    if ts >= 0 {
        ((ts as u64) / 1000) as i64
    } else {
        let q = (((-ts) as u64) / 1000) as i64;
        proof {
            assert((-ts) as u64 == -(ts as int));
            assert(((-ts) as u64) / 1000 <= (-ts) as u64);
        }
        -q
    }
}

/// Relies on jiff's `Timestamp::from_second`, `to_zoned` with the
/// system time zone, and `strftime`: seconds since the epoch rendered
/// as `%H:%M`, or a placeholder when out of range. The text depends on
/// the machine's time zone, so nothing is promised of it.
#[verifier::external_body]
pub fn format_hhmm(secs: i64) -> String {
    match jiff::Timestamp::from_second(secs) {
        Ok(t) => {
            let zoned = t.to_zoned(jiff::tz::TimeZone::system());
            zoned.strftime("%H:%M").to_string()
        },
        Err(_) => "N/A".to_string(),
    }
}


/// The rows the legend panel takes: one per series plus a two-row
/// border, saturated to the row type, but no more than a third of the
/// frame.
pub open spec fn legend_height_of(n_series: int, frame_height: int) -> int {
    let want = if n_series + 2 > 65535 {
        65535int
    } else {
        n_series + 2
    };
    let cap = frame_height / 3;
    if want < cap {
        want
    } else {
        cap
    }
}

/// Computes the rows the legend panel takes.
pub fn legend_height(n_series: usize, frame_height: u16) -> (h: u16)
    ensures
        h == legend_height_of(n_series as int, frame_height as int),
{
    let want: u16 = if n_series >= 65534 {
        65535
    } else {
        (n_series as u16) + 2
    };
    let cap: u16 = frame_height / 3;
    if want < cap {
        want
    } else {
        cap
    }
}

/// The dashboard title: the expression, the refresh interval, and the
/// quit hint.
pub open spec fn title_text(expr: Seq<char>, refresh_secs: int) -> Seq<char> {
    " "@ + expr + " | refresh: "@ + dec_text(refresh_secs) + "s | press q to quit "@
}

/// One legend line: the label and the series' own statistics.
pub open spec fn legend_text(label: Seq<char>, mn: int, mx: int, last: int) -> Seq<char> {
    label + " | min: "@ + fixed_text(mn) + "  max: "@ + fixed_text(mx) + "  last: "@ + fixed_text(
        last,
    )
}

/// One legend entry: the series' color swatch and its line of text.
pub struct LegendEntry {
    pub color: (u8, u8, u8),
    pub text: String,
}

/// Everything one dashboard frame needs: axis bounds, axis labels, the
/// title, and the legend.
pub struct DashboardPlan {
    pub x_lo: i64,
    pub x_hi: i64,
    pub y_lo: i64,
    pub y_hi: i64,
    pub x_label_lo: String,
    pub x_label_mid: String,
    pub x_label_hi: String,
    pub y_label_lo: String,
    pub y_label_mid: String,
    pub y_label_hi: String,
    pub title: String,
    pub legend: Vec<LegendEntry>,
}

/// Builds the dashboard title.
fn title_string(expr: &str, refresh_secs: u64) -> (out: String)
    ensures
        out@ == title_text(expr@, refresh_secs as int),
{
    let mut out = String::new();
    out.append(" ");
    out.append(expr);
    out.append(" | refresh: ");
    push_dec(&mut out, refresh_secs);
    out.append("s | press q to quit ");
    proof {
        assert(out@ =~= title_text(expr@, refresh_secs as int));
    }
    out
}

/// Builds one legend line.
fn legend_string(label: &str, mn: i64, mx: i64, last: i64) -> (out: String)
    requires
        mn > i64::MIN,
        mx > i64::MIN,
        last > i64::MIN,
    ensures
        out@ == legend_text(label@, mn as int, mx as int, last as int),
{
    let mut out = String::new();
    out.append(label);
    out.append(" | min: ");
    push_fixed(&mut out, mn);
    out.append("  max: ");
    push_fixed(&mut out, mx);
    out.append("  last: ");
    push_fixed(&mut out, last);
    proof {
        assert(out@ =~= legend_text(label@, mn as int, mx as int, last as int));
    }
    out
}

/// A faithful legend entry for the series at position `k`.
pub open spec fn legend_entry_ok(e: LegendEntry, ex: Seq<SeriesV>, k: int) -> bool {
    &&& e.color == spec_color_for(k)
    &&& e.text@ == legend_text(ex[k].0, min_val_of(ex[k].1), max_val_of(ex[k].1), ex[k].1.last().val as int)
}

/// A faithful dashboard frame for the series `ex`.
pub open spec fn dashboard_ok(d: DashboardPlan, ex: Seq<SeriesV>, expr: Seq<char>, refresh_secs: int) -> bool {
    &&& d.x_lo == g_min_ts(ex)
    &&& d.x_hi == g_max_ts(ex)
    &&& d.y_lo == padded_lo(g_min_val(ex), g_max_val(ex))
    &&& d.y_hi == padded_hi(g_min_val(ex), g_max_val(ex))
    &&& d.y_lo < d.y_hi
    &&& d.y_label_lo@ == fixed_text(d.y_lo as int)
    &&& d.y_label_mid@ == fixed_text(mid_of(d.y_lo as int, d.y_hi as int))
    &&& d.y_label_hi@ == fixed_text(d.y_hi as int)
    &&& d.title@ == title_text(expr, refresh_secs)
    &&& d.legend@.len() == ex.len()
    &&& forall|k: int| 0 <= k < ex.len() ==> legend_entry_ok(#[trigger] d.legend@[k], ex, k)
}

/// Plans one dashboard frame from the current snapshot: nothing for an
/// empty snapshot (the frame is left untouched), else the global time
/// bounds, the padded global value bounds, formatted axis labels at
/// the ends and midpoint of each axis, the title, and one legend entry
/// per series with its color by ordinal and its own statistics.
pub fn dashboard_plan(series: &Vec<Series>, expr: &str, refresh_secs: u64) -> (p: Option<
    DashboardPlan,
>)
    requires
        forall|i: int| 0 <= i < series@.len() ==> (#[trigger] series@[i].points@).len() > 0,
        forall|i: int| 0 <= i < series@.len() ==> samples_ok(#[trigger] series@[i].points@),
    ensures
        (p is None) <==> series@.len() == 0,
        p matches Some(d) ==> dashboard_ok(d, series_views(series@), expr@, refresh_secs as int),
{
    if series.len() == 0 {
        return None;
    }
    let ghost ex: Seq<SeriesV> = series_views(series@);
    proof {
        lemma_global_extrema(ex);
    }
    let b = global_bounds(series);
    let (y_lo, y_hi) = pad_y(b.ymin, b.ymax);
    let x_mid = mid_point(b.xmin, b.xmax);
    let y_mid = mid_point(y_lo, y_hi);
    let title = title_string(expr, refresh_secs);
    let mut legend: Vec<LegendEntry> = Vec::new();
    let mut i: usize = 0;
    while i < series.len()
        invariant
            i <= series@.len(),
            ex == series_views(series@),
            legend@.len() == i,
            forall|k: int| 0 <= k < i ==> legend_entry_ok(#[trigger] legend@[k], ex, k),
            forall|k: int| 0 <= k < series@.len() ==> (#[trigger] series@[k].points@).len() > 0,
            forall|k: int| 0 <= k < series@.len() ==> samples_ok(#[trigger] series@[k].points@),
        decreases series@.len() - i,
    {
        proof {
            assert(ex[i as int] == series@[i as int]@);
            lemma_extrema(series@[i as int].points@);
            let pts = series@[i as int].points@;
            let j = choose|j: int| 0 <= j < pts.len() && pts[j].val == min_val_of(pts);
            let k = choose|j: int| 0 <= j < pts.len() && pts[j].val == max_val_of(pts);
            assert(coord_ok(pts[j].val as int) && coord_ok(pts[k].val as int));
            assert(coord_ok(pts[pts.len() - 1].val as int));
        }
        let st = series[i].stats();
        let text = legend_string(series[i].label.as_str(), st.min_val, st.max_val, st.last);
        legend.push(LegendEntry { color: color_for(i), text });
        i += 1;
    }
    Some(
        DashboardPlan {
            x_lo: b.xmin,
            x_hi: b.xmax,
            y_lo,
            y_hi,
            x_label_lo: format_hhmm(to_seconds(b.xmin)),
            x_label_mid: format_hhmm(to_seconds(x_mid)),
            x_label_hi: format_hhmm(to_seconds(b.xmax)),
            y_label_lo: fixed_label(y_lo),
            y_label_mid: fixed_label(y_mid),
            y_label_hi: fixed_label(y_hi),
            title,
            legend,
        },
    )
}

/// Builds one value-axis label.
fn fixed_label(v: i64) -> (out: String)
    requires
        v > i64::MIN,
    ensures
        out@ == fixed_text(v as int),
{
    let mut out = String::new();
    push_fixed(&mut out, v);
    proof {
        assert(Seq::<char>::empty() + fixed_text(v as int) =~= fixed_text(v as int));
    }
    out
}

} // verus!
