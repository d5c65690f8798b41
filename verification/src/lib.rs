//! Verified core of a terminal plotter for Prometheus range-query results.
//!
//! The pipeline turns labeled time series into a chart plan: label
//! derivation, axis bounds with padding, resampling onto a shared
//! chart-index domain, and cyclic color assignment. Values and
//! timestamps are fixed-point integers in thousandths of a unit, so
//! every arithmetic step is exact and verified.

mod bounds;
mod chart;
mod color;
mod dashboard;
mod fixed;
mod labels;
mod lexical;
mod numtext;
mod query;
mod resample;
mod series;

pub use bounds::{get_bounds, global_bounds, pad_y, Bounds};
pub use chart::{BackendTextplots, ChartContent, ChartPlan, Trace};
pub use dashboard::{
    dashboard_plan, format_hhmm, legend_height, merge_snapshot, next_action, should_quit,
    to_seconds, DashboardPlan, LegendEntry, LoopAction,
};
pub use color::color_for;
pub use fixed::{COORD_LIMIT, HALF_UNIT, SCALE};
pub use labels::{derive_label, sort_pairs, LabelPair};
pub use lexical::{str_eq, str_lt};
pub use numtext::{dec_string, fixed_string};
pub use query::{check_result, query_window, FetchError};
pub use resample::{point_value, Resampler};
pub use series::{extract_series, RawSeries, Sample, Series, SeriesStats};
