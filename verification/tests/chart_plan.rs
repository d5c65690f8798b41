use promplot::{
    color_for, get_bounds, global_bounds, pad_y, BackendTextplots, ChartPlan, LabelPair,
    RawSeries, Resampler, Sample, Series,
};

fn pair(k: &str, v: &str) -> LabelPair {
    LabelPair { key: k.to_string(), value: v.to_string() }
}

fn sample(ts: i64, val: i64) -> Sample {
    Sample { ts, val }
}

#[test]
fn bounds_of_points() {
    let pts = vec![sample(5000, 2000), sample(1000, 9000), sample(3000, -4000)];
    let b = get_bounds(&pts);
    assert_eq!(b.xmin, 1000);
    assert_eq!(b.xmax, 5000);
    assert_eq!(b.ymin, -4000);
    assert_eq!(b.ymax, 9000);
}

#[test]
fn bounds_of_empty_points_are_zero() {
    let b = get_bounds(&vec![]);
    assert_eq!((b.xmin, b.xmax, b.ymin, b.ymax), (0, 0, 0, 0));
}

#[test]
fn padding_constant_series_half_unit() {
    let pts = vec![sample(0, 42_000), sample(1000, 42_000), sample(2000, 42_000)];
    let b = get_bounds(&pts);
    let (lo, hi) = pad_y(b.ymin, b.ymax);
    assert_eq!(lo, 41_500);
    assert_eq!(hi, 42_500);
}

#[test]
fn padding_five_percent() {
    let (lo, hi) = pad_y(0, 100_000);
    assert_eq!(lo, -5_000);
    assert_eq!(hi, 105_000);
}

#[test]
fn global_bounds_across_series() {
    let series = vec![
        Series { label: "a".to_string(), points: vec![sample(0, 1000), sample(2000, 5000)] },
        Series { label: "b".to_string(), points: vec![sample(-1000, 7000), sample(500, -2000)] },
    ];
    let b = global_bounds(&series);
    assert_eq!(b.xmin, -1000);
    assert_eq!(b.xmax, 2000);
    assert_eq!(b.ymin, -2000);
    assert_eq!(b.ymax, 7000);
}

#[test]
fn resample_identity_on_aligned_series() {
    let vals = [1000, 2000, 3000, 4000, 5000];
    let points: Vec<Sample> =
        (0..5).map(|i| sample(10_000 * i as i64, vals[i])).collect();
    let rs = Resampler { points, domain: 5, tmin: 0, tmax: 40_000 };
    for i in 0..5 {
        assert_eq!(rs.evaluate(i), vals[i]);
    }
}

#[test]
fn resample_boundaries_hit_first_and_last() {
    let points = vec![sample(5_000, 1111), sample(20_000, 2222), sample(35_000, 3333)];
    let rs = Resampler { points, domain: 5, tmin: 0, tmax: 40_000 };
    assert_eq!(rs.evaluate(0), 1111);
    assert_eq!(rs.evaluate(4), 3333);
}

#[test]
fn resample_interpolates_between_brackets() {
    // Two series share the domain of the longer one (5 points over
    // 0..40): at index 2 the target time is 20, between the shorter
    // series' 2nd and 3rd points (15 and 40), a fifth of the way.
    let long: Vec<Sample> = (0..5).map(|i| sample(10_000 * i as i64, 1000)).collect();
    let short = vec![sample(0, 500), sample(15_000, 1000), sample(40_000, 6000)];
    let rs_long = Resampler { points: long, domain: 5, tmin: 0, tmax: 40_000 };
    let rs_short = Resampler { points: short, domain: 5, tmin: 0, tmax: 40_000 };
    assert_eq!(rs_long.evaluate(2), 1000);
    assert_eq!(rs_short.evaluate(2), 2000);
}

#[test]
fn resample_fills_outside_known_range() {
    let points = vec![sample(10_000, 4000), sample(20_000, 8000)];
    let rs = Resampler { points, domain: 5, tmin: 0, tmax: 40_000 };
    assert_eq!(rs.evaluate(0), 4000); // backward fill before the first point
    assert_eq!(rs.evaluate(4), 8000); // forward fill past the last point
}

#[test]
fn resample_out_of_domain_and_empty() {
    let rs = Resampler { points: vec![sample(0, 1000)], domain: 3, tmin: 0, tmax: 1000 };
    assert_eq!(rs.evaluate(3), 0);
    let empty = Resampler { points: vec![], domain: 3, tmin: 0, tmax: 1000 };
    assert_eq!(empty.evaluate(0), 0);
}

#[test]
fn palette_cycles_after_eight() {
    let palette = [
        (0, 252, 0),
        (252, 0, 0),
        (252, 252, 0),
        (252, 0, 252),
        (0, 252, 252),
        (252, 165, 0),
        (128, 0, 128),
        (0, 0, 252),
    ];
    for i in 0..8 {
        assert_eq!(color_for(i), palette[i]);
    }
    assert_eq!(color_for(8), palette[0]);
    assert_eq!(color_for(9), palette[1]);
}

#[test]
fn plan_reports_no_data_on_empty_input() {
    let backend = BackendTextplots::new(200, 60);
    let plan = backend.generate_plan(&vec![]);
    assert_eq!(plan.summary(), "No data");
    assert!(matches!(plan, ChartPlan::NoData));
}

#[test]
fn plan_reports_no_valid_points() {
    let backend = BackendTextplots::new(200, 60);
    let data = vec![RawSeries { labels: vec![pair("__name__", "m")], samples: vec![] }];
    let plan = backend.generate_plan(&data);
    assert_eq!(plan.summary(), "No valid data points");
}

#[test]
fn plan_builds_traces_with_colors_and_message() {
    let backend = BackendTextplots::new(200, 60);
    let data = vec![
        RawSeries {
            labels: vec![pair("__name__", "m"), pair("k", "1")],
            samples: vec![sample(0, 0), sample(10_000, 100_000)],
        },
        RawSeries {
            labels: vec![pair("__name__", "m"), pair("k", "2")],
            samples: vec![sample(0, 50_000), sample(5_000, 50_000), sample(10_000, 50_000)],
        },
    ];
    let plan = backend.generate_plan(&data);
    assert_eq!(plan.summary(), "Displayed 2 series");
    match plan {
        ChartPlan::Chart(c) => {
            assert_eq!(c.width, 200);
            assert_eq!(c.height, 60);
            assert_eq!(c.domain, 3);
            assert_eq!(c.y_lo, -5_000);
            assert_eq!(c.y_hi, 105_000);
            assert_eq!(c.heading, "Plotting 2 series:");
            assert_eq!(c.traces.len(), 2);
            assert_eq!(c.traces[0].label, "m(k=1)");
            assert_eq!(c.traces[0].color, (0, 252, 0));
            assert_eq!(c.traces[0].line, "- m(k=1): 2 points (color: RGB(0, 252, 0))");
            assert_eq!(c.traces[1].label, "m(k=2)");
            assert_eq!(c.traces[1].color, (252, 0, 0));
            assert_eq!(c.traces[1].sampler.domain, 3);
            assert_eq!(c.traces[1].sampler.tmin, 0);
            assert_eq!(c.traces[1].sampler.tmax, 10_000);
        }
        _ => panic!("expected a chart"),
    }
}

#[test]
fn direct_mode_maps_index_to_point() {
    let pts = vec![sample(0, 1000), sample(1000, 2000)];
    assert_eq!(promplot::point_value(&pts, 0), 1000);
    assert_eq!(promplot::point_value(&pts, 1), 2000);
    assert_eq!(promplot::point_value(&pts, 2), 0);
}

#[test]
fn densest_trace_wins_ties_late() {
    let backend = BackendTextplots::new(80, 40);
    let data = vec![
        RawSeries {
            labels: vec![pair("__name__", "a")],
            samples: vec![sample(0, 0), sample(1000, 0)],
        },
        RawSeries {
            labels: vec![pair("__name__", "b")],
            samples: vec![sample(0, 0)],
        },
        RawSeries {
            labels: vec![pair("__name__", "c")],
            samples: vec![sample(0, 0), sample(1000, 0)],
        },
    ];
    match backend.generate_plan(&data) {
        ChartPlan::Chart(c) => assert_eq!(c.densest_trace(), Some(2)),
        _ => panic!("expected a chart"),
    }
}
